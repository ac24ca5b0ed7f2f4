use vstd::prelude::*;
use vstd::arithmetic::power::pow;
use num_integer::Integer as NumIntegerOps;

verus! {

/// Value of a little-endian base-256 digit sequence.
pub open spec fn le_val(s: Seq<u8>) -> int
    decreases s.len(),
{
    if s.len() == 0 {
        0
    } else {
        s[0] + 256 * le_val(s.skip(1))
    }
}

pub proof fn lemma_le_val_nonneg(s: Seq<u8>)
    ensures
        0 <= le_val(s),
    decreases s.len(),
{
    if s.len() > 0 {
        lemma_le_val_nonneg(s.skip(1));
    }
}

pub proof fn lemma_le_val_push(s: Seq<u8>, d: u8)
    ensures
        le_val(s.push(d)) == le_val(s) + d * pow(256, s.len() as nat),
    decreases s.len(),
{
    if s.len() == 0 {
        assert(s.push(d) =~= seq![d]);
        assert(seq![d].skip(1) =~= Seq::<u8>::empty());
        assert(le_val(seq![d]) == d + 256 * le_val(seq![d].skip(1)));
        assert(pow(256, 0) == 1) by {
            vstd::arithmetic::power::lemma_pow0(256);
        }
    } else {
        let t = s.skip(1);
        assert(s.push(d).skip(1) =~= t.push(d));
        lemma_le_val_push(t, d);
        assert(s.push(d)[0] == s[0]);
        assert(le_val(s.push(d)) == s[0] + 256 * le_val(t.push(d)));
        assert(256 * pow(256, t.len() as nat) == pow(256, s.len() as nat)) by {
            vstd::arithmetic::power::lemma_pow_adds(256, 1, t.len() as nat);
            vstd::arithmetic::power::lemma_pow1(256);
        }
        assert(256 * (d * pow(256, t.len() as nat)) == d * (256 * pow(256, t.len() as nat))) by {
            vstd::arithmetic::mul::lemma_mul_is_associative(256, d as int, pow(256, t.len() as nat));
            vstd::arithmetic::mul::lemma_mul_is_associative(d as int, 256, pow(256, t.len() as nat));
        }
    }
}

/// The positive part of a signed big integer, rendered as the fewest
/// little-endian digits; zero is a single zero digit, as the outside
/// encoder writes it.
pub open spec fn min_bytes(v: int) -> Seq<u8>
    decreases v, 1int via min_bytes_dec
{
    if v <= 0 {
        seq![0u8]
    } else {
        seq![(v % 256) as u8] + if v / 256 == 0 { Seq::<u8>::empty() } else { min_bytes(v / 256) }
    }
}

#[via_fn]
proof fn min_bytes_dec(v: int) {
}

/// An arbitrary-precision signed integer: a sign and little-endian digits.
/// The digits need not be minimal; the mathematical value is the view.
pub struct Bigint {
    pub neg: bool,
    pub mag: Vec<u8>,
}

impl Bigint {
    pub open spec fn wf(&self) -> bool {
        self.neg ==> le_val(self.mag@) != 0
    }
}

impl View for Bigint {
    type V = int;

    open spec fn view(&self) -> int {
        if self.neg {
            -le_val(self.mag@)
        } else {
            le_val(self.mag@)
        }
    }
}

impl Clone for Bigint {
    fn clone(&self) -> (r: Self)
        ensures
            r.neg == self.neg,
            r.mag@ == self.mag@,
            r@ == self@,
            r.wf() == self.wf(),
    {
        Bigint { neg: self.neg, mag: self.mag.clone() }
    }
}

impl Bigint {
    /// The integer with the given little-endian digits, non-negative.
    pub fn from_bytes_le(bytes: Vec<u8>) -> (r: Self)
        ensures
            r@ == le_val(bytes@),
            r.mag@ == bytes@,
            r.neg == false,
            r.wf(),
            r@ >= 0,
    {
        proof {
            lemma_le_val_nonneg(bytes@);
        }
        Bigint { neg: false, mag: bytes }
    }

    pub fn zero() -> (r: Self)
        ensures
            r@ == 0,
            r.wf(),
    {
        Bigint { neg: false, mag: Vec::new() }
    }

    pub fn from_u64(x: u64) -> (r: Self)
        ensures
            r@ == x,
            r.wf(),
    {
        let mut mag: Vec<u8> = Vec::new();
        let mut v: u64 = x;
        proof {
            vstd::arithmetic::power::lemma_pow0(256);
        }
        while v > 0
            invariant
                x == le_val(mag@) + v * pow(256, mag@.len() as nat),
                0 <= le_val(mag@),
            decreases v,
        {
            let d: u8 = (v % 256) as u8;
            let ghost old_mag = mag@;
            let ghost old_v = v as int;
            mag.push(d);
            v = v / 256;
            proof {
                lemma_le_val_push(old_mag, d);
                lemma_le_val_nonneg(mag@);
                assert(pow(256, mag@.len() as nat) == 256 * pow(256, old_mag.len() as nat)) by {
                    vstd::arithmetic::power::lemma_pow_adds(256, 1, old_mag.len() as nat);
                    vstd::arithmetic::power::lemma_pow1(256);
                }
                assert(old_v == 256 * (old_v / 256) + old_v % 256);
                assert(old_v * pow(256, old_mag.len() as nat)
                    == (old_v % 256) * pow(256, old_mag.len() as nat)
                       + (old_v / 256) * (256 * pow(256, old_mag.len() as nat))) by {
                    vstd::arithmetic::mul::lemma_mul_is_distributive_add_other_way(
                        pow(256, old_mag.len() as nat), 256 * (old_v / 256), old_v % 256);
                    vstd::arithmetic::mul::lemma_mul_is_associative(old_v / 256, 256, pow(256, old_mag.len() as nat));
                }
            }
        }
        proof {
            lemma_le_val_nonneg(mag@);
        }
        Bigint { neg: false, mag }
    }

    pub fn negate(self) -> (r: Self)
        requires
            self.wf(),
        ensures
            r@ == -self@,
            r.wf(),
    {
        if self.neg {
            Bigint { neg: false, mag: self.mag }
        } else {
            let z = self.is_zero();
            if z {
                Bigint { neg: false, mag: Vec::new() }
            } else {
                Bigint { neg: true, mag: self.mag }
            }
        }
    }

    pub fn is_zero(&self) -> (r: bool)
        ensures
            r == (self@ == 0),
    {
        let mut i: usize = 0;
        let mut all0: bool = true;
        while i < self.mag.len()
            invariant
                0 <= i <= self.mag.len(),
                all0 == (forall|j: int| 0 <= j < i ==> self.mag@[j] == 0),
            decreases self.mag.len() - i,
        {
            if self.mag[i] != 0 {
                all0 = false;
            }
            i = i + 1;
        }
        proof {
            lemma_le_val_zero_iff(self.mag@);
        }
        all0
    }
}

/// Element-wise equality of two byte vectors.
pub fn bytes_eq(a: &Vec<u8>, b: &Vec<u8>) -> (r: bool)
    ensures
        r == (a@ == b@),
{
    if a.len() != b.len() {
        proof {
            assert(a@.len() != b@.len());
        }
        return false;
    }
    let mut i: usize = 0;
    let mut same: bool = true;
    while i < a.len()
        invariant
            0 <= i <= a.len(),
            a@.len() == b@.len(),
            same == (forall|j: int| 0 <= j < i ==> a@[j] == b@[j]),
        decreases a.len() - i,
    {
        if a[i] != b[i] {
            same = false;
        }
        i = i + 1;
    }
    proof {
        if same {
            assert(a@ =~= b@);
        }
    }
    same
}

/// A digit sequence is at least any single digit times its weight.
pub proof fn lemma_le_val_lower_pub(s: Seq<u8>, i: int)
    requires
        0 <= i < s.len(),
    ensures
        le_val(s) >= s[i] * pow(256, i as nat),
    decreases s.len(),
{
    lemma_le_val_nonneg(s);
    if i == 0 {
        lemma_le_val_nonneg(s.skip(1));
        vstd::arithmetic::power::lemma_pow0(256);
    } else {
        lemma_le_val_lower_pub(s.skip(1), i - 1);
        lemma_le_val_nonneg(s.skip(1));
        assert(s.skip(1)[i - 1] == s[i]);
        assert(256 * (s[i] * pow(256, (i - 1) as nat)) == s[i] * pow(256, i as nat)) by {
            vstd::arithmetic::power::lemma_pow_adds(256, 1, (i - 1) as nat);
            vstd::arithmetic::power::lemma_pow1(256);
            vstd::arithmetic::mul::lemma_mul_is_associative(256, s[i] as int, pow(256, (i - 1) as nat));
            vstd::arithmetic::mul::lemma_mul_is_associative(s[i] as int, 256, pow(256, (i - 1) as nat));
        }
        assert(256 * le_val(s.skip(1)) >= 256 * (s[i] * pow(256, (i - 1) as nat))) by {
            vstd::arithmetic::mul::lemma_mul_inequality(s[i] * pow(256, (i - 1) as nat), le_val(s.skip(1)), 256);
        }
    }
}

/// A digit sequence is bounded by the power at its length.
pub proof fn lemma_le_val_len_upper(s: Seq<u8>)
    ensures
        le_val(s) < pow(256, s.len() as nat),
{
    if s.len() == 0 {
        vstd::arithmetic::power::lemma_pow0(256);
    } else {
        lemma_le_val_top_upper(s);
        vstd::arithmetic::power::lemma_pow_positive(256, (s.len() - 1) as nat);
        assert((s.last() + 1) * pow(256, (s.len() - 1) as nat)
            <= 256 * pow(256, (s.len() - 1) as nat)) by {
            vstd::arithmetic::mul::lemma_mul_inequality(
                s.last() + 1, 256, pow(256, (s.len() - 1) as nat));
            vstd::arithmetic::mul::lemma_mul_is_commutative(
                s.last() + 1, pow(256, (s.len() - 1) as nat));
            vstd::arithmetic::mul::lemma_mul_is_commutative(
                256, pow(256, (s.len() - 1) as nat));
        }
        assert(256 * pow(256, (s.len() - 1) as nat) == pow(256, s.len() as nat)) by {
            vstd::arithmetic::power::lemma_pow_adds(256, 1, (s.len() - 1) as nat);
            vstd::arithmetic::power::lemma_pow1(256);
        }
    }
}

/// A digit sequence is bounded by its top digit: everything below the
/// leading digit contributes less than one more unit of its weight.
pub proof fn lemma_le_val_top_upper(s: Seq<u8>)
    requires
        s.len() > 0,
    ensures
        le_val(s) < (s.last() + 1) * pow(256, (s.len() - 1) as nat),
    decreases s.len(),
{
    if s.len() == 1 {
        assert(le_val(s) == s[0] + 256 * le_val(s.skip(1)));
        assert(s.skip(1) =~= Seq::<u8>::empty());
        vstd::arithmetic::power::lemma_pow0(256);
        assert((s.last() + 1) * 1 == s.last() + 1) by {
            vstd::arithmetic::mul::lemma_mul_basics(s.last() + 1);
        }
    } else {
        let t = s.skip(1);
        lemma_le_val_top_upper(t);
        assert(t.last() == s.last());
        let k = (t.len() - 1) as nat;
        let x = (s.last() + 1) * pow(256, k);
        assert(le_val(t) <= x - 1);
        assert(256 * le_val(t) <= 256 * (x - 1)) by {
            vstd::arithmetic::mul::lemma_mul_inequality(le_val(t), x - 1, 256);
            vstd::arithmetic::mul::lemma_mul_is_commutative(le_val(t), 256);
            vstd::arithmetic::mul::lemma_mul_is_commutative(x - 1, 256);
        }
        assert(256 * x == (s.last() + 1) * pow(256, (s.len() - 1) as nat)) by {
            vstd::arithmetic::power::lemma_pow_adds(256, 1, k);
            vstd::arithmetic::power::lemma_pow1(256);
            vstd::arithmetic::mul::lemma_mul_is_associative(256, s.last() + 1, pow(256, k));
            vstd::arithmetic::mul::lemma_mul_is_associative(s.last() + 1, 256, pow(256, k));
        }
        assert(le_val(s) == s[0] + 256 * le_val(t));
    }
}

/// The prime that the outside search returns first above `x`: a fixed
/// function of `x`, since the search tests candidates deterministically.
pub uninterp spec fn next_prime_of(x: int) -> int;

/// The verdict of the outside deterministic probable-prime test on `x`.
pub uninterp spec fn probable_prime(x: int) -> bool;

/// Relies on num_bigint::BigInt addition: the exact integer sum.
#[verifier::external_body]
pub fn bi_add(a: &Bigint, b: &Bigint) -> (r: Bigint)
    ensures
        r@ == a@ + b@,
        r.wf(),
{
    let asign = if a.neg { num_bigint::Sign::Minus } else { num_bigint::Sign::Plus };
    let bsign = if b.neg { num_bigint::Sign::Minus } else { num_bigint::Sign::Plus };
    let av = num_bigint::BigInt::from_bytes_le(asign, &a.mag);
    let bv = num_bigint::BigInt::from_bytes_le(bsign, &b.mag);
    let (s, mag) = (av + bv).to_bytes_le();
    Bigint { neg: s == num_bigint::Sign::Minus, mag }
}

/// Relies on num_bigint::BigInt subtraction: the exact integer difference.
#[verifier::external_body]
pub fn bi_sub(a: &Bigint, b: &Bigint) -> (r: Bigint)
    ensures
        r@ == a@ - b@,
        r.wf(),
{
    let asign = if a.neg { num_bigint::Sign::Minus } else { num_bigint::Sign::Plus };
    let bsign = if b.neg { num_bigint::Sign::Minus } else { num_bigint::Sign::Plus };
    let av = num_bigint::BigInt::from_bytes_le(asign, &a.mag);
    let bv = num_bigint::BigInt::from_bytes_le(bsign, &b.mag);
    let (s, mag) = (av - bv).to_bytes_le();
    Bigint { neg: s == num_bigint::Sign::Minus, mag }
}

/// Relies on num_bigint::BigInt multiplication: the exact integer product.
#[verifier::external_body]
pub fn bi_mul(a: &Bigint, b: &Bigint) -> (r: Bigint)
    ensures
        r@ == a@ * b@,
        r.wf(),
{
    let asign = if a.neg { num_bigint::Sign::Minus } else { num_bigint::Sign::Plus };
    let bsign = if b.neg { num_bigint::Sign::Minus } else { num_bigint::Sign::Plus };
    let av = num_bigint::BigInt::from_bytes_le(asign, &a.mag);
    let bv = num_bigint::BigInt::from_bytes_le(bsign, &b.mag);
    let (s, mag) = (av * bv).to_bytes_le();
    Bigint { neg: s == num_bigint::Sign::Minus, mag }
}

/// Relies on num_integer::Integer::div_rem: truncated division, with the
/// remainder taking the dividend's sign and staying below the divisor.
#[verifier::external_body]
pub fn bi_divrem(a: &Bigint, b: &Bigint) -> (r: (Bigint, Bigint))
    requires
        b@ != 0,
    ensures
        a@ == r.0@ * b@ + r.1@,
        vstd::math::abs(r.1@) < vstd::math::abs(b@),
        r.1@ == 0 || ((r.1@ < 0) <==> (a@ < 0)),
        r.0.wf(),
        r.1.wf(),
{
    let asign = if a.neg { num_bigint::Sign::Minus } else { num_bigint::Sign::Plus };
    let bsign = if b.neg { num_bigint::Sign::Minus } else { num_bigint::Sign::Plus };
    let av = num_bigint::BigInt::from_bytes_le(asign, &a.mag);
    let bv = num_bigint::BigInt::from_bytes_le(bsign, &b.mag);
    let (q, rem) = av.div_rem(&bv);
    let (qs, qmag) = q.to_bytes_le();
    let (rs, rmag) = rem.to_bytes_le();
    (Bigint { neg: qs == num_bigint::Sign::Minus, mag: qmag },
     Bigint { neg: rs == num_bigint::Sign::Minus, mag: rmag })
}

/// Relies on num_bigint::BigInt ordering: compares the integer values.
#[verifier::external_body]
pub fn bi_le(a: &Bigint, b: &Bigint) -> (r: bool)
    ensures
        r == (a@ <= b@),
{
    let asign = if a.neg { num_bigint::Sign::Minus } else { num_bigint::Sign::Plus };
    let bsign = if b.neg { num_bigint::Sign::Minus } else { num_bigint::Sign::Plus };
    let av = num_bigint::BigInt::from_bytes_le(asign, &a.mag);
    let bv = num_bigint::BigInt::from_bytes_le(bsign, &b.mag);
    av <= bv
}

/// Relies on num_bigint::BigInt equality: compares the integer values.
#[verifier::external_body]
pub fn bi_eq(a: &Bigint, b: &Bigint) -> (r: bool)
    ensures
        r == (a@ == b@),
{
    let asign = if a.neg { num_bigint::Sign::Minus } else { num_bigint::Sign::Plus };
    let bsign = if b.neg { num_bigint::Sign::Minus } else { num_bigint::Sign::Plus };
    let av = num_bigint::BigInt::from_bytes_le(asign, &a.mag);
    let bv = num_bigint::BigInt::from_bytes_le(bsign, &b.mag);
    av == bv
}

/// Relies on num_bigint::BigInt::modpow: `base^exponent mod modulus`, in
/// `[0, modulus)` for a positive modulus and non-negative exponent.
#[verifier::external_body]
pub fn bi_modpow(base: &Bigint, exponent: &Bigint, modulus: &Bigint) -> (r: Bigint)
    requires
        exponent@ >= 0,
        modulus@ > 0,
    ensures
        r@ == pow(base@, exponent@ as nat) % modulus@,
        r.wf(),
{
    let bsign = if base.neg { num_bigint::Sign::Minus } else { num_bigint::Sign::Plus };
    let bv = num_bigint::BigInt::from_bytes_le(bsign, &base.mag);
    let ev = num_bigint::BigInt::from_bytes_le(num_bigint::Sign::Plus, &exponent.mag);
    let mv = num_bigint::BigInt::from_bytes_le(num_bigint::Sign::Plus, &modulus.mag);
    let (s, mag) = bv.modpow(&ev, &mv).to_bytes_le();
    Bigint { neg: s == num_bigint::Sign::Minus, mag }
}

/// Relies on num_bigint::BigInt::modinv: the inverse in `[0, modulus)` when
/// one exists, and `None` exactly when none does.
#[verifier::external_body]
pub fn bi_modinv(a: &Bigint, modulus: &Bigint) -> (r: Option<Bigint>)
    requires
        modulus@ > 1,
    ensures
        match r {
            Some(w) => 0 <= w@ < modulus@ && (a@ * w@) % modulus@ == 1 && w.wf(),
            None => forall|x: int| 0 <= x < modulus@ ==> #[trigger] ((a@ * x) % modulus@) != 1,
        },
{
    let asign = if a.neg { num_bigint::Sign::Minus } else { num_bigint::Sign::Plus };
    let av = num_bigint::BigInt::from_bytes_le(asign, &a.mag);
    let mv = num_bigint::BigInt::from_bytes_le(num_bigint::Sign::Plus, &modulus.mag);
    match av.modinv(&mv) {
        None => None,
        Some(w) => {
            let (s, mag) = w.to_bytes_le();
            Some(Bigint { neg: s == num_bigint::Sign::Minus, mag })
        }
    }
}

/// Relies on num_prime::nt_funcs::next_prime under the deterministic
/// Baillie-PSW configuration: the first accepted candidate above the target.
#[verifier::external_body]
pub fn bi_next_prime(a: &Bigint) -> (r: Bigint)
    requires
        a@ >= 0,
    ensures
        r@ == next_prime_of(a@),
        r@ > a@,
        r@ >= 2,
        r.wf(),
{
    let av = num_bigint::BigUint::from_bytes_le(&a.mag);
    let p = num_prime::nt_funcs::next_prime(&av, Some(num_prime::PrimalityTestConfig::bpsw()))
        .expect("unbounded integers cannot overflow");
    Bigint { neg: false, mag: p.to_bytes_le() }
}

/// Relies on num_prime::nt_funcs::is_prime under a deterministic
/// configuration of one fixed-base strong-probable-prime round; primes
/// always pass the test.
#[verifier::external_body]
pub fn bi_probable_prime(a: &Bigint) -> (r: bool)
    requires
        a@ >= 0,
    ensures
        r == probable_prime(a@),
{
    let av = num_bigint::BigUint::from_bytes_le(&a.mag);
    let mut cfg = num_prime::PrimalityTestConfig::default();
    cfg.sprp_trials = 1;
    cfg.sprp_random_trials = 0;
    num_prime::nt_funcs::is_prime(&av, Some(cfg)).probably()
}

/// The lowest digit of a digit sequence is its value's residue in the
/// digit base.
pub proof fn lemma_le_val_low_digit(s: Seq<u8>)
    requires
        s.len() > 0,
    ensures
        le_val(s) % 256 == s[0],
{
    lemma_le_val_nonneg(s.skip(1));
    let r = le_val(s.skip(1));
    assert(le_val(s) == s[0] + 256 * r);
    assert((s[0] + 256 * r) % 256 == (s[0] as int) % 256) by {
        vstd::arithmetic::div_mod::lemma_mod_multiples_vanish(r, s[0] as int, 256);
        assert(256 * r == r * 256) by {
            vstd::arithmetic::mul::lemma_mul_is_commutative(256, r);
        }
    }
    vstd::arithmetic::div_mod::lemma_small_mod(s[0] as nat, 256nat);
}

/// The fewest little-endian digits of a non-negative integer, with a
/// single zero digit for zero: digits are peeled off the value one
/// division at a time.
pub fn bi_min_bytes(a: &Bigint) -> (r: Vec<u8>)
    requires
        a@ >= 0,
    ensures
        r@ == min_bytes(a@),
{
    if a.is_zero() {
        let mut out: Vec<u8> = Vec::new();
        out.push(0);
        proof {
            assert(out@ =~= min_bytes(0));
        }
        return out;
    }
    let b256 = Bigint::from_u64(256);
    let mut cur = a.clone();
    let mut out: Vec<u8> = Vec::new();
    proof {
        assert(out@ + min_bytes(cur@) =~= min_bytes(a@));
    }
    while !cur.is_zero()
        invariant
            b256@ == 256,
            cur.wf(),
            0 <= cur@,
            a@ > 0,
            cur@ > 0 ==> out@ + min_bytes(cur@) == min_bytes(a@),
            cur@ == 0 ==> out@ == min_bytes(a@),
        decreases cur@,
    {
        let d: u8 = if cur.mag.len() > 0 {
            cur.mag[0]
        } else {
            0
        };
        proof {
            lemma_le_val_nonneg(cur.mag@);
            assert(!cur.neg && cur@ == le_val(cur.mag@));
            if cur.mag@.len() > 0 {
                lemma_le_val_low_digit(cur.mag@);
            }
            assert(d == cur@ % 256);
        }
        let ghost prev = cur@;
        let (q, _rem) = bi_divrem(&cur, &b256);
        proof {
            vstd::arithmetic::div_mod::lemma_fundamental_div_mod_converse(
                prev, 256, q@, _rem@);
            vstd::arithmetic::div_mod::lemma_div_pos_is_pos(prev, 256);
            vstd::arithmetic::div_mod::lemma_div_decreases(prev, 256);
            assert(min_bytes(prev) == seq![d]
                + if prev / 256 == 0 { Seq::<u8>::empty() } else { min_bytes(prev / 256) });
        }
        let ghost old_out = out@;
        out.push(d);
        cur = q;
        proof {
            if cur@ > 0 {
                assert(out@ + min_bytes(cur@) =~= old_out + min_bytes(prev));
            } else {
                assert(out@ =~= old_out + min_bytes(prev));
            }
        }
    }
    out
}

pub proof fn lemma_le_val_zero_iff(s: Seq<u8>)
    ensures
        (le_val(s) == 0) <==> (forall|j: int| 0 <= j < s.len() ==> s[j] == 0),
    decreases s.len(),
{
    if s.len() > 0 {
        lemma_le_val_zero_iff(s.skip(1));
        lemma_le_val_nonneg(s.skip(1));
        if forall|j: int| 0 <= j < s.len() ==> s[j] == 0 {
            assert(forall|j: int| 0 <= j < s.skip(1).len() ==> s.skip(1)[j] == 0);
        }
        if le_val(s) == 0 {
            assert(s[0] == 0 && le_val(s.skip(1)) == 0);
            assert(forall|j: int| 1 <= j < s.len() ==> s[j] == s.skip(1)[j - 1]);
        }
    }
}

} // verus!
