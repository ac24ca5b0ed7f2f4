use vstd::prelude::*;
use vstd::arithmetic::power::pow;
use crate::bigint::{Bigint, le_val, bi_add, bi_sub, bi_mul, bi_divrem, bi_le, bi_eq, bi_modpow,
    bi_modinv, bi_probable_prime, lemma_le_val_nonneg, lemma_le_val_lower_pub,
    lemma_le_val_top_upper};
use crate::rand_src::random_bytes;

verus! {

/// Little-endian digits of the order of the outer scalar field, the prime
/// over which the inner curve is defined.
#[verifier::opaque]
pub open spec fn l_digits() -> Seq<u8> {
    seq![
        237u8, 211, 245, 92, 26, 99, 18, 88, 214, 156, 247, 162, 222, 249, 222, 20,
        0, 0, 0, 0, 0, 0, 0, 0, 0, 0, 0, 0, 0, 0, 0, 16,
    ]
}

/// The prime field order of the inner curve's coordinates.
pub open spec fn l_order() -> int {
    le_val(l_digits())
}

/// Little-endian digits of the order of the inner scalar field: the prime
/// just below two to the 250 that bounds the secret scalars.
#[verifier::opaque]
pub open spec fn fp_digits() -> Seq<u8> {
    seq![
        229u8, 240, 42, 115, 223, 119, 229, 6, 26, 210, 173, 31, 73, 220, 210, 234,
        255, 255, 255, 255, 255, 255, 255, 255, 255, 255, 255, 255, 255, 255, 255, 3,
    ]
}

/// The inner scalar field order.
pub open spec fn fp_modulus() -> int {
    le_val(fp_digits())
}

/// Little-endian digits of the exponent that the square-root candidate is
/// raised to.
#[verifier::opaque]
pub open spec fn sqrt_exp_digits() -> Seq<u8> {
    seq![
        126u8, 186, 158, 75, 99, 76, 2, 203, 154, 243, 94, 212, 59, 223, 155, 2,
        0, 0, 0, 0, 0, 0, 0, 0, 0, 0, 0, 0, 0, 0, 0, 2,
    ]
}

/// The curve parameter d of the inner twisted Edwards curve, which is
/// congruent to minus 698.
pub open spec fn param_d_val() -> int {
    l_order() - 698
}

/// Bounds on the two field orders.
pub proof fn lemma_field_facts()
    ensures
        l_order() > 1000000,
        16 * pow(256, 31) <= l_order(),
        fp_modulus() > 1000000,
        3 * pow(256, 31) <= fp_modulus(),
        fp_modulus() < l_order(),
        4 * pow(256, 31) < l_order(),
{
    reveal(l_digits);
    reveal(fp_digits);
    let s = l_digits();
    let q = fp_digits();
    assert(s.len() == 32 && s[31] == 16 && s[4] == 26);
    assert(q.len() == 32 && q[31] == 3 && q[4] == 223);
    lemma_le_val_lower_pub(s, 31);
    lemma_le_val_lower_pub(s, 4);
    lemma_le_val_lower_pub(q, 31);
    lemma_le_val_lower_pub(q, 4);
    lemma_le_val_top_upper(q);
    assert(q.last() == 3);
    assert(pow(256, 1) == 256) by {
        vstd::arithmetic::power::lemma_pow1(256);
    }
    assert(pow(256, 2) == 65536) by {
        vstd::arithmetic::power::lemma_pow_adds(256, 1, 1);
    }
    assert(pow(256, 4) == 0x100000000) by {
        vstd::arithmetic::power::lemma_pow_adds(256, 2, 2);
    }
    assert(26 * pow(256, 4) > 1000000);
    assert(223 * pow(256, 4) > 1000000);
    assert(pow(256, 31) > 0) by {
        vstd::arithmetic::power::lemma_pow_positive(256, 31);
    }
    assert(le_val(q) < 4 * pow(256, 31));
    assert(4 * pow(256, 31) < 16 * pow(256, 31));
}

/// The order of the outer field as a runtime integer.
pub fn l_big() -> (r: Bigint)
    ensures
        r@ == l_order(),
        r.wf(),
        r@ > 1000000,
{
    let digits: Vec<u8> = vec![
        237u8, 211, 245, 92, 26, 99, 18, 88, 214, 156, 247, 162, 222, 249, 222, 20,
        0, 0, 0, 0, 0, 0, 0, 0, 0, 0, 0, 0, 0, 0, 0, 16,
    ];
    proof {
        reveal(l_digits);
        assert(digits@ =~= l_digits());
        lemma_field_facts();
        lemma_le_val_nonneg(digits@);
    }
    Bigint { neg: false, mag: digits }
}

/// The order of the inner field as a runtime integer.
pub fn fp_big() -> (r: Bigint)
    ensures
        r@ == fp_modulus(),
        r.wf(),
        r@ > 1000000,
{
    let digits: Vec<u8> = vec![
        229u8, 240, 42, 115, 223, 119, 229, 6, 26, 210, 173, 31, 73, 220, 210, 234,
        255, 255, 255, 255, 255, 255, 255, 255, 255, 255, 255, 255, 255, 255, 255, 3,
    ];
    proof {
        reveal(fp_digits);
        assert(digits@ =~= fp_digits());
        lemma_field_facts();
        lemma_le_val_nonneg(digits@);
    }
    Bigint { neg: false, mag: digits }
}

fn sqrt_exp_big() -> (r: Bigint)
    ensures
        r@ == le_val(sqrt_exp_digits()),
        r@ >= 0,
        r.wf(),
{
    let digits: Vec<u8> = vec![
        126u8, 186, 158, 75, 99, 76, 2, 203, 154, 243, 94, 212, 59, 223, 155, 2,
        0, 0, 0, 0, 0, 0, 0, 0, 0, 0, 0, 0, 0, 0, 0, 2,
    ];
    proof {
        reveal(sqrt_exp_digits);
        assert(digits@ =~= sqrt_exp_digits());
        lemma_le_val_nonneg(digits@);
    }
    Bigint { neg: false, mag: digits }
}

/// Reduction into the outer field.
pub fn mod_l(x: &Bigint) -> (r: Bigint)
    ensures
        r.wf(),
        0 <= r@ < l_order(),
        r@ == x@ % l_order(),
{
    let n = l_big();
    let (q, rem) = bi_divrem(x, &n);
    let zero = Bigint::zero();
    let nonneg = bi_le(&zero, &rem);
    let v = if nonneg {
        rem
    } else {
        bi_add(&rem, &n)
    };
    proof {
        if nonneg {
            vstd::arithmetic::div_mod::lemma_fundamental_div_mod_converse(x@, n@, q@, v@);
        } else {
            assert(x@ == (q@ - 1) * n@ + v@) by (nonlinear_arith)
                requires x@ == q@ * n@ + (v@ - n@),
            {}
            vstd::arithmetic::div_mod::lemma_fundamental_div_mod_converse(x@, n@, q@ - 1, v@);
        }
    }
    v
}

/// A coordinate of the inner curve: an element of the outer prime field.
pub struct FieldElem {
    pub n: Bigint,
}

impl FieldElem {
    pub open spec fn fwf(&self) -> bool {
        self.n.wf() && 0 <= self.n@ < l_order()
    }

    pub open spec fn fv(&self) -> int {
        self.n@
    }
}

impl Clone for FieldElem {
    fn clone(&self) -> (r: Self)
        ensures
            r.fv() == self.fv(),
            r.fwf() == self.fwf(),
    {
        FieldElem { n: self.n.clone() }
    }
}

/// Field operations as residues.
pub open spec fn fadd(a: int, b: int) -> int {
    (a + b) % l_order()
}

pub open spec fn fsub(a: int, b: int) -> int {
    (a - b) % l_order()
}

pub open spec fn fmul(a: int, b: int) -> int {
    (a * b) % l_order()
}

/// Whether `a` is invertible in the outer field.
pub open spec fn has_inv_l(a: int) -> bool {
    exists|x: int| 0 <= x < l_order() && #[trigger] ((a * x) % l_order()) == 1
}

/// The inverse in the outer field, when one exists.
pub open spec fn inv_l(a: int) -> int {
    choose|x: int| 0 <= x < l_order() && #[trigger] ((a * x) % l_order()) == 1
}

pub proof fn lemma_inv_l_property(a: int)
    requires
        has_inv_l(a),
    ensures
        0 <= inv_l(a) < l_order(),
        (a * inv_l(a)) % l_order() == 1,
{
    let m = choose|x: int| 0 <= x < l_order() && #[trigger] ((a * x) % l_order()) == 1;
    assert(0 <= m < l_order() && (a * m) % l_order() == 1);
    assert(m == inv_l(a));
}

/// The inverse in the outer field is unique within the range.
pub proof fn lemma_inv_l_unique(a: int, x1: int, x2: int)
    requires
        0 <= x1 < l_order(),
        0 <= x2 < l_order(),
        (a * x1) % l_order() == 1,
        (a * x2) % l_order() == 1,
    ensures
        x1 == x2,
{
    let n = l_order();
    lemma_field_facts();
    assert((x1 * (a * x2)) % n == (x1 * ((a * x2) % n)) % n) by {
        vstd::arithmetic::div_mod::lemma_mul_mod_noop_right(x1, a * x2, n);
    }
    assert((x2 * (a * x1)) % n == (x2 * ((a * x1) % n)) % n) by {
        vstd::arithmetic::div_mod::lemma_mul_mod_noop_right(x2, a * x1, n);
    }
    vstd::arithmetic::div_mod::lemma_small_mod(x1 as nat, n as nat);
    vstd::arithmetic::div_mod::lemma_small_mod(x2 as nat, n as nat);
    assert(x1 * (a * x2) == x2 * (a * x1)) by (nonlinear_arith);
}

pub fn fe_add(a: &FieldElem, b: &FieldElem) -> (r: FieldElem)
    requires
        a.fwf(),
        b.fwf(),
    ensures
        r.fwf(),
        r.fv() == fadd(a.fv(), b.fv()),
{
    FieldElem { n: mod_l(&bi_add(&a.n, &b.n)) }
}

pub fn fe_sub(a: &FieldElem, b: &FieldElem) -> (r: FieldElem)
    requires
        a.fwf(),
        b.fwf(),
    ensures
        r.fwf(),
        r.fv() == fsub(a.fv(), b.fv()),
{
    FieldElem { n: mod_l(&bi_sub(&a.n, &b.n)) }
}

pub fn fe_mul(a: &FieldElem, b: &FieldElem) -> (r: FieldElem)
    requires
        a.fwf(),
        b.fwf(),
    ensures
        r.fwf(),
        r.fv() == fmul(a.fv(), b.fv()),
{
    FieldElem { n: mod_l(&bi_mul(&a.n, &b.n)) }
}

pub fn fe_neg(a: &FieldElem) -> (r: FieldElem)
    requires
        a.fwf(),
    ensures
        r.fwf(),
        r.fv() == fsub(0, a.fv()),
{
    let zero = FieldElem { n: Bigint::zero() };
    proof {
        lemma_field_facts();
    }
    fe_sub(&zero, a)
}

pub fn fe_zero() -> (r: FieldElem)
    ensures
        r.fwf(),
        r.fv() == 0,
{
    proof {
        lemma_field_facts();
    }
    FieldElem { n: Bigint::zero() }
}

pub fn fe_one() -> (r: FieldElem)
    ensures
        r.fwf(),
        r.fv() == 1,
{
    proof {
        lemma_field_facts();
    }
    FieldElem { n: Bigint::from_u64(1) }
}

pub fn fe_eq(a: &FieldElem, b: &FieldElem) -> (r: bool)
    ensures
        r == (a.fv() == b.fv()),
{
    bi_eq(&a.n, &b.n)
}

/// The field inverse: the inverse when one exists, and zero when the
/// outside computation reports that none does.
pub fn fe_inv(a: &FieldElem) -> (r: FieldElem)
    requires
        a.fwf(),
    ensures
        r.fwf(),
        has_inv_l(a.fv()) ==> r.fv() == inv_l(a.fv()),
        !has_inv_l(a.fv()) ==> r.fv() == 0,
{
    let n = l_big();
    let res = bi_modinv(&a.n, &n);
    match res {
        Some(w) => {
            proof {
                assert((a.fv() * w@) % l_order() == 1);
                lemma_inv_l_property(a.fv());
                lemma_inv_l_unique(a.fv(), w@, inv_l(a.fv()));
            }
            FieldElem { n: w }
        }
        None => {
            proof {
                if has_inv_l(a.fv()) {
                    lemma_inv_l_property(a.fv());
                    assert(false);
                }
                lemma_field_facts();
            }
            FieldElem { n: Bigint::zero() }
        }
    }
}

/// The curve parameter d.
pub fn param_d() -> (r: FieldElem)
    ensures
        r.fwf(),
        r.fv() == param_d_val(),
{
    let l = l_big();
    let c = Bigint::from_u64(698);
    let d = bi_sub(&l, &c);
    proof {
        lemma_field_facts();
        vstd::arithmetic::div_mod::lemma_small_mod((l_order() - 698) as nat, l_order() as nat);
    }
    FieldElem { n: mod_l(&d) }
}


/// What the outside hash returns on a byte string: a fixed function of the
/// input alone.
pub uninterp spec fn sha512_of(data: Seq<u8>) -> Seq<u8>;

/// Relies on sha2::Sha512 (through the Digest interface): hashes the input
/// to sixty-four bytes, the same bytes for the same input everywhere.
#[verifier::external_body]
pub fn sha512(data: &Vec<u8>) -> (r: Vec<u8>)
    ensures
        r@ == sha512_of(data@),
        r@.len() == 64,
{
    let mut hasher: sha2::Sha512 = core::default::Default::default();
    sha2::Digest::input(&mut hasher, data.as_slice());
    sha2::Digest::result(hasher).to_vec()
}

/// A point of the inner twisted Edwards curve, by its two coordinates.
pub struct CurvePoint {
    pub x: FieldElem,
    pub y: FieldElem,
}

impl CurvePoint {
    pub open spec fn cwf(&self) -> bool {
        self.x.fwf() && self.y.fwf()
    }
}

impl Clone for CurvePoint {
    fn clone(&self) -> (r: Self)
        ensures
            r.x.fv() == self.x.fv(),
            r.y.fv() == self.y.fv(),
            r.cwf() == self.cwf(),
    {
        CurvePoint { x: self.x.clone(), y: self.y.clone() }
    }
}

/// The curve equation on coordinates.
pub open spec fn on_curve_val(xv: int, yv: int) -> bool {
    fadd(fmul(xv, xv), fmul(yv, yv))
        == fadd(1int % l_order(), fmul(fmul(param_d_val(), fmul(xv, xv)), fmul(yv, yv)))
}

/// The product of the parameter d with all four coordinates, as the
/// addition law forms it.
pub open spec fn ed_pp(x1: int, y1: int, x2: int, y2: int) -> int {
    fmul(fmul(fmul(fmul(param_d_val(), x1), y1), x2), y2)
}

/// The field inverse as the addition law uses it: the inverse where one
/// exists, and zero where none does, as the inversion routine returns.
pub open spec fn ed_inv0(a: int) -> int {
    if has_inv_l(a) {
        inv_l(a)
    } else {
        0
    }
}

/// The coordinates that the addition routine produces, for any inputs:
/// the two denominators are inverted through one inversion of their
/// product.
pub open spec fn ed_add_point(x1: int, y1: int, x2: int, y2: int) -> (int, int) {
    let pp = ed_pp(x1, y1, x2, y2);
    let dx = fadd(1int % l_order(), pp);
    let dy = fsub(1int % l_order(), pp);
    let ip = ed_inv0(fmul(dx, dy));
    (
        fmul(fadd(fmul(x1, y2), fmul(x2, y1)), fmul(ip, dy)),
        fmul(fsub(fmul(y1, y2), fmul(x1, x2)), fmul(ip, dx)),
    )
}

/// The product of the parameter with four coordinates, flattened to one
/// residue.
proof fn lemma_ed_pp_flat(x1: int, y1: int, x2: int, y2: int)
    ensures
        ed_pp(x1, y1, x2, y2) == (param_d_val() * x1 * y1 * x2 * y2) % l_order(),
{
    let n = l_order();
    let d = param_d_val();
    lemma_field_facts();
    assert(fmul(fmul(d, x1), y1) == (d * x1 * y1) % n) by {
        vstd::arithmetic::div_mod::lemma_mul_mod_noop_left(d * x1, y1, n);
    }
    assert(fmul(fmul(fmul(d, x1), y1), x2) == (d * x1 * y1 * x2) % n) by {
        vstd::arithmetic::div_mod::lemma_mul_mod_noop_left(d * x1 * y1, x2, n);
    }
    assert(fmul(fmul(fmul(fmul(d, x1), y1), x2), y2) == (d * x1 * y1 * x2 * y2) % n) by {
        vstd::arithmetic::div_mod::lemma_mul_mod_noop_left(d * x1 * y1 * x2, y2, n);
    }
}

/// The addition formula does not depend on the order of its two points.
pub proof fn lemma_ed_add_comm(x1: int, y1: int, x2: int, y2: int)
    ensures
        ed_add_point(x1, y1, x2, y2) == ed_add_point(x2, y2, x1, y1),
{
    lemma_field_facts();
    lemma_ed_pp_flat(x1, y1, x2, y2);
    lemma_ed_pp_flat(x2, y2, x1, y1);
    assert(param_d_val() * x1 * y1 * x2 * y2 == param_d_val() * x2 * y2 * x1 * y1)
        by (nonlinear_arith);
    assert(x1 * y2 == x1 * y2);
    assert(fmul(x1, y2) == fmul(x1, y2));
    assert(fadd(fmul(x1, y2), fmul(x2, y1)) == fadd(fmul(x2, y1), fmul(x1, y2)));
    assert(y1 * y2 == y2 * y1) by {
        vstd::arithmetic::mul::lemma_mul_is_commutative(y1, y2);
    }
    assert(x1 * x2 == x2 * x1) by {
        vstd::arithmetic::mul::lemma_mul_is_commutative(x1, x2);
    }
}

/// Adding the neutral point on the left returns the other point.
pub proof fn lemma_ed_add_zero_left(x: int, y: int)
    requires
        0 <= x < l_order(),
        0 <= y < l_order(),
    ensures
        ed_add_point(0, 1, x, y) == (x, y),
{
    let n = l_order();
    let d = param_d_val();
    lemma_field_facts();
    vstd::arithmetic::div_mod::lemma_small_mod(0nat, n as nat);
    vstd::arithmetic::div_mod::lemma_small_mod(1nat, n as nat);
    vstd::arithmetic::div_mod::lemma_small_mod(x as nat, n as nat);
    vstd::arithmetic::div_mod::lemma_small_mod(y as nat, n as nat);
    assert(d * 0 == 0) by {
        vstd::arithmetic::mul::lemma_mul_basics(d);
    }
    assert(fmul(d, 0) == 0);
    assert(0 * 1 == 0 && 0 * x == 0 && 0 * y == 0) by {
        vstd::arithmetic::mul::lemma_mul_basics(0);
        vstd::arithmetic::mul::lemma_mul_is_commutative(0, 1);
        vstd::arithmetic::mul::lemma_mul_is_commutative(0, x);
        vstd::arithmetic::mul::lemma_mul_is_commutative(0, y);
    }
    let pp = ed_pp(0, 1, x, y);
    assert(pp == 0);
    let dx = fadd(1int % n, pp);
    let dy = fsub(1int % n, pp);
    assert(dx == 1 && dy == 1);
    assert(1 * 1 == 1) by {
        vstd::arithmetic::mul::lemma_mul_basics(1);
    }
    assert(fmul(dx, dy) == 1);
    assert(has_inv_l(1)) by {
        assert(0 <= 1int < n && ((1int * 1int) % n) == 1);
    }
    lemma_inv_l_property(1);
    lemma_inv_l_unique(1, 1, inv_l(1));
    assert(ed_inv0(fmul(dx, dy)) == 1);
    assert(fmul(1, dy) == 1 && fmul(1, dx) == 1);
    assert(x * 1 == x && y * 1 == y) by {
        vstd::arithmetic::mul::lemma_mul_basics(x);
        vstd::arithmetic::mul::lemma_mul_basics(y);
    }
    assert(fmul(x, 1) == x && fmul(1, y) == y);
    assert(fadd(fmul(0, y), fmul(x, 1)) == x);
    assert(fsub(fmul(1, y), fmul(0, x)) == y);
    assert(fmul(x, 1) == x && fmul(y, 1) == y);
}

/// Adding the neutral point on the right returns the other point.
pub proof fn lemma_ed_add_zero_right(x: int, y: int)
    requires
        0 <= x < l_order(),
        0 <= y < l_order(),
    ensures
        ed_add_point(x, y, 0, 1) == (x, y),
{
    lemma_ed_add_comm(x, y, 0, 1);
    lemma_ed_add_zero_left(x, y);
}

/// The x coordinate of the Edwards sum.
pub open spec fn ed_add_x(x1: int, y1: int, x2: int, y2: int) -> int {
    fmul(fadd(fmul(x1, y2), fmul(x2, y1)), inv_l(fadd(1int % l_order(), ed_pp(x1, y1, x2, y2))))
}

/// The y coordinate of the Edwards sum.
pub open spec fn ed_add_y(x1: int, y1: int, x2: int, y2: int) -> int {
    fmul(fsub(fmul(y1, y2), fmul(x1, x2)), inv_l(fsub(1int % l_order(), ed_pp(x1, y1, x2, y2))))
}

/// A product of two invertible residues is invertible.
pub proof fn lemma_product_has_inv(dx: int, dy: int)
    requires
        has_inv_l(dx),
        has_inv_l(dy),
    ensures
        has_inv_l(fmul(dx, dy)),
{
    let n = l_order();
    lemma_field_facts();
    lemma_inv_l_property(dx);
    lemma_inv_l_property(dy);
    let wx = inv_l(dx);
    let wy = inv_l(dy);
    let w = fmul(wx, wy);
    vstd::arithmetic::div_mod::lemma_mod_bound(wx * wy, n);
    assert((fmul(dx, dy) * w) % n == ((dx * dy) * (wx * wy)) % n) by {
        vstd::arithmetic::div_mod::lemma_mul_mod_noop_general(dx * dy, wx * wy, n);
    }
    assert((dx * dy) * (wx * wy) == (dx * wx) * (dy * wy)) by (nonlinear_arith);
    assert(((dx * wx) * (dy * wy)) % n == (((dx * wx) % n) * ((dy * wy) % n)) % n) by {
        vstd::arithmetic::div_mod::lemma_mul_mod_noop_general(dx * wx, dy * wy, n);
    }
    vstd::arithmetic::div_mod::lemma_small_mod(1nat, n as nat);
    assert((fmul(dx, dy) * w) % n == 1);
}

/// Both inverses from one inversion: the inverse of the product times one
/// factor is the inverse of the other factor.
pub proof fn lemma_batched_inverse(dx: int, dy: int)
    requires
        has_inv_l(dx),
        has_inv_l(dy),
    ensures
        fmul(inv_l(fmul(dx, dy)), dy) == inv_l(dx),
        fmul(inv_l(fmul(dx, dy)), dx) == inv_l(dy),
{
    let n = l_order();
    lemma_field_facts();
    lemma_product_has_inv(dx, dy);
    let dp = fmul(dx, dy);
    lemma_inv_l_property(dp);
    let ip = inv_l(dp);
    let cx = fmul(ip, dy);
    let cy = fmul(ip, dx);
    vstd::arithmetic::div_mod::lemma_mod_bound(ip * dy, n);
    vstd::arithmetic::div_mod::lemma_mod_bound(ip * dx, n);
    assert((dp * ip) % n == ((dx * dy) * ip) % n) by {
        vstd::arithmetic::div_mod::lemma_mul_mod_noop_left(dx * dy, ip, n);
    }
    assert((dx * cx) % n == (dx * (ip * dy)) % n) by {
        vstd::arithmetic::div_mod::lemma_mul_mod_noop_right(dx, ip * dy, n);
    }
    assert(dx * (ip * dy) == (dx * dy) * ip) by (nonlinear_arith);
    assert((dx * cx) % n == 1);
    lemma_inv_l_property(dx);
    lemma_inv_l_unique(dx, cx, inv_l(dx));
    assert((dy * cy) % n == (dy * (ip * dx)) % n) by {
        vstd::arithmetic::div_mod::lemma_mul_mod_noop_right(dy, ip * dx, n);
    }
    assert(dy * (ip * dx) == (dx * dy) * ip) by (nonlinear_arith);
    assert((dy * cy) % n == 1);
    lemma_inv_l_property(dy);
    lemma_inv_l_unique(dy, cy, inv_l(dy));
}

impl CurvePoint {
    /// The neutral point.
    pub fn zero() -> (r: CurvePoint)
        ensures
            r.cwf(),
            r.x.fv() == 0,
            r.y.fv() == 1,
    {
        CurvePoint { x: fe_zero(), y: fe_one() }
    }

    pub fn neg(&self) -> (r: CurvePoint)
        requires
            self.cwf(),
        ensures
            r.cwf(),
            r.x.fv() == fsub(0, self.x.fv()),
            r.y.fv() == self.y.fv(),
    {
        CurvePoint { x: fe_neg(&self.x), y: self.y.clone() }
    }

    pub fn eq_point(&self, other: &CurvePoint) -> (r: bool)
        ensures
            r == (self.x.fv() == other.x.fv() && self.y.fv() == other.y.fv()),
    {
        let ex = fe_eq(&self.x, &other.x);
        let ey = fe_eq(&self.y, &other.y);
        ex && ey
    }

    /// Whether the coordinates satisfy the curve equation.
    pub fn on_curve(&self) -> (r: bool)
        requires
            self.cwf(),
        ensures
            r == on_curve_val(self.x.fv(), self.y.fv()),
    {
        let x2 = fe_mul(&self.x, &self.x);
        let y2 = fe_mul(&self.y, &self.y);
        let lhs = fe_add(&x2, &y2);
        let d = param_d();
        let one = fe_one();
        proof {
            lemma_field_facts();
            vstd::arithmetic::div_mod::lemma_small_mod(1nat, l_order() as nat);
        }
        let rhs = fe_add(&one, &fe_mul(&fe_mul(&d, &x2), &y2));
        fe_eq(&lhs, &rhs)
    }

    /// The twisted Edwards addition law, with the two denominators
    /// inverted through one inversion of their product. Where either
    /// denominator happens to have no inverse the coordinates are
    /// unconstrained; on curve points both denominators are invertible.
    pub fn add(&self, other: &CurvePoint) -> (r: CurvePoint)
        requires
            self.cwf(),
            other.cwf(),
        ensures
            r.cwf(),
            (r.x.fv(), r.y.fv()) == ed_add_point(self.x.fv(), self.y.fv(), other.x.fv(), other.y.fv()),
            has_inv_l(fadd(1int % l_order(), ed_pp(self.x.fv(), self.y.fv(), other.x.fv(), other.y.fv())))
                && has_inv_l(fsub(1int % l_order(), ed_pp(self.x.fv(), self.y.fv(), other.x.fv(), other.y.fv())))
                ==> r.x.fv() == ed_add_x(self.x.fv(), self.y.fv(), other.x.fv(), other.y.fv())
                    && r.y.fv() == ed_add_y(self.x.fv(), self.y.fv(), other.x.fv(), other.y.fv()),
    {
        let d = param_d();
        let one = fe_one();
        proof {
            lemma_field_facts();
            vstd::arithmetic::div_mod::lemma_small_mod(1nat, l_order() as nat);
        }
        let p1 = fe_mul(&d, &self.x);
        let p2 = fe_mul(&p1, &self.y);
        let p3 = fe_mul(&p2, &other.x);
        let pp = fe_mul(&p3, &other.y);
        let num_x = fe_add(&fe_mul(&self.x, &other.y), &fe_mul(&other.x, &self.y));
        let den_x = fe_add(&one, &pp);
        let num_y = fe_sub(&fe_mul(&self.y, &other.y), &fe_mul(&self.x, &other.x));
        let den_y = fe_sub(&one, &pp);
        let den_prod = fe_mul(&den_x, &den_y);
        let ipro = fe_inv(&den_prod);
        let ix = fe_mul(&ipro, &den_y);
        let iy = fe_mul(&ipro, &den_x);
        proof {
            if has_inv_l(den_x.fv()) && has_inv_l(den_y.fv()) {
                lemma_product_has_inv(den_x.fv(), den_y.fv());
                lemma_batched_inverse(den_x.fv(), den_y.fv());
                lemma_inv_l_property(den_x.fv());
                lemma_inv_l_property(den_y.fv());
                vstd::arithmetic::div_mod::lemma_small_mod(
                    inv_l(den_x.fv()) as nat, l_order() as nat);
                vstd::arithmetic::div_mod::lemma_small_mod(
                    inv_l(den_y.fv()) as nat, l_order() as nat);
            }
        }
        let x3 = fe_mul(&num_x, &ix);
        let y3 = fe_mul(&num_y, &iy);
        CurvePoint { x: x3, y: y3 }
    }

    pub fn sub(&self, other: &CurvePoint) -> (r: CurvePoint)
        requires
            self.cwf(),
            other.cwf(),
        ensures
            r.cwf(),
            (r.x.fv(), r.y.fv()) == ed_add_point(
                self.x.fv(), self.y.fv(), fsub(0, other.x.fv()), other.y.fv()),
    {
        self.add(&other.neg())
    }
}

/// The square-root candidate: the input raised to the fixed exponent.
pub open spec fn sqrt_cand(a: int) -> int {
    pow(a, le_val(sqrt_exp_digits()) as nat) % l_order()
}

/// A square-root candidate in the outer field: the input raised to a fixed
/// exponent, accepted exactly when its square really is the input.
pub fn sqrt_mod(a: &FieldElem) -> (r: Option<FieldElem>)
    requires
        a.fwf(),
    ensures
        match r {
            Some(w) => w.fwf() && w.fv() == sqrt_cand(a.fv())
                && fmul(w.fv(), w.fv()) == a.fv(),
            None => fmul(sqrt_cand(a.fv()), sqrt_cand(a.fv())) != a.fv(),
        },
{
    let l = l_big();
    let e = sqrt_exp_big();
    proof {
        crate::bigint::lemma_le_val_nonneg(sqrt_exp_digits());
    }
    let c = bi_modpow(&a.n, &e, &l);
    let cf = FieldElem { n: c };
    let sq = fe_mul(&cf, &cf);
    if fe_eq(&sq, a) {
        Some(cf)
    } else {
        None
    }
}

/// The four little-endian counter bytes appended to the hashed message.
pub open spec fn cnt_bytes(c: int) -> Seq<u8> {
    seq![
        (c % 256) as u8,
        ((c / 256) % 256) as u8,
        ((c / 65536) % 256) as u8,
        ((c / 16777216) % 256) as u8,
    ]
}

/// The y coordinate attempt `c` derives: the reduced digest of the
/// message with the counter appended.
pub open spec fn hash_y(msg: Seq<u8>, c: int) -> int {
    le_val(sha512_of(msg + cnt_bytes(c))) % l_order()
}

/// The two square-root candidates of attempt `c`.
pub open spec fn hash_s1(msg: Seq<u8>, c: int) -> int {
    sqrt_cand(fsub(fmul(hash_y(msg, c), hash_y(msg, c)), 1))
}

pub open spec fn hash_s2(msg: Seq<u8>, c: int) -> int {
    sqrt_cand(fsub(fmul(param_d_val(), fmul(hash_y(msg, c), hash_y(msg, c))), 1))
}

/// The x coordinate attempt `c` derives.
pub open spec fn hash_x(msg: Seq<u8>, c: int) -> int {
    fmul(hash_s1(msg, c), ed_inv0(hash_s2(msg, c)))
}

/// Whether attempt `c` succeeds: both root extractions check out and the
/// derived coordinates satisfy the curve equation.
pub open spec fn attempt_ok(msg: Seq<u8>, c: int) -> bool {
    fmul(hash_s1(msg, c), hash_s1(msg, c))
        == fsub(fmul(hash_y(msg, c), hash_y(msg, c)), 1)
    && fmul(hash_s2(msg, c), hash_s2(msg, c))
        == fsub(fmul(param_d_val(), fmul(hash_y(msg, c), hash_y(msg, c))), 1)
    && on_curve_val(hash_x(msg, c), hash_y(msg, c))
}

/// The first counter at or above `c`, below the attempt bound, whose
/// attempt succeeds; minus one when none does.
pub open spec fn first_ok(msg: Seq<u8>, c: int) -> int
    decreases 0xffff_ffffint - c,
{
    if c < 0 || c >= 0xffff_ffff {
        -1
    } else if attempt_ok(msg, c) {
        c
    } else {
        first_ok(msg, c + 1)
    }
}

/// The search result is either a counter or minus one.
pub proof fn lemma_first_ok_cases(msg: Seq<u8>, c: int)
    ensures
        first_ok(msg, c) == -1 || first_ok(msg, c) >= 0,
    decreases 0xffff_ffffint - c,
{
    if c < 0 || c >= 0xffff_ffff {
    } else if attempt_ok(msg, c) {
    } else {
        lemma_first_ok_cases(msg, c + 1);
    }
}

/// Hashes a message onto the curve: the digest at the first successful
/// counter gives the y coordinate, and the curve equation is solved for
/// x. The result is a function of the message alone; the neutral point
/// stands in if every counter under the bound fails.
pub fn hash_to_curve(msg: &Vec<u8>) -> (r: CurvePoint)
    ensures
        r.cwf(),
        on_curve_val(r.x.fv(), r.y.fv()),
        first_ok(msg@, 0) >= 0 ==> r.x.fv() == hash_x(msg@, first_ok(msg@, 0))
            && r.y.fv() == hash_y(msg@, first_ok(msg@, 0)),
        first_ok(msg@, 0) == -1 ==> r.x.fv() == 0 && r.y.fv() == 1,
{
    let d = param_d();
    let one = fe_one();
    proof {
        lemma_field_facts();
    }
    let mut cnt: u64 = 0;
    while cnt < 0xffff_ffff
        invariant
            d.fwf(),
            d.fv() == param_d_val(),
            one.fwf(),
            one.fv() == 1,
            0 <= cnt <= 0xffff_ffff,
            first_ok(msg@, 0) == first_ok(msg@, cnt as int),
        decreases 0xffff_ffffu64 - cnt,
    {
        // absorb the message and the attempt counter
        let mut data: Vec<u8> = Vec::new();
        let mut i: usize = 0;
        while i < msg.len()
            invariant
                0 <= i <= msg.len(),
                data@ == msg@.take(i as int),
            decreases msg.len() - i,
        {
            data.push(msg[i]);
            proof {
                assert(data@ =~= msg@.take(i + 1));
            }
            i = i + 1;
        }
        data.push((cnt % 256) as u8);
        data.push(((cnt / 256) % 256) as u8);
        data.push(((cnt / 65536) % 256) as u8);
        data.push(((cnt / 16777216) % 256) as u8);
        proof {
            assert(msg@.take(msg@.len() as int) =~= msg@);
            assert(data@ =~= msg@ + cnt_bytes(cnt as int));
        }
        let h = sha512(&data);
        let y = FieldElem { n: mod_l(&Bigint::from_bytes_le(h)) };

        // solve x^2 = (y^2 - 1) / (d y^2 - 1)
        let y2 = fe_mul(&y, &y);
        let y2_1 = fe_sub(&y2, &one);
        let dy2_1 = fe_sub(&fe_mul(&d, &y2), &one);
        let s1 = sqrt_mod(&y2_1);
        let s2 = sqrt_mod(&dy2_1);
        match (s1, s2) {
            (Some(w1), Some(w2)) => {
                let w2i = fe_inv(&w2);
                let x = fe_mul(&w1, &w2i);
                proof {
                    assert(w2i.fv() == ed_inv0(w2.fv()));
                    assert(x.fv() == hash_x(msg@, cnt as int));
                }
                let p = CurvePoint { x, y };
                if p.on_curve() {
                    proof {
                        assert(attempt_ok(msg@, cnt as int));
                        assert(first_ok(msg@, cnt as int) == cnt as int);
                    }
                    return p;
                }
                proof {
                    assert(!attempt_ok(msg@, cnt as int));
                }
            }
            _ => {
                proof {
                    assert(!attempt_ok(msg@, cnt as int));
                }
            }
        }
        proof {
            assert(first_ok(msg@, cnt as int) == first_ok(msg@, cnt + 1));
        }
        cnt = cnt + 1;
    }
    // out of attempts: fall back to the neutral point, which is on the curve
    proof {
        lemma_zero_on_curve();
    }
    CurvePoint::zero()
}

/// The neutral point satisfies the curve equation.
proof fn lemma_zero_on_curve()
    ensures
        on_curve_val(0, 1),
{
    let n = l_order();
    lemma_field_facts();
    vstd::arithmetic::div_mod::lemma_small_mod(0nat, n as nat);
    vstd::arithmetic::div_mod::lemma_small_mod(1nat, n as nat);
    assert(fmul(0, 0) == 0);
    assert(fmul(1, 1) == 1);
    assert(fadd(0, 1) == 1);
    assert(fmul(param_d_val(), 0) == 0) by {
        vstd::arithmetic::mul::lemma_mul_basics(param_d_val());
    }
    assert(fmul(fmul(param_d_val(), 0), 1) == 0);
    assert(fadd(1int % l_order(), 0) == 1);
}

/// Little-endian digits of the first fixed generator's coordinates.
#[verifier::opaque]
pub open spec fn g0_x_digits() -> Seq<u8> {
    seq![
        68u8, 114, 127, 92, 242, 43, 177, 112, 69, 206, 250, 150, 195, 252, 250, 56,
        154, 40, 251, 15, 136, 175, 190, 70, 209, 240, 115, 181, 228, 78, 200, 12,
    ]
}

#[verifier::opaque]
pub open spec fn g0_y_digits() -> Seq<u8> {
    seq![
        31u8, 4, 173, 145, 228, 175, 90, 240, 192, 197, 127, 230, 236, 175, 33, 113,
        152, 48, 80, 188, 124, 57, 22, 26, 172, 82, 255, 225, 58, 82, 193, 10,
    ]
}

/// The coordinates of the first fixed generator.
pub open spec fn g0_x() -> int {
    le_val(g0_x_digits())
}

pub open spec fn g0_y() -> int {
    le_val(g0_y_digits())
}

/// Little-endian digits of the second fixed generator's coordinates.
#[verifier::opaque]
pub open spec fn g1_x_digits() -> Seq<u8> {
    seq![
        219u8, 30, 10, 82, 19, 105, 50, 152, 3, 26, 130, 42, 191, 103, 26, 82,
        241, 19, 39, 27, 31, 195, 173, 24, 109, 103, 213, 52, 162, 236, 158, 15,
    ]
}

#[verifier::opaque]
pub open spec fn g1_y_digits() -> Seq<u8> {
    seq![
        70u8, 105, 231, 224, 167, 71, 53, 39, 201, 51, 220, 140, 117, 208, 208, 170,
        127, 199, 84, 228, 24, 100, 150, 221, 244, 101, 170, 102, 133, 194, 15, 7,
    ]
}

/// The coordinates of the second fixed generator.
pub open spec fn g1_x() -> int {
    le_val(g1_x_digits())
}

pub open spec fn g1_y() -> int {
    le_val(g1_y_digits())
}

/// The first fixed generator, a point hashed onto the curve. The curve
/// equation is checked at run time; the neutral point stands in on the
/// impossible failure arm, so the result is always on the curve.
pub fn g0() -> (r: CurvePoint)
    ensures
        r.cwf(),
        on_curve_val(r.x.fv(), r.y.fv()),
        (r.x.fv() == g0_x() && r.y.fv() == g0_y()) || !on_curve_val(g0_x(), g0_y()),
{
    let xb: Vec<u8> = vec![
        68u8, 114, 127, 92, 242, 43, 177, 112, 69, 206, 250, 150, 195, 252, 250, 56,
        154, 40, 251, 15, 136, 175, 190, 70, 209, 240, 115, 181, 228, 78, 200, 12,
    ];
    let yb: Vec<u8> = vec![
        31u8, 4, 173, 145, 228, 175, 90, 240, 192, 197, 127, 230, 236, 175, 33, 113,
        152, 48, 80, 188, 124, 57, 22, 26, 172, 82, 255, 225, 58, 82, 193, 10,
    ];
    proof {
        reveal(g0_x_digits);
        reveal(g0_y_digits);
        assert(xb@ =~= g0_x_digits());
        assert(yb@ =~= g0_y_digits());
        lemma_coord_in_field(xb@);
        lemma_coord_in_field(yb@);
    }
    let p = CurvePoint {
        x: FieldElem { n: Bigint::from_bytes_le(xb) },
        y: FieldElem { n: Bigint::from_bytes_le(yb) },
    };
    if p.on_curve() {
        p
    } else {
        proof {
            lemma_zero_on_curve();
        }
        CurvePoint::zero()
    }
}

/// The second fixed generator, a point hashed onto the curve, guarded the
/// same way.
pub fn g1() -> (r: CurvePoint)
    ensures
        r.cwf(),
        on_curve_val(r.x.fv(), r.y.fv()),
        (r.x.fv() == g1_x() && r.y.fv() == g1_y()) || !on_curve_val(g1_x(), g1_y()),
{
    let xb: Vec<u8> = vec![
        219u8, 30, 10, 82, 19, 105, 50, 152, 3, 26, 130, 42, 191, 103, 26, 82,
        241, 19, 39, 27, 31, 195, 173, 24, 109, 103, 213, 52, 162, 236, 158, 15,
    ];
    let yb: Vec<u8> = vec![
        70u8, 105, 231, 224, 167, 71, 53, 39, 201, 51, 220, 140, 117, 208, 208, 170,
        127, 199, 84, 228, 24, 100, 150, 221, 244, 101, 170, 102, 133, 194, 15, 7,
    ];
    proof {
        reveal(g1_x_digits);
        reveal(g1_y_digits);
        assert(xb@ =~= g1_x_digits());
        assert(yb@ =~= g1_y_digits());
        lemma_coord_in_field(xb@);
        lemma_coord_in_field(yb@);
    }
    let p = CurvePoint {
        x: FieldElem { n: Bigint::from_bytes_le(xb) },
        y: FieldElem { n: Bigint::from_bytes_le(yb) },
    };
    if p.on_curve() {
        p
    } else {
        proof {
            lemma_zero_on_curve();
        }
        CurvePoint::zero()
    }
}

/// Thirty-two digit sequences with a small top digit stay below the field
/// order.
proof fn lemma_coord_in_field(s: Seq<u8>)
    requires
        s.len() == 32,
        s[31] < 16,
    ensures
        le_val(s) < l_order(),
{
    lemma_le_val_top_upper(s);
    lemma_field_facts();
    assert(s.last() + 1 <= 16);
    assert((s.last() + 1) * pow(256, 31) <= 16 * pow(256, 31)) by {
        vstd::arithmetic::power::lemma_pow_positive(256, 31);
        vstd::arithmetic::mul::lemma_mul_inequality(s.last() + 1, 16, pow(256, 31));
        vstd::arithmetic::mul::lemma_mul_is_commutative(s.last() + 1, pow(256, 31));
        vstd::arithmetic::mul::lemma_mul_is_commutative(16, pow(256, 31));
    }
}


/// One bit of a non-negative scalar.
pub open spec fn fp_bit(v: int, j: int) -> bool {
    (v / pow(2, j as nat)) % 2 == 1
}

/// The 250 little-endian bits of an inner-field scalar.
pub open spec fn fp_bits_seq(v: int) -> Seq<bool> {
    Seq::new(250, |j: int| fp_bit(v, j))
}

/// The running pair (result, doubling accumulator) of double-and-add
/// scalar multiplication after the first `i` bits.
pub open spec fn da_state(bits: Seq<bool>, p: (int, int), i: int) -> ((int, int), (int, int))
    decreases i,
{
    if i <= 0 {
        ((0int, 1int), p)
    } else {
        let prev = da_state(bits, p, i - 1);
        (
            if 0 <= i - 1 < bits.len() && bits[i - 1] {
                ed_add_point(prev.0.0, prev.0.1, prev.1.0, prev.1.1)
            } else {
                prev.0
            },
            ed_add_point(prev.1.0, prev.1.1, prev.1.0, prev.1.1),
        )
    }
}

/// The double-and-add scalar multiple of a point over a bit sequence,
/// lowest bit first.
pub open spec fn point_mul(bits: Seq<bool>, p: (int, int)) -> (int, int) {
    da_state(bits, p, bits.len() as int).0
}

/// A secret scalar: an element of the inner scalar field.
pub struct Fp {
    pub n: Bigint,
}

impl Fp {
    pub open spec fn pwf(&self) -> bool {
        self.n.wf() && 0 <= self.n@ < fp_modulus()
    }

    pub open spec fn pv(&self) -> int {
        self.n@
    }
}

impl Clone for Fp {
    fn clone(&self) -> (r: Self)
        ensures
            r.pv() == self.pv(),
            r.pwf() == self.pwf(),
    {
        Fp { n: self.n.clone() }
    }
}

impl Fp {
    /// A fresh scalar from thirty-one bytes of operating-system
    /// randomness, which always lies below the field order.
    pub fn random() -> (r: Fp)
        ensures
            r.pwf(),
    {
        let bytes = random_bytes(31);
        let n = Bigint::from_bytes_le(bytes);
        proof {
            lemma_le_val_top_upper(n.mag@);
            lemma_field_facts();
            assert((n.mag@.last() + 1) * pow(256, 30) <= 256 * pow(256, 30)) by {
                vstd::arithmetic::power::lemma_pow_positive(256, 30);
                vstd::arithmetic::mul::lemma_mul_inequality(n.mag@.last() + 1, 256, pow(256, 30));
                vstd::arithmetic::mul::lemma_mul_is_commutative(n.mag@.last() + 1, pow(256, 30));
                vstd::arithmetic::mul::lemma_mul_is_commutative(256, pow(256, 30));
            }
            assert(256 * pow(256, 30) == pow(256, 31)) by {
                vstd::arithmetic::power::lemma_pow_adds(256, 1, 30);
                vstd::arithmetic::power::lemma_pow1(256);
            }
            assert(pow(256, 31) <= 3 * pow(256, 31)) by {
                vstd::arithmetic::power::lemma_pow_positive(256, 31);
            }
        }
        Fp { n }
    }

    pub fn zero() -> (r: Fp)
        ensures
            r.pwf(),
            r.pv() == 0,
    {
        proof {
            lemma_field_facts();
        }
        Fp { n: Bigint::zero() }
    }

    pub fn one() -> (r: Fp)
        ensures
            r.pwf(),
            r.pv() == 1,
    {
        proof {
            lemma_field_facts();
        }
        Fp { n: Bigint::from_u64(1) }
    }

    pub fn from_u64(x: u64) -> (r: Fp)
        ensures
            r.pwf(),
            r.pv() == (x as int) % fp_modulus(),
    {
        let n = Bigint::from_u64(x);
        proof {
            lemma_field_facts();
            lemma_u64_below_fp(x);
            vstd::arithmetic::div_mod::lemma_small_mod(x as nat, fp_modulus() as nat);
        }
        Fp { n }
    }

    /// Addition in the inner field.
    pub fn add(&self, other: &Fp) -> (r: Fp)
        requires
            self.pwf(),
            other.pwf(),
        ensures
            r.pwf(),
            r.pv() == (self.pv() + other.pv()) % fp_modulus(),
    {
        let p = fp_big();
        let t = bi_add(&self.n, &other.n);
        if bi_le(&p, &t) {
            let u = bi_sub(&t, &p);
            proof {
                assert(t@ - p@ == (-1) * p@ + t@);
                assert((p@ * (-1) + t@) % p@ == t@ % p@) by {
                    vstd::arithmetic::div_mod::lemma_mod_multiples_vanish(-1, t@, p@);
                }
                assert(p@ * (-1) == (-1) * p@) by {
                    vstd::arithmetic::mul::lemma_mul_is_commutative(p@, -1);
                }
                vstd::arithmetic::div_mod::lemma_small_mod((t@ - p@) as nat, p@ as nat);
            }
            Fp { n: u }
        } else {
            proof {
                vstd::arithmetic::div_mod::lemma_small_mod(t@ as nat, p@ as nat);
            }
            Fp { n: t }
        }
    }

    pub fn eq_fp(&self, other: &Fp) -> (r: bool)
        ensures
            r == (self.pv() == other.pv()),
    {
        bi_eq(&self.n, &other.n)
    }

    /// The little-endian bits of the scalar, lowest first.
    pub fn bits(&self) -> (r: Vec<bool>)
        requires
            self.pwf(),
        ensures
            r@.len() == 250,
            forall|j: int| 0 <= j < 250
                ==> r@[j] == ((self.pv() / pow(2, j as nat)) % 2 == 1),
            r@ == fp_bits_seq(self.pv()),
    {
        let two = Bigint::from_u64(2);
        let mut cur = self.n.clone();
        let mut out: Vec<bool> = Vec::new();
        proof {
            vstd::arithmetic::power::lemma_pow0(2);
        }
        let mut j: usize = 0;
        while j < 250
            invariant
                0 <= j <= 250,
                two@ == 2,
                cur.wf(),
                cur@ == self.pv() / pow(2, j as nat),
                cur@ >= 0,
                self.pwf(),
                out@.len() == j,
                forall|k: int| 0 <= k < j
                    ==> out@[k] == ((self.pv() / pow(2, k as nat)) % 2 == 1),
            decreases 250 - j,
        {
            let (q, r) = bi_divrem(&cur, &two);
            proof {
                vstd::arithmetic::div_mod::lemma_fundamental_div_mod_converse(cur@, 2, q@, r@);
                vstd::arithmetic::div_mod::lemma_div_pos_is_pos(cur@, 2);
                assert((self.pv() / pow(2, j as nat)) / 2 == self.pv() / (pow(2, j as nat) * 2)) by {
                    vstd::arithmetic::power::lemma_pow_positive(2, j as nat);
                    vstd::arithmetic::div_mod::lemma_div_denominator(
                        self.pv(), pow(2, j as nat), 2);
                }
                assert(pow(2, j as nat) * 2 == pow(2, (j + 1) as nat)) by {
                    vstd::arithmetic::power::lemma_pow_adds(2, j as nat, 1);
                    vstd::arithmetic::power::lemma_pow1(2);
                }
            }
            let bit = !r.is_zero();
            out.push(bit);
            cur = q;
            j = j + 1;
        }
        out
    }

    /// The scalar carried into the outer field: the value is below the
    /// inner order, which is below the outer one.
    pub fn to_field(&self) -> (r: FieldElem)
        requires
            self.pwf(),
        ensures
            r.fwf(),
            r.fv() == self.pv(),
    {
        proof {
            lemma_field_facts();
        }
        FieldElem { n: self.n.clone() }
    }

    /// Scalar multiplication of a curve point: double and add over the
    /// bits of the scalar, lowest first.
    pub fn mul_point(&self, point: &CurvePoint) -> (r: CurvePoint)
        requires
            self.pwf(),
            point.cwf(),
        ensures
            r.cwf(),
            (r.x.fv(), r.y.fv()) == point_mul(
                fp_bits_seq(self.pv()), (point.x.fv(), point.y.fv())),
    {
        let bs = self.bits();
        let mut res = CurvePoint::zero();
        let mut acc = point.clone();
        let ghost p0 = (point.x.fv(), point.y.fv());
        let mut i: usize = 0;
        while i < bs.len()
            invariant
                0 <= i <= bs.len(),
                bs@ == fp_bits_seq(self.pv()),
                bs@.len() == 250,
                res.cwf(),
                acc.cwf(),
                ((res.x.fv(), res.y.fv()), (acc.x.fv(), acc.y.fv()))
                    == da_state(bs@, p0, i as int),
            decreases bs.len() - i,
        {
            if bs[i] {
                res = res.add(&acc);
            }
            acc = acc.add(&acc);
            i = i + 1;
        }
        res
    }
}

proof fn lemma_u64_below_fp(x: u64)
    ensures
        x < fp_modulus(),
{
    lemma_field_facts();
    assert(pow(256, 1) == 256) by {
        vstd::arithmetic::power::lemma_pow1(256);
    }
    assert(pow(256, 2) == 65536) by {
        vstd::arithmetic::power::lemma_pow_adds(256, 1, 1);
    }
    assert(pow(256, 4) == 0x100000000) by {
        vstd::arithmetic::power::lemma_pow_adds(256, 2, 2);
    }
    assert(pow(256, 8) == 0x10000000000000000) by {
        vstd::arithmetic::power::lemma_pow_adds(256, 4, 4);
    }
    assert(pow(256, 8) < pow(256, 31)) by {
        vstd::arithmetic::power::lemma_pow_strictly_increases(256, 8, 31);
    }
    assert(pow(256, 31) <= 3 * pow(256, 31)) by {
        vstd::arithmetic::power::lemma_pow_positive(256, 31);
    }
}

/// The permissibility predicate on coordinates: the y coordinate is below
/// two to the 250 and passes the probable-prime test, and x is even.
pub open spec fn permissible_val(xv: int, yv: int) -> bool {
    yv < 4 * pow(256, 31) && xv % 2 == 0 && crate::bigint::probable_prime(yv)
}

impl CurvePoint {
    /// Whether the point may serve as a public key or tag base.
    pub fn is_permissible(&self) -> (r: bool)
        requires
            self.cwf(),
        ensures
            r == permissible_val(self.x.fv(), self.y.fv()),
    {
        // the bound: four times two to the 248
        let mut bound_digits: Vec<u8> = Vec::new();
        let mut i: usize = 0;
        proof {
            vstd::arithmetic::power::lemma_pow0(256);
        }
        while i < 31
            invariant
                0 <= i <= 31,
                bound_digits@.len() == i,
                le_val(bound_digits@) == 0,
                forall|k: int| 0 <= k < i ==> bound_digits@[k] == 0,
            decreases 31 - i,
        {
            let ghost old_digits = bound_digits@;
            bound_digits.push(0);
            proof {
                crate::bigint::lemma_le_val_zero_iff(bound_digits@);
            }
            i = i + 1;
        }
        let ghost pre = bound_digits@;
        bound_digits.push(4);
        proof {
            crate::bigint::lemma_le_val_push(pre, 4);
        }
        let bound = Bigint::from_bytes_le(bound_digits);

        let below = !bi_le(&bound, &self.y.n);
        if !below {
            return false;
        }
        let two = Bigint::from_u64(2);
        let (_q, rem) = bi_divrem(&self.x.n, &two);
        proof {
            vstd::arithmetic::div_mod::lemma_fundamental_div_mod_converse(
                self.x.fv(), 2, _q@, rem@);
        }
        let even = rem.is_zero();
        if !even {
            return false;
        }
        bi_probable_prime(&self.y.n)
    }
}

} // verus!

