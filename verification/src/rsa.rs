use vstd::prelude::*;
use vstd::arithmetic::power::pow;
use crate::bigint::{Bigint, le_val, bi_add, bi_sub, bi_mul, bi_divrem, bi_le, bi_eq, bi_modpow,
    bi_modinv, bi_min_bytes, lemma_le_val_nonneg, lemma_le_val_lower_pub, min_bytes};

verus! {

/// Little-endian digits of the fixed RSA-3072 modulus.
#[verifier::opaque]
pub open spec fn modulus_digits() -> Seq<u8> {
    seq![
        167u8, 15, 221, 147, 201, 204, 215, 131, 245, 69, 114, 212, 125, 165, 18, 131,
        132, 66, 111, 1, 19, 232, 186, 25, 169, 174, 77, 92, 93, 113, 182, 97,
        196, 129, 80, 44, 166, 121, 228, 91, 242, 191, 205, 205, 139, 242, 218, 10,
        197, 179, 103, 52, 52, 91, 111, 18, 7, 250, 179, 159, 13, 112, 30, 56,
        222, 193, 158, 156, 206, 130, 39, 120, 106, 5, 145, 112, 167, 145, 135, 19,
        139, 109, 1, 226, 16, 249, 172, 8, 13, 253, 88, 244, 17, 96, 160, 243,
        205, 34, 220, 71, 67, 10, 158, 173, 232, 35, 225, 202, 185, 166, 65, 147,
        167, 200, 31, 158, 27, 178, 156, 243, 171, 107, 145, 182, 247, 250, 180, 26,
        115, 49, 195, 184, 184, 249, 2, 76, 5, 241, 202, 3, 48, 188, 98, 17,
        41, 29, 249, 76, 27, 107, 52, 114, 63, 247, 150, 100, 236, 242, 174, 13,
        123, 84, 19, 138, 127, 39, 210, 238, 8, 23, 21, 37, 255, 56, 54, 242,
        132, 83, 220, 94, 90, 40, 135, 18, 9, 73, 106, 244, 22, 207, 57, 138,
        200, 246, 227, 12, 174, 179, 216, 246, 227, 150, 15, 176, 112, 108, 95, 51,
        146, 230, 173, 131, 166, 99, 217, 63, 176, 74, 224, 48, 191, 206, 132, 228,
        5, 60, 11, 111, 129, 34, 185, 36, 97, 201, 166, 47, 13, 135, 41, 249,
        123, 175, 100, 54, 106, 34, 84, 5, 5, 75, 121, 74, 82, 36, 197, 40,
        168, 66, 108, 208, 50, 253, 44, 110, 50, 107, 59, 254, 23, 112, 232, 150,
        186, 251, 16, 245, 144, 31, 164, 28, 182, 127, 50, 229, 254, 6, 29, 89,
        233, 58, 178, 179, 97, 124, 51, 163, 246, 50, 230, 231, 200, 116, 143, 244,
        125, 230, 181, 248, 164, 202, 32, 129, 213, 159, 140, 29, 147, 236, 153, 70,
        100, 164, 0, 233, 115, 149, 111, 46, 78, 30, 66, 46, 231, 236, 101, 20,
        198, 160, 4, 100, 97, 82, 143, 245, 16, 130, 161, 94, 255, 195, 69, 203,
        81, 113, 161, 168, 172, 154, 111, 19, 60, 92, 195, 67, 92, 160, 85, 127,
        166, 70, 227, 107, 22, 209, 79, 174, 130, 226, 177, 127, 150, 48, 199, 237,
    ]
}

/// The fixed RSA-3072 modulus.
pub open spec fn rsa_modulus() -> int {
    le_val(modulus_digits())
}

/// The canonical representative of the coset {x, -x} modulo n: the value
/// of x modulo n, folded into the lower half of the range.
pub open spec fn canon(x: int, n: int) -> int {
    let v = x % n;
    if 2 * v > n {
        n - v
    } else {
        v
    }
}

pub proof fn lemma_le_val_parity(s: Seq<u8>)
    requires
        s.len() > 0,
    ensures
        le_val(s) % 2 == s[0] % 2,
{
    lemma_le_val_nonneg(s.skip(1));
    let r = le_val(s.skip(1));
    assert(le_val(s) == s[0] + 256 * r);
    assert((128 * r) * 2 == 256 * r) by {
        vstd::arithmetic::mul::lemma_mul_is_associative(128, r, 2);
    }
    assert((256 * r) % 2 == 0) by {
        vstd::arithmetic::div_mod::lemma_mod_multiples_basic(128 * r, 2);
    }
    assert((s[0] + 256 * r) % 2 == s[0] % 2) by {
        vstd::arithmetic::div_mod::lemma_mod_multiples_vanish(128 * r, s[0] as int, 2);
        assert(2 * (128 * r) == 256 * r) by {
            vstd::arithmetic::mul::lemma_mul_is_associative(2, 128, r);
        }
    }
}

/// Size and parity of the fixed modulus, as the lemmas below need them.
pub proof fn lemma_modulus_facts()
    ensures
        rsa_modulus() % 2 == 1,
        rsa_modulus() > 1000000,
{
    reveal(modulus_digits);
    let s = modulus_digits();
    assert(s.len() == 384);
    assert(s[0] == 167);
    lemma_le_val_parity(s);
    lemma_le_val_lower_pub(s, 4);
    assert(s[4] == 201);
    assert(pow(256, 1) == 256) by {
        vstd::arithmetic::power::lemma_pow1(256);
    }
    assert(pow(256, 2) == 65536) by {
        vstd::arithmetic::power::lemma_pow_adds(256, 1, 1);
    }
    assert(pow(256, 4) == 0x100000000) by {
        vstd::arithmetic::power::lemma_pow_adds(256, 2, 2);
    }
    assert(201 * pow(256, 4) > 1000000);
}

/// Whether `a` has a multiplicative inverse modulo the fixed modulus.
pub open spec fn rsa_invertible(a: int) -> bool {
    exists|x: int| 0 <= x < rsa_modulus() && #[trigger] ((a * x) % rsa_modulus()) == 1
}

/// The multiplicative inverse of `a` modulo the fixed modulus, when one exists.
pub open spec fn rsa_minv(a: int) -> int {
    choose|x: int| 0 <= x < rsa_modulus() && #[trigger] ((a * x) % rsa_modulus()) == 1
}

/// The value of the group operation on coset representatives.
pub open spec fn rsa_op(a: int, b: int) -> int {
    canon(a * b, rsa_modulus())
}

/// The value of exponentiation on coset representatives; a negative
/// exponent goes through the inverse.
pub open spec fn rsa_exp(a: int, e: int) -> int {
    if e >= 0 {
        canon(pow(a, e as nat), rsa_modulus())
    } else {
        canon(pow(rsa_minv(a), (-e) as nat), rsa_modulus())
    }
}

/// Canonical representatives lie in the lower half of the range.
pub proof fn lemma_canon_range(x: int)
    ensures
        0 <= canon(x, rsa_modulus()),
        2 * canon(x, rsa_modulus()) < rsa_modulus(),
{
    let n = rsa_modulus();
    lemma_modulus_facts();
    vstd::arithmetic::div_mod::lemma_mod_bound(x, n);
    let v = x % n;
    if 2 * v == n {
        assert(n % 2 == 0) by {
            vstd::arithmetic::div_mod::lemma_mod_multiples_basic(v, 2);
            assert(v * 2 == 2 * v);
        }
    }
}

/// The canonical representative looks only at the residue.
pub proof fn lemma_canon_congruent(x: int, y: int)
    requires
        x % rsa_modulus() == y % rsa_modulus(),
    ensures
        canon(x, rsa_modulus()) == canon(y, rsa_modulus()),
{
}

/// The residue of a negated value.
pub proof fn lemma_neg_mod(x: int)
    ensures
        (-x) % rsa_modulus() == if x % rsa_modulus() == 0 { 0int } else { rsa_modulus() - x % rsa_modulus() },
{
    let n = rsa_modulus();
    lemma_modulus_facts();
    vstd::arithmetic::div_mod::lemma_mod_bound(x, n);
    vstd::arithmetic::div_mod::lemma_fundamental_div_mod(x, n);
    let q = x / n;
    let v = x % n;
    if v == 0 {
        assert(-x == (-q) * n + 0) by (nonlinear_arith)
            requires x == q * n + v, v == 0,
        {}
        vstd::arithmetic::div_mod::lemma_fundamental_div_mod_converse(-x, n, -q, 0);
    } else {
        assert(-x == (-q - 1) * n + (n - v)) by (nonlinear_arith)
            requires x == q * n + v,
        {}
        vstd::arithmetic::div_mod::lemma_fundamental_div_mod_converse(-x, n, -q - 1, n - v);
    }
}

/// Negation does not move an element to a different coset.
pub proof fn lemma_canon_neg(x: int)
    ensures
        canon(-x, rsa_modulus()) == canon(x, rsa_modulus()),
{
    let n = rsa_modulus();
    lemma_modulus_facts();
    vstd::arithmetic::div_mod::lemma_mod_bound(x, n);
    lemma_neg_mod(x);
    let v = x % n;
    if v != 0 && 2 * v == n {
        assert(n % 2 == 0) by {
            vstd::arithmetic::div_mod::lemma_mod_multiples_basic(v, 2);
            assert(v * 2 == 2 * v);
        }
    }
    if v != 0 && 2 * (n - v) == n {
        assert(n % 2 == 0) by {
            vstd::arithmetic::div_mod::lemma_mod_multiples_basic(n - v, 2);
            assert((n - v) * 2 == 2 * (n - v));
        }
    }
}

/// Replacing a factor by its canonical representative does not change the
/// canonical representative of the product.
pub proof fn lemma_canon_mul_canon(x: int, y: int)
    ensures
        canon(canon(x, rsa_modulus()) * y, rsa_modulus()) == canon(x * y, rsa_modulus()),
{
    let n = rsa_modulus();
    lemma_modulus_facts();
    vstd::arithmetic::div_mod::lemma_mod_bound(x, n);
    let v = x % n;
    assert((v * y) % n == (x * y) % n) by {
        vstd::arithmetic::div_mod::lemma_mul_mod_noop_left(x, y, n);
    }
    if 2 * v > n {
        assert(canon(x, n) == n - v);
        assert((n - v) * y == n * y - v * y) by {
            vstd::arithmetic::mul::lemma_mul_is_distributive_sub_other_way(y, n, v);
        }
        assert((n * y + (-(v * y))) % n == (-(v * y)) % n) by {
            vstd::arithmetic::div_mod::lemma_mod_multiples_vanish(y, -(v * y), n);
        }
        assert((n - v) * y == n * y + (-(v * y)));
        lemma_canon_congruent((n - v) * y, -(v * y));
        lemma_canon_neg(v * y);
        lemma_canon_congruent(v * y, x * y);
    } else {
        lemma_canon_congruent(v * y, x * y);
    }
}

/// `pow(-1, e)` is plus or minus one.
pub proof fn lemma_pow_neg_one(e: nat)
    ensures
        pow(-1, e) == 1 || pow(-1, e) == -1,
    decreases e,
{
    reveal_with_fuel(pow, 2);
    if e > 0 {
        lemma_pow_neg_one((e - 1) as nat);
        assert(pow(-1, e) == -1 * pow(-1, (e - 1) as nat));
    }
}

/// Replacing the base by its canonical representative does not change the
/// canonical representative of a power.
pub proof fn lemma_canon_pow_canon(x: int, e: nat)
    ensures
        canon(pow(canon(x, rsa_modulus()), e), rsa_modulus()) == canon(pow(x, e), rsa_modulus()),
{
    let n = rsa_modulus();
    lemma_modulus_facts();
    vstd::arithmetic::div_mod::lemma_mod_bound(x, n);
    let v = x % n;
    assert(pow(v, e) % n == pow(x, e) % n) by {
        vstd::arithmetic::power::lemma_pow_mod_noop(x, e, n);
    }
    if 2 * v > n {
        assert(v != 0);
        assert(canon(x, n) == n - v);
        lemma_neg_mod(x);
        assert((n - v) % n == (-x) % n) by {
            vstd::arithmetic::div_mod::lemma_small_mod((n - v) as nat, n as nat);
        }
        assert(pow(n - v, e) % n == pow((n - v) % n, e) % n) by {
            vstd::arithmetic::power::lemma_pow_mod_noop(n - v, e, n);
        }
        assert(pow((-x) % n, e) % n == pow(-x, e) % n) by {
            vstd::arithmetic::power::lemma_pow_mod_noop(-x, e, n);
        }
        assert(pow(-x, e) == pow(-1, e) * pow(x, e)) by {
            assert(-x == -1 * x);
            vstd::arithmetic::power::lemma_pow_distributes(-1, x, e);
        }
        lemma_pow_neg_one(e);
        if pow(-1, e) == 1 {
            lemma_canon_congruent(pow(n - v, e), pow(x, e));
        } else {
            assert(pow(-x, e) == -pow(x, e));
            lemma_canon_congruent(pow(n - v, e), -pow(x, e));
            lemma_canon_neg(pow(x, e));
        }
    } else {
        lemma_canon_congruent(pow(v, e), pow(x, e));
    }
}

/// The group operation is commutative on values.
pub proof fn lemma_rsa_op_comm(a: int, b: int)
    ensures
        rsa_op(a, b) == rsa_op(b, a),
{
}

/// The group operation is associative on values.
pub proof fn lemma_rsa_op_assoc(a: int, b: int, c: int)
    ensures
        rsa_op(rsa_op(a, b), c) == rsa_op(a, rsa_op(b, c)),
{
    lemma_canon_mul_canon(a * b, c);
    assert(a * rsa_op(b, c) == rsa_op(b, c) * a);
    lemma_canon_mul_canon(b * c, a);
    assert((a * b) * c == (b * c) * a) by {
        vstd::arithmetic::mul::lemma_mul_is_associative(a, b, c);
        vstd::arithmetic::mul::lemma_mul_is_associative(b, c, a);
    }
}

/// Exponents add: multiplying two powers of one base gives the power at
/// the sum, for non-negative exponents.
pub proof fn lemma_rsa_exp_add(a: int, e1: int, e2: int)
    requires
        e1 >= 0,
        e2 >= 0,
    ensures
        rsa_op(rsa_exp(a, e1), rsa_exp(a, e2)) == rsa_exp(a, e1 + e2),
{
    let n = rsa_modulus();
    let p1 = pow(a, e1 as nat);
    let p2 = pow(a, e2 as nat);
    lemma_canon_mul_canon(p1, canon(p2, n));
    assert(p1 * canon(p2, n) == canon(p2, n) * p1);
    lemma_canon_mul_canon(p2, p1);
    assert(p2 * p1 == p1 * p2);
    assert(p1 * p2 == pow(a, (e1 + e2) as nat)) by {
        vstd::arithmetic::power::lemma_pow_adds(a, e1 as nat, e2 as nat);
    }
}

/// Exponents multiply: raising a power to a power gives the power at the
/// product, for non-negative exponents.
pub proof fn lemma_rsa_exp_exp(a: int, e1: int, e2: int)
    requires
        e1 >= 0,
        e2 >= 0,
    ensures
        rsa_exp(rsa_exp(a, e1), e2) == rsa_exp(a, e1 * e2),
{
    let n = rsa_modulus();
    lemma_canon_pow_canon(pow(a, e1 as nat), e2 as nat);
    assert(pow(pow(a, e1 as nat), e2 as nat) == pow(a, (e1 * e2) as nat)) by {
        vstd::arithmetic::power::lemma_pow_multiplies(a, e1 as nat, e2 as nat);
    }
    assert(e1 * e2 >= 0) by {
        vstd::arithmetic::mul::lemma_mul_nonnegative(e1, e2);
    }
}

/// A power of a product is the product of the powers, on representatives.
pub proof fn lemma_rsa_exp_distributes(a: int, b: int, e: int)
    requires
        e >= 0,
    ensures
        rsa_exp(rsa_op(a, b), e) == rsa_op(rsa_exp(a, e), rsa_exp(b, e)),
{
    let n = rsa_modulus();
    lemma_canon_pow_canon(a * b, e as nat);
    assert(pow(a * b, e as nat) == pow(a, e as nat) * pow(b, e as nat)) by {
        vstd::arithmetic::power::lemma_pow_distributes(a, b, e as nat);
    }
    let pa = pow(a, e as nat);
    let pb = pow(b, e as nat);
    lemma_canon_mul_canon(pa, canon(pb, n));
    assert(pa * canon(pb, n) == canon(pb, n) * pa) by {
        vstd::arithmetic::mul::lemma_mul_is_commutative(pa, canon(pb, n));
    }
    lemma_canon_mul_canon(pb, pa);
    assert(pb * pa == pa * pb) by {
        vstd::arithmetic::mul::lemma_mul_is_commutative(pb, pa);
    }
}

/// A canonical value is its own representative.
pub proof fn lemma_canon_fixed(a: int)
    requires
        0 <= a,
        2 * a < rsa_modulus(),
    ensures
        canon(a, rsa_modulus()) == a,
{
    let n = rsa_modulus();
    lemma_modulus_facts();
    vstd::arithmetic::div_mod::lemma_small_mod(a as nat, n as nat);
}

/// Exponent one returns the canonical representative of the base.
pub proof fn lemma_rsa_exp_one(a: int)
    ensures
        rsa_exp(a, 1) == canon(a, rsa_modulus()),
{
    vstd::arithmetic::power::lemma_pow1(a);
}

/// Exponent zero gives the identity.
pub proof fn lemma_rsa_exp_zero(a: int)
    ensures
        rsa_exp(a, 0) == 1,
{
    lemma_modulus_facts();
    assert(pow(a, 0) == 1) by {
        vstd::arithmetic::power::lemma_pow0(a);
    }
    lemma_canon_fixed(1);
}

/// A power of an element and the same power of its inverse cancel.
pub proof fn lemma_pow_inv_cancel(a: int, k: nat)
    requires
        rsa_invertible(a),
    ensures
        (pow(a, k) * pow(rsa_minv(a), k)) % rsa_modulus() == 1,
    decreases k,
{
    let n = rsa_modulus();
    let m = rsa_minv(a);
    lemma_modulus_facts();
    lemma_minv_property(a);
    vstd::arithmetic::div_mod::lemma_small_mod(1nat, n as nat);
    if k == 0 {
        assert(pow(a, 0) == 1 && pow(m, 0) == 1) by {
            vstd::arithmetic::power::lemma_pow0(a);
            vstd::arithmetic::power::lemma_pow0(m);
        }
    } else {
        lemma_pow_inv_cancel(a, (k - 1) as nat);
        let pa = pow(a, (k - 1) as nat);
        let pm = pow(m, (k - 1) as nat);
        reveal_with_fuel(pow, 2);
        assert(pow(a, k) == a * pa && pow(m, k) == m * pm);
        assert(pow(a, k) * pow(m, k) == (a * m) * (pa * pm)) by (nonlinear_arith)
            requires pow(a, k) == a * pa, pow(m, k) == m * pm,
        {}
        assert(((a * m) * (pa * pm)) % n == (((a * m) % n) * (pa * pm)) % n) by {
            vstd::arithmetic::div_mod::lemma_mul_mod_noop_left(a * m, pa * pm, n);
        }
        assert((1 * (pa * pm)) % n == 1) by {
            vstd::arithmetic::mul::lemma_mul_basics(pa * pm);
        }
    }
}

/// Multiplying by a residue congruent to one does not change the
/// canonical representative.
proof fn lemma_canon_mul_one(z: int, x: int)
    requires
        x % rsa_modulus() == 1,
    ensures
        canon(z * x, rsa_modulus()) == canon(z, rsa_modulus()),
{
    let n = rsa_modulus();
    lemma_modulus_facts();
    assert((z * x) % n == (z * (x % n)) % n) by {
        vstd::arithmetic::div_mod::lemma_mul_mod_noop_right(z, x, n);
    }
    assert(z * 1 == z) by {
        vstd::arithmetic::mul::lemma_mul_basics(z);
    }
    lemma_canon_congruent(z * x, z);
}

/// Exponents multiply for any first exponent and a non-negative second.
pub proof fn lemma_rsa_exp_exp_gen(a: int, e1: int, e2: int)
    requires
        e2 >= 0,
    ensures
        rsa_exp(rsa_exp(a, e1), e2) == rsa_exp(a, e1 * e2),
{
    if e1 >= 0 {
        lemma_rsa_exp_exp(a, e1, e2);
    } else {
        let m = rsa_minv(a);
        lemma_canon_pow_canon(pow(m, (-e1) as nat), e2 as nat);
        assert(pow(pow(m, (-e1) as nat), e2 as nat) == pow(m, ((-e1) * e2) as nat)) by {
            vstd::arithmetic::power::lemma_pow_multiplies(m, (-e1) as nat, e2 as nat);
        }
        assert(e1 * e2 <= 0) by (nonlinear_arith)
            requires e1 < 0, e2 >= 0,
        {}
        if e1 * e2 == 0 {
            assert((-e1) * e2 == 0) by (nonlinear_arith)
                requires e1 * e2 == 0,
            {}
            assert(pow(m, 0) == 1 && pow(a, 0) == 1) by {
                vstd::arithmetic::power::lemma_pow0(m);
                vstd::arithmetic::power::lemma_pow0(a);
            }
        } else {
            assert((-e1) * e2 == -(e1 * e2)) by (nonlinear_arith);
        }
    }
}

/// Exponents of one invertible base add, whatever their signs.
pub proof fn lemma_rsa_exp_add_gen(a: int, e1: int, e2: int)
    requires
        rsa_invertible(a),
    ensures
        rsa_op(rsa_exp(a, e1), rsa_exp(a, e2)) == rsa_exp(a, e1 + e2),
{
    let n = rsa_modulus();
    let m = rsa_minv(a);
    lemma_modulus_facts();
    if e1 >= 0 && e2 >= 0 {
        lemma_rsa_exp_add(a, e1, e2);
    } else if e1 < 0 && e2 < 0 {
        let p1 = pow(m, (-e1) as nat);
        let p2 = pow(m, (-e2) as nat);
        lemma_canon_mul_canon(p1, canon(p2, n));
        assert(p1 * canon(p2, n) == canon(p2, n) * p1) by {
            vstd::arithmetic::mul::lemma_mul_is_commutative(p1, canon(p2, n));
        }
        lemma_canon_mul_canon(p2, p1);
        assert(p2 * p1 == p1 * p2) by {
            vstd::arithmetic::mul::lemma_mul_is_commutative(p2, p1);
        }
        assert(p1 * p2 == pow(m, ((-e1) + (-e2)) as nat)) by {
            vstd::arithmetic::power::lemma_pow_adds(m, (-e1) as nat, (-e2) as nat);
        }
    } else {
        // mixed signs: take f1 non-negative and f2 negative
        let f1 = if e1 >= 0 { e1 } else { e2 };
        let f2 = if e1 >= 0 { e2 } else { e1 };
        assert(f1 >= 0 && f2 < 0);
        lemma_rsa_op_comm(rsa_exp(a, e1), rsa_exp(a, e2));
        let p1 = pow(a, f1 as nat);
        let p2 = pow(m, (-f2) as nat);
        lemma_canon_mul_canon(p1, canon(p2, n));
        assert(p1 * canon(p2, n) == canon(p2, n) * p1) by {
            vstd::arithmetic::mul::lemma_mul_is_commutative(p1, canon(p2, n));
        }
        lemma_canon_mul_canon(p2, p1);
        assert(p2 * p1 == p1 * p2) by {
            vstd::arithmetic::mul::lemma_mul_is_commutative(p2, p1);
        }
        // now both sides reduce to canon(p1 * p2)
        if f1 + f2 >= 0 {
            // p1 = a^(f1+f2) * a^(-f2), and a^(-f2) m^(-f2) cancels
            assert(pow(a, f1 as nat) == pow(a, (f1 + f2) as nat) * pow(a, (-f2) as nat)) by {
                vstd::arithmetic::power::lemma_pow_adds(a, (f1 + f2) as nat, (-f2) as nat);
            }
            lemma_pow_inv_cancel(a, (-f2) as nat);
            let cancel = pow(a, (-f2) as nat) * pow(m, (-f2) as nat);
            assert(p1 * p2 == pow(a, (f1 + f2) as nat) * cancel) by (nonlinear_arith)
                requires p1 == pow(a, (f1 + f2) as nat) * pow(a, (-f2) as nat),
                    cancel == pow(a, (-f2) as nat) * p2,
            {}
            lemma_canon_mul_one(pow(a, (f1 + f2) as nat), cancel);
        } else {
            // p2 = m^(f1) * m^(-(f1+f2)), and a^(f1) m^(f1) cancels
            assert(pow(m, (-f2) as nat) == pow(m, f1 as nat) * pow(m, (-(f1 + f2)) as nat)) by {
                assert((-f2) as nat == (f1 as nat) + ((-(f1 + f2)) as nat));
                vstd::arithmetic::power::lemma_pow_adds(m, f1 as nat, (-(f1 + f2)) as nat);
            }
            lemma_pow_inv_cancel(a, f1 as nat);
            let cancel = pow(a, f1 as nat) * pow(m, f1 as nat);
            assert(p1 * p2 == pow(m, (-(f1 + f2)) as nat) * cancel) by (nonlinear_arith)
                requires p2 == pow(m, f1 as nat) * pow(m, (-(f1 + f2)) as nat),
                    cancel == p1 * pow(m, f1 as nat),
            {}
            lemma_canon_mul_one(pow(m, (-(f1 + f2)) as nat), cancel);
        }
    }
}

/// The inverse modulo the fixed modulus is unique within the range.
pub proof fn lemma_rsa_inverse_unique(a: int, x1: int, x2: int)
    requires
        0 <= x1 < rsa_modulus(),
        0 <= x2 < rsa_modulus(),
        (a * x1) % rsa_modulus() == 1,
        (a * x2) % rsa_modulus() == 1,
    ensures
        x1 == x2,
{
    let n = rsa_modulus();
    lemma_modulus_facts();
    assert((x1 * (a * x2)) % n == (x1 * ((a * x2) % n)) % n) by {
        vstd::arithmetic::div_mod::lemma_mul_mod_noop_right(x1, a * x2, n);
    }
    assert((x2 * (a * x1)) % n == (x2 * ((a * x1) % n)) % n) by {
        vstd::arithmetic::div_mod::lemma_mul_mod_noop_right(x2, a * x1, n);
    }
    vstd::arithmetic::div_mod::lemma_small_mod(x1 as nat, n as nat);
    vstd::arithmetic::div_mod::lemma_small_mod(x2 as nat, n as nat);
    assert(x1 * (a * x2) == x2 * (a * x1)) by (nonlinear_arith);
    assert(x1 == x2);
}


/// The chosen inverse really is one, whenever any inverse exists.
pub proof fn lemma_minv_property(a: int)
    requires
        rsa_invertible(a),
    ensures
        0 <= rsa_minv(a) < rsa_modulus(),
        (a * rsa_minv(a)) % rsa_modulus() == 1,
{
    let m = choose|x: int| 0 <= x < rsa_modulus() && #[trigger] ((a * x) % rsa_modulus()) == 1;
    assert(0 <= m < rsa_modulus() && (a * m) % rsa_modulus() == 1);
    assert(m == rsa_minv(a));
}

/// An RSA-3072 group element: a canonical coset representative.
pub struct Rsa3072Elem {
    pub rep: Bigint,
}

impl Rsa3072Elem {
    pub open spec fn wf(&self) -> bool {
        self.rep.wf() && 0 <= self.rep@ && 2 * self.rep@ < rsa_modulus()
    }
}

impl View for Rsa3072Elem {
    type V = int;

    open spec fn view(&self) -> int {
        self.rep@
    }
}

impl Clone for Rsa3072Elem {
    fn clone(&self) -> (r: Self)
        ensures
            r@ == self@,
            r.wf() == self.wf(),
    {
        Rsa3072Elem { rep: self.rep.clone() }
    }
}

/// The RSA-3072 group of unknown order: integers modulo a fixed product of
/// two unknown primes, with x and -x identified.
pub struct Rsa3072;

impl Rsa3072 {
    /// The fixed modulus as a runtime integer.
    pub fn modulus() -> (r: Bigint)
        ensures
            r@ == rsa_modulus(),
            r.wf(),
            r@ > 1000000,
            r@ % 2 == 1,
    {
        let digits: Vec<u8> = vec![
            167u8, 15, 221, 147, 201, 204, 215, 131, 245, 69, 114, 212, 125, 165, 18, 131,
            132, 66, 111, 1, 19, 232, 186, 25, 169, 174, 77, 92, 93, 113, 182, 97,
            196, 129, 80, 44, 166, 121, 228, 91, 242, 191, 205, 205, 139, 242, 218, 10,
            197, 179, 103, 52, 52, 91, 111, 18, 7, 250, 179, 159, 13, 112, 30, 56,
            222, 193, 158, 156, 206, 130, 39, 120, 106, 5, 145, 112, 167, 145, 135, 19,
            139, 109, 1, 226, 16, 249, 172, 8, 13, 253, 88, 244, 17, 96, 160, 243,
            205, 34, 220, 71, 67, 10, 158, 173, 232, 35, 225, 202, 185, 166, 65, 147,
            167, 200, 31, 158, 27, 178, 156, 243, 171, 107, 145, 182, 247, 250, 180, 26,
            115, 49, 195, 184, 184, 249, 2, 76, 5, 241, 202, 3, 48, 188, 98, 17,
            41, 29, 249, 76, 27, 107, 52, 114, 63, 247, 150, 100, 236, 242, 174, 13,
            123, 84, 19, 138, 127, 39, 210, 238, 8, 23, 21, 37, 255, 56, 54, 242,
            132, 83, 220, 94, 90, 40, 135, 18, 9, 73, 106, 244, 22, 207, 57, 138,
            200, 246, 227, 12, 174, 179, 216, 246, 227, 150, 15, 176, 112, 108, 95, 51,
            146, 230, 173, 131, 166, 99, 217, 63, 176, 74, 224, 48, 191, 206, 132, 228,
            5, 60, 11, 111, 129, 34, 185, 36, 97, 201, 166, 47, 13, 135, 41, 249,
            123, 175, 100, 54, 106, 34, 84, 5, 5, 75, 121, 74, 82, 36, 197, 40,
            168, 66, 108, 208, 50, 253, 44, 110, 50, 107, 59, 254, 23, 112, 232, 150,
            186, 251, 16, 245, 144, 31, 164, 28, 182, 127, 50, 229, 254, 6, 29, 89,
            233, 58, 178, 179, 97, 124, 51, 163, 246, 50, 230, 231, 200, 116, 143, 244,
            125, 230, 181, 248, 164, 202, 32, 129, 213, 159, 140, 29, 147, 236, 153, 70,
            100, 164, 0, 233, 115, 149, 111, 46, 78, 30, 66, 46, 231, 236, 101, 20,
            198, 160, 4, 100, 97, 82, 143, 245, 16, 130, 161, 94, 255, 195, 69, 203,
            81, 113, 161, 168, 172, 154, 111, 19, 60, 92, 195, 67, 92, 160, 85, 127,
            166, 70, 227, 107, 22, 209, 79, 174, 130, 226, 177, 127, 150, 48, 199, 237,
        ];
        proof {
            reveal(modulus_digits);
            assert(digits@ =~= modulus_digits());
            lemma_modulus_facts();
        }
        Bigint::from_bytes_le(digits)
    }

    /// Canonicalizes any integer into the group: reduce modulo the modulus,
    /// then fold the upper half of the range onto the lower.
    pub fn elem(x: &Bigint) -> (r: Rsa3072Elem)
        ensures
            r.wf(),
            r@ == canon(x@, rsa_modulus()),
    {
        let n = Self::modulus();
        let (q, rem) = bi_divrem(x, &n);
        let zero = Bigint::zero();
        let nonneg = bi_le(&zero, &rem);
        let v = if nonneg {
            rem
        } else {
            bi_add(&rem, &n)
        };
        proof {
            vstd::arithmetic::div_mod::lemma_fundamental_div_mod(x@, n@);
            if nonneg {
                vstd::arithmetic::div_mod::lemma_fundamental_div_mod_converse(x@, n@, q@, v@);
            } else {
                assert(x@ == (q@ - 1) * n@ + v@) by (nonlinear_arith)
                    requires x@ == q@ * n@ + (v@ - n@),
                {}
                vstd::arithmetic::div_mod::lemma_fundamental_div_mod_converse(x@, n@, q@ - 1, v@);
            }
            assert(v@ == x@ % rsa_modulus());
            lemma_canon_range(x@);
        }
        let two = Bigint::from_u64(2);
        let tv = bi_mul(&two, &v);
        if bi_le(&tv, &n) {
            Rsa3072Elem { rep: v }
        } else {
            Rsa3072Elem { rep: bi_sub(&n, &v) }
        }
    }

    /// The group law: multiply and canonicalize.
    pub fn op(a: &Rsa3072Elem, b: &Rsa3072Elem) -> (r: Rsa3072Elem)
        requires
            a.wf(),
            b.wf(),
        ensures
            r.wf(),
            r@ == rsa_op(a@, b@),
    {
        Self::elem(&bi_mul(&a.rep, &b.rep))
    }

    /// The group identity.
    pub fn id() -> (r: Rsa3072Elem)
        ensures
            r.wf(),
            r@ == 1,
    {
        proof {
            lemma_modulus_facts();
        }
        Rsa3072Elem { rep: Bigint::from_u64(1) }
    }

    /// The inverse of an invertible element.
    pub fn inv(x: &Rsa3072Elem) -> (r: Rsa3072Elem)
        requires
            x.wf(),
            rsa_invertible(x@),
        ensures
            r.wf(),
            r@ == canon(rsa_minv(x@), rsa_modulus()),
            rsa_op(x@, r@) == 1,
    {
        let n = Self::modulus();
        let res = bi_modinv(&x.rep, &n);
        match res {
            Some(w) => {
                proof {
                    lemma_minv_property(x@);
                    lemma_rsa_inverse_unique(x@, w@, rsa_minv(x@));
                }
                let r = Self::elem(&w);
                proof {
                    // x * canon(w) is in the coset of x * w, which reduces to one
                    lemma_canon_mul_canon(w@, x@);
                    assert(canon(w@, rsa_modulus()) * x@ == x@ * canon(w@, rsa_modulus())) by {
                        vstd::arithmetic::mul::lemma_mul_is_commutative(canon(w@, rsa_modulus()), x@);
                    }
                    assert(w@ * x@ == x@ * w@) by {
                        vstd::arithmetic::mul::lemma_mul_is_commutative(w@, x@);
                    }
                    lemma_modulus_facts();
                    vstd::arithmetic::div_mod::lemma_small_mod(1nat, rsa_modulus() as nat);
                    lemma_canon_congruent(x@ * w@, 1);
                    lemma_canon_fixed(1);
                }
                r
            }
            None => {
                proof {
                    lemma_minv_property(x@);
                    assert(false);
                }
                Rsa3072Elem { rep: Bigint::from_u64(1) }
            }
        }
    }

    /// Whether the element has a multiplicative inverse.
    pub fn invertible(x: &Rsa3072Elem) -> (r: bool)
        requires
            x.wf(),
        ensures
            r == rsa_invertible(x@),
    {
        let n = Self::modulus();
        let res = bi_modinv(&x.rep, &n);
        match res {
            Some(w) => {
                proof {
                    assert((x@ * w@) % rsa_modulus() == 1);
                }
                true
            }
            None => {
                proof {
                    if rsa_invertible(x@) {
                        lemma_minv_property(x@);
                        assert(false);
                    }
                }
                false
            }
        }
    }

    /// Exponentiation by an arbitrary integer; a negative exponent requires
    /// an invertible base and goes through the inverse.
    pub fn exp(x: &Rsa3072Elem, e: &Bigint) -> (r: Rsa3072Elem)
        requires
            x.wf(),
            e.wf(),
            e@ < 0 ==> rsa_invertible(x@),
        ensures
            r.wf(),
            r@ == rsa_exp(x@, e@),
    {
        let n = Self::modulus();
        proof {
            lemma_le_val_nonneg(e.mag@);
        }
        if !e.neg {
            let t = bi_modpow(&x.rep, e, &n);
            let r = Self::elem(&t);
            proof {
                vstd::arithmetic::div_mod::lemma_mod_twice(pow(x@, e@ as nat), rsa_modulus());
                lemma_canon_congruent(t@, pow(x@, e@ as nat));
            }
            r
        } else {
            let w = Self::inv(x);
            let epos = Bigint { neg: false, mag: e.mag.clone() };
            proof {
                lemma_le_val_nonneg(epos.mag@);
            }
            let t = bi_modpow(&w.rep, &epos, &n);
            let r = Self::elem(&t);
            proof {
                vstd::arithmetic::div_mod::lemma_mod_twice(pow(w@, (-e@) as nat), rsa_modulus());
                lemma_canon_congruent(t@, pow(w@, (-e@) as nat));
                lemma_canon_pow_canon(rsa_minv(x@), (-e@) as nat);
            }
            r
        }
    }

    /// Value equality of canonical representatives is group-element equality.
    pub fn eq_elem(a: &Rsa3072Elem, b: &Rsa3072Elem) -> (r: bool)
        ensures
            r == (a@ == b@),
    {
        bi_eq(&a.rep, &b.rep)
    }

    /// The canonical byte encoding of an element.
    pub fn elem_to_bytes(x: &Rsa3072Elem) -> (r: Vec<u8>)
        requires
            x.wf(),
        ensures
            r@ == min_bytes(x@),
    {
        bi_min_bytes(&x.rep)
    }

    /// Half the modulus: an upper bound on the order of the group.
    pub fn order_upper_bound() -> (r: Bigint)
        ensures
            r.wf(),
            r@ == rsa_modulus() / 2,
            r@ >= 2,
    {
        let n = Self::modulus();
        let two = Bigint::from_u64(2);
        let (q, rem) = bi_divrem(&n, &two);
        proof {
            vstd::arithmetic::div_mod::lemma_fundamental_div_mod_converse(n@, 2, q@, rem@);
            assert(rsa_modulus() / 2 >= 1000000int / 2) by {
                vstd::arithmetic::div_mod::lemma_div_is_ordered(1000000, rsa_modulus(), 2);
            }
        }
        q
    }

    /// An element of unknown order: two.
    pub fn unknown_order_elem() -> (r: Rsa3072Elem)
        ensures
            r.wf(),
            r@ == 2,
    {
        proof {
            lemma_modulus_facts();
        }
        Rsa3072Elem { rep: Bigint::from_u64(2) }
    }
}

/// Coset invariance of the constructor: any value and the modulus minus
/// that value canonicalize to the same group element.
pub proof fn lemma_elem_coset(x: int)
    ensures
        canon(rsa_modulus() - x, rsa_modulus()) == canon(x, rsa_modulus()),
{
    let n = rsa_modulus();
    lemma_modulus_facts();
    assert((n * 1 + (-x)) % n == (-x) % n) by {
        vstd::arithmetic::div_mod::lemma_mod_multiples_vanish(1, -x, n);
    }
    assert(n - x == n * 1 + (-x));
    lemma_canon_congruent(n - x, -x);
    lemma_canon_neg(x);
}


impl crate::group::UnknownOrderGroup for Rsa3072Elem {
    open spec fn wf(&self) -> bool {
        Rsa3072Elem::wf(self)
    }

    open spec fn gv(&self) -> int {
        self.rep@
    }

    open spec fn in_group(a: int) -> bool {
        0 <= a && 2 * a < rsa_modulus()
    }

    open spec fn sop(a: int, b: int) -> int {
        rsa_op(a, b)
    }

    open spec fn sexp(a: int, e: int) -> int {
        rsa_exp(a, e)
    }

    open spec fn sid() -> int {
        1
    }

    open spec fn sinvertible(a: int) -> bool {
        rsa_invertible(a)
    }

    open spec fn senc(a: int) -> Seq<u8> {
        min_bytes(a)
    }

    open spec fn sbound() -> int {
        rsa_modulus() / 2
    }

    fn dup(&self) -> (r: Self) {
        self.clone()
    }

    fn op(&self, other: &Self) -> (r: Self) {
        Rsa3072::op(self, other)
    }

    fn exp(&self, e: &Bigint) -> (r: Self) {
        Rsa3072::exp(self, e)
    }

    fn id() -> (r: Self) {
        proof {
            lemma_modulus_facts();
        }
        Rsa3072::id()
    }

    fn eq_elem(&self, other: &Self) -> (r: bool) {
        Rsa3072::eq_elem(self, other)
    }

    fn invertible(&self) -> (r: bool) {
        Rsa3072::invertible(self)
    }

    fn to_bytes(&self) -> (r: Vec<u8>) {
        Rsa3072::elem_to_bytes(self)
    }

    fn order_upper_bound() -> (r: Bigint) {
        Rsa3072::order_upper_bound()
    }

    fn unknown_order_elem() -> (r: Self) {
        Rsa3072::unknown_order_elem()
    }

    fn from_int(x: &Bigint) -> (r: Self) {
        Rsa3072::elem(x)
    }

    proof fn lemma_wf_in_group(&self) {
    }

    proof fn lemma_op_in_group(a: int, b: int) {
        lemma_canon_range(a * b);
    }

    proof fn lemma_exp_in_group(a: int, e: int) {
        if e >= 0 {
            lemma_canon_range(pow(a, e as nat));
        } else {
            lemma_canon_range(pow(rsa_minv(a), (-e) as nat));
        }
    }

    proof fn lemma_op_comm(a: int, b: int) {
        lemma_rsa_op_comm(a, b);
    }

    proof fn lemma_op_assoc(a: int, b: int, c: int) {
        lemma_rsa_op_assoc(a, b, c);
    }

    proof fn lemma_exp_add(a: int, e1: int, e2: int) {
        lemma_rsa_exp_add(a, e1, e2);
    }

    proof fn lemma_exp_exp(a: int, e1: int, e2: int) {
        lemma_rsa_exp_exp(a, e1, e2);
    }

    proof fn lemma_exp_exp_gen(a: int, e1: int, e2: int) {
        lemma_rsa_exp_exp_gen(a, e1, e2);
    }

    proof fn lemma_exp_add_gen(a: int, e1: int, e2: int) {
        lemma_rsa_exp_add_gen(a, e1, e2);
    }

    proof fn lemma_exp_distributes(a: int, b: int, e: int) {
        lemma_rsa_exp_distributes(a, b, e);
    }

    proof fn lemma_exp_one(a: int) {
        lemma_rsa_exp_one(a);
        lemma_canon_fixed(a);
    }

    proof fn lemma_exp_zero(a: int) {
        lemma_rsa_exp_zero(a);
    }

    proof fn lemma_op_id(a: int) {
        lemma_modulus_facts();
        assert(a * 1 == a) by {
            vstd::arithmetic::mul::lemma_mul_basics(a);
        }
        lemma_canon_fixed(a);
    }

    proof fn lemma_id_invertible() {
        lemma_modulus_facts();
        vstd::arithmetic::div_mod::lemma_small_mod(1nat, rsa_modulus() as nat);
        assert(0 <= 1int < rsa_modulus() && ((1int * 1int) % rsa_modulus()) == 1);
    }
}

} // verus!
