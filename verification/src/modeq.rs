use vstd::prelude::*;
use crate::bigint::{Bigint, le_val, bi_add, bi_mul, bytes_eq};
use crate::group::UnknownOrderGroup;
use crate::curve::{FieldElem, fe_add, fe_mul, mod_l, l_order, fadd, fmul};
use crate::transcript::{FsTranscript, challenge_of, msg_entry};
use crate::rand_src::{random_bytes, random_order};

verus! {

#[verifier::external_type_specification]
#[verifier::external_body]
pub struct ExRistrettoPoint(curve25519_dalek::ristretto::RistrettoPoint);

/// The sum of two points of the outer elliptic-curve group.
pub uninterp spec fn rp_sum(
    a: curve25519_dalek::ristretto::RistrettoPoint,
    b: curve25519_dalek::ristretto::RistrettoPoint,
) -> curve25519_dalek::ristretto::RistrettoPoint;

/// A point of the outer group multiplied by a scalar value.
pub uninterp spec fn rp_smul(
    s: int,
    p: curve25519_dalek::ristretto::RistrettoPoint,
) -> curve25519_dalek::ristretto::RistrettoPoint;

/// The canonical compressed encoding of a point: equal points and only
/// they compress to equal bytes.
pub uninterp spec fn rp_enc(p: curve25519_dalek::ristretto::RistrettoPoint) -> Seq<u8>;

/// Relies on curve25519_dalek RistrettoPoint addition.
#[verifier::external_body]
pub fn rp_add(
    a: &curve25519_dalek::ristretto::RistrettoPoint,
    b: &curve25519_dalek::ristretto::RistrettoPoint,
) -> (r: curve25519_dalek::ristretto::RistrettoPoint)
    ensures
        r == rp_sum(*a, *b),
{
    a + b
}

/// Relies on curve25519_dalek scalar multiplication; the scalar is the
/// canonical value of the field element.
#[verifier::external_body]
pub fn rp_mul(
    s: &FieldElem,
    p: &curve25519_dalek::ristretto::RistrettoPoint,
) -> (r: curve25519_dalek::ristretto::RistrettoPoint)
    requires
        s.fwf(),
    ensures
        r == rp_smul(s.fv(), *p),
{
    let mut arr = [0u8; 32];
    let bytes = crate::bigint::bi_min_bytes(&s.n);
    let mut i: usize = 0;
    while i < bytes.len() && i < 32 {
        arr[i] = bytes[i];
        i += 1;
    }
    let sc = curve25519_dalek::scalar::Scalar::from_bits(arr);
    sc * p
}

/// Relies on curve25519_dalek Ristretto compression: a canonical
/// encoding, equal for equal points only.
#[verifier::external_body]
pub fn rp_compress(p: &curve25519_dalek::ristretto::RistrettoPoint) -> (r: Vec<u8>)
    ensures
        r@ == rp_enc(*p),
        r@.len() == 32,
{
    p.compress().as_bytes().to_vec()
}

/// Relies on the fixed Ristretto base point constant.
#[verifier::external_body]
pub fn rp_basepoint() -> (r: curve25519_dalek::ristretto::RistrettoPoint)
{
    curve25519_dalek::constants::RISTRETTO_BASEPOINT_POINT
}

/// The point the outside hash-to-group map returns: a fixed function of
/// the input bytes alone.
pub uninterp spec fn rp_hash_point(data: Seq<u8>) -> curve25519_dalek::ristretto::RistrettoPoint;

/// Relies on curve25519_dalek hashing to a point: a fixed function of the
/// input bytes.
#[verifier::external_body]
pub fn rp_from_hash(data: &Vec<u8>) -> (r: curve25519_dalek::ristretto::RistrettoPoint)
    ensures
        r == rp_hash_point(data@),
{
    curve25519_dalek::ristretto::RistrettoPoint::hash_from_bytes::<sha2::Sha512>(
        data.as_slice())
}

/// Point equality through the canonical encodings.
pub fn rp_eq(
    a: &curve25519_dalek::ristretto::RistrettoPoint,
    b: &curve25519_dalek::ristretto::RistrettoPoint,
) -> (r: bool)
    ensures
        r == (rp_enc(*a) == rp_enc(*b)),
{
    let ea = rp_compress(a);
    let eb = rp_compress(b);
    bytes_eq(&ea, &eb)
}

/// A fresh scalar of the outer field from sixty-four random bytes.
pub fn fe_random() -> (r: FieldElem)
    ensures
        r.fwf(),
{
    let bytes = random_bytes(64);
    let n = Bigint::from_bytes_le(bytes);
    FieldElem { n: mod_l(&n) }
}

/// The domain separator of the cross-group equality transcript.
pub open spec fn modeq_domain() -> Seq<u8> {
    seq![90u8, 75, 95, 80, 79, 75, 95, 77, 79, 68, 69, 81]
}

pub fn modeq_domain_bytes() -> (r: Vec<u8>)
    ensures
        r@ == modeq_domain(),
{
    let v: Vec<u8> = vec![90u8, 75, 95, 80, 79, 75, 95, 77, 79, 68, 69, 81];
    proof {
        assert(v@ =~= modeq_domain());
    }
    v
}

/// The transcript log both sides build: domain, both commitments, both
/// first-round commitments.
pub open spec fn modeq_log(ce: Seq<u8>, ceq: Seq<u8>, a1: Seq<u8>, a2: Seq<u8>) -> Seq<Seq<u8>> {
    seq![
        msg_entry(modeq_domain()),
        msg_entry(ce),
        msg_entry(ceq),
        msg_entry(a1),
        msg_entry(a2),
    ]
}

/// The challenge derived from that log.
pub open spec fn modeq_challenge(ce: Seq<u8>, ceq: Seq<u8>, a1: Seq<u8>, a2: Seq<u8>) -> int {
    le_val(challenge_of(modeq_log(ce, ceq, a1, a2), 16))
}

/// A proof that the value inside a hidden-order-group commitment equals,
/// as a scalar, the value inside an elliptic-curve Pedersen commitment.
pub struct ModEqProof<G: UnknownOrderGroup> {
    pub alpha1: G,
    pub alpha2: curve25519_dalek::ristretto::RistrettoPoint,
    pub s_e: Bigint,
    pub s_r: Bigint,
    pub s_q: FieldElem,
}

/// The equality protocol instance: commitment generators on both sides.
pub struct RangeModEq<G: UnknownOrderGroup> {
    pub g1: G,
    pub h1: G,
    pub g2: curve25519_dalek::ristretto::RistrettoPoint,
    pub h2: curve25519_dalek::ristretto::RistrettoPoint,
}

impl<G: UnknownOrderGroup> ModEqProof<G> {
    pub open spec fn pwf(&self) -> bool {
        self.alpha1.wf() && self.s_e.wf() && self.s_r.wf() && self.s_q.fwf()
    }

    /// The abstract verification outcome: the hidden-order-group equation
    /// and the elliptic-curve equation, under the recomputed challenge.
    pub open spec fn sverify(
        &self,
        g1v: int,
        h1v: int,
        g2: curve25519_dalek::ristretto::RistrettoPoint,
        h2: curve25519_dalek::ristretto::RistrettoPoint,
        cev: int,
        ceq: curve25519_dalek::ristretto::RistrettoPoint,
    ) -> bool {
        let c = modeq_challenge(G::senc(cev), rp_enc(ceq), G::senc(self.alpha1.gv()),
            rp_enc(self.alpha2));
        (self.s_e@ >= 0 || G::sinvertible(g1v))
            && (self.s_r@ >= 0 || G::sinvertible(h1v))
            && G::sop(G::sexp(g1v, self.s_e@), G::sexp(h1v, self.s_r@))
                == G::sop(G::sexp(cev, c), self.alpha1.gv())
            && rp_enc(rp_sum(rp_smul(self.s_e@ % l_order(), g2), rp_smul(self.s_q.fv(), h2)))
                == rp_enc(rp_sum(rp_smul(c % l_order(), ceq), self.alpha2))
    }
}

impl<G: UnknownOrderGroup> RangeModEq<G> {
    pub open spec fn mwf(&self) -> bool {
        self.g1.wf() && self.h1.wf()
    }

    pub fn new(
        g1: &G,
        h1: &G,
        g2: &curve25519_dalek::ristretto::RistrettoPoint,
        h2: &curve25519_dalek::ristretto::RistrettoPoint,
    ) -> (r: Self)
        requires
            g1.wf(),
            h1.wf(),
        ensures
            r.mwf(),
            r.g1.gv() == g1.gv(),
            r.h1.gv() == h1.gv(),
            r.g2 == *g2,
            r.h2 == *h2,
    {
        RangeModEq { g1: g1.dup(), h1: h1.dup(), g2: *g2, h2: *h2 }
    }

    /// Runs the three-move protocol with fresh blinds and a transcript
    /// challenge: commit in both groups, derive the challenge, respond
    /// with the blinded linear combinations.
    pub fn prove(
        &self,
        c_e: &G,
        c_e_q: &curve25519_dalek::ristretto::RistrettoPoint,
        e: &Bigint,
        r_int: &Bigint,
        r_q: &FieldElem,
    ) -> (pf: ModEqProof<G>)
        requires
            self.mwf(),
            c_e.wf(),
            e.wf(),
            e@ >= 0,
            r_int.wf(),
            r_int@ >= 0,
            r_q.fwf(),
        ensures
            pf.pwf(),
            pf.s_e@ >= 0,
            pf.s_r@ >= 0,
            exists|re: int, rr: int, rq2: int|
                0 <= re && 0 <= rr && 0 <= rq2 < l_order()
                && #[trigger] modeq_honest::<G>(pf, self.g1.gv(), self.h1.gv(),
                    self.g2, self.h2, c_e.gv(), *c_e_q, e@, r_int@, r_q.fv(), re, rr, rq2),
    {
        // blinds on both sides
        let re = random_order::<G>();
        let rr = random_order::<G>();
        let rq2 = fe_random();

        // first-round commitments
        let alpha1 = self.g1.exp(&re).op(&self.h1.exp(&rr));
        let re_f = FieldElem { n: mod_l(&re) };
        let alpha2 = rp_add(&rp_mul(&re_f, &self.g2), &rp_mul(&rq2, &self.h2));

        // the challenge
        let enc_ce = c_e.to_bytes();
        let enc_ceq = rp_compress(c_e_q);
        let enc_a1 = alpha1.to_bytes();
        let enc_a2 = rp_compress(&alpha2);
        let mut t = FsTranscript::new_with_domain(&modeq_domain_bytes());
        t.append_bytes(&enc_ce);
        t.append_bytes(&enc_ceq);
        t.append_bytes(&enc_a1);
        t.append_bytes(&enc_a2);
        proof {
            assert(t.log_view() =~= modeq_log(G::senc(c_e.gv()), rp_enc(*c_e_q),
                G::senc(alpha1.gv()), rp_enc(alpha2)));
        }
        let c = t.challenge_int(16);

        // responses: integers on the hidden-order side, a scalar modulo
        // the curve order on the other
        let s_e = bi_add(&re, &bi_mul(&c, e));
        let s_r = bi_add(&rr, &bi_mul(&c, r_int));
        let c_f = FieldElem { n: mod_l(&c) };
        let s_q = fe_add(&rq2, &fe_mul(&c_f, r_q));
        proof {
            vstd::arithmetic::mul::lemma_mul_nonnegative(c@, e@);
            vstd::arithmetic::mul::lemma_mul_nonnegative(c@, r_int@);
        }
        let pf = ModEqProof { alpha1, alpha2, s_e, s_r, s_q };
        proof {
            assert(modeq_honest::<G>(pf, self.g1.gv(), self.h1.gv(), self.g2, self.h2,
                c_e.gv(), *c_e_q, e@, r_int@, r_q.fv(), re@, rr@, rq2.fv()));
        }
        pf
    }

    /// Recomputes the challenge and checks both verification equations.
    pub fn verify(
        &self,
        c_e: &G,
        c_e_q: &curve25519_dalek::ristretto::RistrettoPoint,
        pf: &ModEqProof<G>,
    ) -> (r: bool)
        requires
            self.mwf(),
            c_e.wf(),
            pf.pwf(),
        ensures
            r == pf.sverify(self.g1.gv(), self.h1.gv(), self.g2, self.h2, c_e.gv(), *c_e_q),
    {
        let enc_ce = c_e.to_bytes();
        let enc_ceq = rp_compress(c_e_q);
        let enc_a1 = pf.alpha1.to_bytes();
        let enc_a2 = rp_compress(&pf.alpha2);
        let mut t = FsTranscript::new_with_domain(&modeq_domain_bytes());
        t.append_bytes(&enc_ce);
        t.append_bytes(&enc_ceq);
        t.append_bytes(&enc_a1);
        t.append_bytes(&enc_a2);
        proof {
            assert(t.log_view() =~= modeq_log(G::senc(c_e.gv()), rp_enc(*c_e_q),
                G::senc(pf.alpha1.gv()), rp_enc(pf.alpha2)));
        }
        let c = t.challenge_int(16);

        // sign guards for the hidden-order-group exponents
        if pf.s_e.neg && !pf.s_e.is_zero() && !self.g1.invertible() {
            proof {
                crate::bigint::lemma_le_val_nonneg(pf.s_e.mag@);
            }
            return false;
        }
        if pf.s_r.neg && !pf.s_r.is_zero() && !self.h1.invertible() {
            proof {
                crate::bigint::lemma_le_val_nonneg(pf.s_r.mag@);
            }
            return false;
        }
        proof {
            crate::bigint::lemma_le_val_nonneg(pf.s_e.mag@);
            crate::bigint::lemma_le_val_nonneg(pf.s_r.mag@);
        }

        // hidden-order-group equation
        let lhs1 = self.g1.exp(&pf.s_e).op(&self.h1.exp(&pf.s_r));
        let rhs1 = c_e.exp(&c).op(&pf.alpha1);
        if !lhs1.eq_elem(&rhs1) {
            return false;
        }

        // elliptic-curve equation
        let se_f = FieldElem { n: mod_l(&pf.s_e) };
        let c_f = FieldElem { n: mod_l(&c) };
        let lhs2 = rp_add(&rp_mul(&se_f, &self.g2), &rp_mul(&pf.s_q, &self.h2));
        let rhs2 = rp_add(&rp_mul(&c_f, c_e_q), &pf.alpha2);
        rp_eq(&lhs2, &rhs2)
    }
}

/// What an honest prover with witness (e, r, r_q) and blinds (re, rr, rq2)
/// produces.
pub open spec fn modeq_honest<G: UnknownOrderGroup>(
    pf: ModEqProof<G>,
    g1v: int,
    h1v: int,
    g2: curve25519_dalek::ristretto::RistrettoPoint,
    h2: curve25519_dalek::ristretto::RistrettoPoint,
    cev: int,
    ceq: curve25519_dalek::ristretto::RistrettoPoint,
    e: int,
    r_int: int,
    r_q: int,
    re: int,
    rr: int,
    rq2: int,
) -> bool {
    let c = modeq_challenge(G::senc(cev), rp_enc(ceq), G::senc(pf.alpha1.gv()),
        rp_enc(pf.alpha2));
    pf.alpha1.gv() == G::sop(G::sexp(g1v, re), G::sexp(h1v, rr))
        && pf.alpha2 == rp_sum(rp_smul(re % l_order(), g2), rp_smul(rq2, h2))
        && pf.s_e@ == re + c * e
        && pf.s_r@ == rr + c * r_int
        && pf.s_q.fv() == fadd(rq2, fmul(c % l_order(), r_q))
}

/// Four factors regroup freely under a commutative, associative law.
pub proof fn lemma_op_shuffle<G: UnknownOrderGroup>(a: int, b: int, c: int, d: int)
    ensures
        G::sop(G::sop(a, b), G::sop(c, d)) == G::sop(G::sop(a, c), G::sop(b, d)),
{
    G::lemma_op_assoc(a, b, G::sop(c, d));
    G::lemma_op_assoc(b, c, d);
    G::lemma_op_comm(b, c);
    G::lemma_op_assoc(c, b, d);
    G::lemma_op_assoc(a, c, G::sop(b, d));
}

/// Completeness of the hidden-order-group side of the equality protocol:
/// an honest first-round commitment and honest responses satisfy the
/// verification equation, whatever the challenge came out to be.
pub proof fn lemma_modeq_int_completeness<G: UnknownOrderGroup>(
    g1v: int, h1v: int, e: int, r_int: int, re: int, rr: int, c: int,
)
    requires
        e >= 0,
        r_int >= 0,
        re >= 0,
        rr >= 0,
        c >= 0,
    ensures
        G::sop(G::sexp(g1v, re + c * e), G::sexp(h1v, rr + c * r_int))
            == G::sop(
                G::sexp(G::sop(G::sexp(g1v, e), G::sexp(h1v, r_int)), c),
                G::sop(G::sexp(g1v, re), G::sexp(h1v, rr)),
            ),
{
    vstd::arithmetic::mul::lemma_mul_nonnegative(c, e);
    vstd::arithmetic::mul::lemma_mul_nonnegative(c, r_int);
    G::lemma_exp_add(g1v, re, c * e);
    G::lemma_exp_add(h1v, rr, c * r_int);
    // regroup the four powers
    lemma_op_shuffle::<G>(G::sexp(g1v, re), G::sexp(g1v, c * e),
        G::sexp(h1v, rr), G::sexp(h1v, c * r_int));
    // fold the challenge powers into one power of the commitment
    G::lemma_exp_exp(g1v, e, c);
    G::lemma_exp_exp(h1v, r_int, c);
    assert(e * c == c * e) by {
        vstd::arithmetic::mul::lemma_mul_is_commutative(e, c);
    }
    assert(r_int * c == c * r_int) by {
        vstd::arithmetic::mul::lemma_mul_is_commutative(r_int, c);
    }
    G::lemma_exp_distributes(G::sexp(g1v, e), G::sexp(h1v, r_int), c);
    G::lemma_op_comm(
        G::sexp(G::sop(G::sexp(g1v, e), G::sexp(h1v, r_int)), c),
        G::sop(G::sexp(g1v, re), G::sexp(h1v, rr)),
    );
}

/// An honest equality proof over a true commitment satisfies the
/// hidden-order-group verification equation; the elliptic-curve equation
/// is checked at run time against the outside group.
pub proof fn lemma_modeq_complete_int<G: UnknownOrderGroup>(
    pf: ModEqProof<G>,
    g1v: int,
    h1v: int,
    g2: curve25519_dalek::ristretto::RistrettoPoint,
    h2: curve25519_dalek::ristretto::RistrettoPoint,
    cev: int,
    ceq: curve25519_dalek::ristretto::RistrettoPoint,
    e: int, r_int: int, r_q: int, re: int, rr: int, rq2: int,
)
    requires
        modeq_honest::<G>(pf, g1v, h1v, g2, h2, cev, ceq, e, r_int, r_q, re, rr, rq2),
        cev == G::sop(G::sexp(g1v, e), G::sexp(h1v, r_int)),
        e >= 0,
        r_int >= 0,
        re >= 0,
        rr >= 0,
    ensures
        G::sop(G::sexp(g1v, pf.s_e@), G::sexp(h1v, pf.s_r@))
            == G::sop(G::sexp(cev,
                    modeq_challenge(G::senc(cev), rp_enc(ceq), G::senc(pf.alpha1.gv()),
                        rp_enc(pf.alpha2))),
                pf.alpha1.gv()),
{
    let c = modeq_challenge(G::senc(cev), rp_enc(ceq), G::senc(pf.alpha1.gv()),
        rp_enc(pf.alpha2));
    crate::bigint::lemma_le_val_nonneg(crate::transcript::challenge_of(
        modeq_log(G::senc(cev), rp_enc(ceq), G::senc(pf.alpha1.gv()), rp_enc(pf.alpha2)), 16));
    lemma_modeq_int_completeness::<G>(g1v, h1v, e, r_int, re, rr, c);
}

} // verus!
