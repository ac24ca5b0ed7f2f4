use vstd::prelude::*;
use vstd::math::abs;
use crate::bigint::{Bigint, le_val, bi_add, bi_mul, bi_divrem, next_prime_of};
use crate::group::UnknownOrderGroup;
use crate::transcript::{FsTranscript, challenge_of, msg_entry, chal_entry};
use crate::rand_src::random_order;

verus! {

/// Challenge width in bytes: 128 bits of statistical security.
pub const REP_CHALLENGE_BYTES: usize = 16;

/// The domain separator of the representation-proof transcript.
pub open spec fn zkpokrep_domain() -> Seq<u8> {
    seq![90u8, 75, 95, 80, 79, 75, 95, 82, 69, 80]
}

pub fn zkpokrep_domain_bytes() -> (r: Vec<u8>)
    ensures
        r@ == zkpokrep_domain(),
{
    let v: Vec<u8> = vec![90u8, 75, 95, 80, 79, 75, 95, 82, 69, 80];
    proof {
        assert(v@ =~= zkpokrep_domain());
    }
    v
}

/// The transcript log both sides build: the domain separator, then the
/// first-round commitment, the target, and both generators.
pub open spec fn zk_log(a_enc: Seq<u8>, y_enc: Seq<u8>, g1_enc: Seq<u8>, g2_enc: Seq<u8>)
    -> Seq<Seq<u8>> {
    seq![
        msg_entry(zkpokrep_domain()),
        msg_entry(a_enc),
        msg_entry(y_enc),
        msg_entry(g1_enc),
        msg_entry(g2_enc),
    ]
}

/// The challenge scalar derived from that log.
pub open spec fn zk_challenge(a_enc: Seq<u8>, y_enc: Seq<u8>, g1_enc: Seq<u8>, g2_enc: Seq<u8>)
    -> int {
    le_val(challenge_of(zk_log(a_enc, y_enc, g1_enc, g2_enc), REP_CHALLENGE_BYTES as nat))
}

/// The prime derived right after the challenge.
pub open spec fn zk_prime(a_enc: Seq<u8>, y_enc: Seq<u8>, g1_enc: Seq<u8>, g2_enc: Seq<u8>)
    -> int {
    next_prime_of(le_val(challenge_of(
        zk_log(a_enc, y_enc, g1_enc, g2_enc).push(chal_entry(REP_CHALLENGE_BYTES as nat)),
        REP_CHALLENGE_BYTES as nat,
    )))
}

/// A zero-knowledge proof of knowledge of a representation: exponents
/// (x1, x2) with `y = g1^x1 * g2^x2`. The responses are reduced modulo a
/// transcript-derived prime; `q_elem` compensates for the dropped
/// quotients, so the proof stays small however large the true exponents.
pub struct ZKPokRep<G: UnknownOrderGroup> {
    pub a_comm: G,
    pub q_elem: G,
    pub r1: Bigint,
    pub r2: Bigint,
}

impl<G: UnknownOrderGroup> ZKPokRep<G> {
    pub open spec fn zwf(&self) -> bool {
        self.a_comm.wf() && self.q_elem.wf() && self.r1.wf() && self.r2.wf()
    }

    /// What an honest prover with witness (x1, x2), first-round randomness
    /// (a1, a2) and response quotients (q1, q2) produces.
    pub open spec fn honest(&self, g1v: int, g2v: int, yv: int, x1: int, x2: int,
        a1: int, a2: int, q1: int, q2: int) -> bool {
        let c = zk_challenge(G::senc(self.a_comm.gv()), G::senc(yv), G::senc(g1v), G::senc(g2v));
        let p = zk_prime(G::senc(self.a_comm.gv()), G::senc(yv), G::senc(g1v), G::senc(g2v));
        let z1 = c * x1 + a1;
        let z2 = c * x2 + a2;
        self.a_comm.gv() == G::sop(G::sexp(g1v, a1), G::sexp(g2v, a2))
            && z1 == q1 * p + self.r1@ && abs(self.r1@) < p
            && (self.r1@ == 0 || ((self.r1@ < 0) <==> (z1 < 0)))
            && z2 == q2 * p + self.r2@ && abs(self.r2@) < p
            && (self.r2@ == 0 || ((self.r2@ < 0) <==> (z2 < 0)))
            && self.q_elem.gv() == G::sop(G::sexp(g1v, q1), G::sexp(g2v, q2))
    }

    /// The abstract verification outcome: guard the exponent signs, then
    /// check the single group equation with the recomputed challenge and
    /// prime.
    pub open spec fn sverify(&self, g1v: int, g2v: int, yv: int) -> bool {
        let c = zk_challenge(G::senc(self.a_comm.gv()), G::senc(yv), G::senc(g1v), G::senc(g2v));
        let p = zk_prime(G::senc(self.a_comm.gv()), G::senc(yv), G::senc(g1v), G::senc(g2v));
        (self.r1@ >= 0 || G::sinvertible(g1v))
            && (self.r2@ >= 0 || G::sinvertible(g2v))
            && G::sop(G::sexp(self.q_elem.gv(), p),
                   G::sop(G::sexp(g1v, self.r1@), G::sexp(g2v, self.r2@)))
               == G::sop(G::sexp(yv, c), self.a_comm.gv())
    }

    /// Proves knowledge of (x1, x2) with `y = g1^x1 * g2^x2`. The second
    /// witness may be negative, so the second generator must be invertible.
    pub fn new(g1: &G, g2: &G, y: &G, x1: &Bigint, x2: &Bigint) -> (r: Self)
        requires
            g1.wf(),
            g2.wf(),
            y.wf(),
            x1.wf(),
            x2.wf(),
            x1@ >= 0,
            x2@ < 0 ==> G::sinvertible(g2.gv()),
        ensures
            r.zwf(),
            exists|a1: int, a2: int, q1: int, q2: int|
                0 <= a1 && 0 <= a2
                && #[trigger] r.honest(g1.gv(), g2.gv(), y.gv(), x1@, x2@, a1, a2, q1, q2),
    {
        let a1 = random_order::<G>();
        let a2 = random_order::<G>();
        let a_comm = g1.exp(&a1).op(&g2.exp(&a2));

        let mut t = FsTranscript::new_with_domain(&zkpokrep_domain_bytes());
        t.append_elem::<G>(&a_comm);
        t.append_elem::<G>(y);
        t.append_elem::<G>(g1);
        t.append_elem::<G>(g2);
        proof {
            assert(t.log_view() =~= zk_log(G::senc(a_comm.gv()), G::senc(y.gv()),
                G::senc(g1.gv()), G::senc(g2.gv())));
        }
        let c = t.challenge_int(REP_CHALLENGE_BYTES);
        let p = t.challenge_prime(REP_CHALLENGE_BYTES);

        let z1 = bi_add(&bi_mul(&c, x1), &a1);
        let z2 = bi_add(&bi_mul(&c, x2), &a2);

        let (q1, r1) = bi_divrem(&z1, &p);
        let (q2, r2) = bi_divrem(&z2, &p);
        proof {
            // the first witness and all randomness are non-negative, so the
            // first response and its quotient are non-negative
            vstd::arithmetic::mul::lemma_mul_nonnegative(c@, x1@);
            if q1@ < 0 {
                assert(q1@ * p@ <= -1 * p@) by {
                    vstd::arithmetic::mul::lemma_mul_inequality(q1@, -1, p@);
                    vstd::arithmetic::mul::lemma_mul_is_commutative(q1@, p@);
                    vstd::arithmetic::mul::lemma_mul_is_commutative(-1, p@);
                }
                assert(false);
            }
            if q2@ < 0 {
                // a negative quotient means a negative second response,
                // which only happens when the second witness is negative
                if z2@ >= 0 {
                    assert(q2@ * p@ <= -1 * p@) by {
                        vstd::arithmetic::mul::lemma_mul_inequality(q2@, -1, p@);
                        vstd::arithmetic::mul::lemma_mul_is_commutative(q2@, p@);
                        vstd::arithmetic::mul::lemma_mul_is_commutative(-1, p@);
                    }
                    assert(false);
                }
                if x2@ >= 0 {
                    vstd::arithmetic::mul::lemma_mul_nonnegative(c@, x2@);
                    assert(false);
                }
            }
        }
        let q_elem = g1.exp(&q1).op(&g2.exp(&q2));
        let r = ZKPokRep { a_comm, q_elem, r1, r2 };
        proof {
            assert(r.honest(g1.gv(), g2.gv(), y.gv(), x1@, x2@, a1@, a2@, q1@, q2@));
        }
        r
    }

    /// Recomputes the challenge and prime from the transcript and checks
    /// the verification equation; rejects responses whose sign the
    /// generators cannot support.
    pub fn verify(&self, g1: &G, g2: &G, y: &G) -> (r: bool)
        requires
            self.zwf(),
            g1.wf(),
            g2.wf(),
            y.wf(),
        ensures
            r == self.sverify(g1.gv(), g2.gv(), y.gv()),
    {
        let mut t = FsTranscript::new_with_domain(&zkpokrep_domain_bytes());
        t.append_elem::<G>(&self.a_comm);
        t.append_elem::<G>(y);
        t.append_elem::<G>(g1);
        t.append_elem::<G>(g2);
        proof {
            assert(t.log_view() =~= zk_log(G::senc(self.a_comm.gv()), G::senc(y.gv()),
                G::senc(g1.gv()), G::senc(g2.gv())));
        }
        let c = t.challenge_int(REP_CHALLENGE_BYTES);
        let p = t.challenge_prime(REP_CHALLENGE_BYTES);

        if self.r1.neg && !self.r1.is_zero() && !g1.invertible() {
            proof {
                crate::bigint::lemma_le_val_nonneg(self.r1.mag@);
            }
            return false;
        }
        if self.r2.neg && !self.r2.is_zero() && !g2.invertible() {
            proof {
                crate::bigint::lemma_le_val_nonneg(self.r2.mag@);
            }
            return false;
        }
        proof {
            crate::bigint::lemma_le_val_nonneg(self.r1.mag@);
            crate::bigint::lemma_le_val_nonneg(self.r2.mag@);
        }

        let yc = y.exp(&c);
        let qp = self.q_elem.exp(&p);
        let g1r1 = g1.exp(&self.r1);
        let g2r2 = g2.exp(&self.r2);

        let right = qp.op(&g1r1.op(&g2r2));
        let left = yc.op(&self.a_comm);

        right.eq_elem(&left)
    }
}

/// The algebraic core of the representation sigma protocol: whenever the
/// target is a true representation, the reduced responses together with
/// the compensator reconstitute the full responses, so the verification
/// equation holds. The first witness, blind and response are
/// non-negative; the second generator is invertible, so its exponents may
/// carry any sign.
pub proof fn lemma_sigma_representation<G: UnknownOrderGroup>(
    g1v: int, g2v: int, yv: int, x1: int, x2: int, a1: int, a2: int,
    c: int, p: int, q1: int, q2: int, r1: int, r2: int,
)
    requires
        yv == G::sop(G::sexp(g1v, x1), G::sexp(g2v, x2)),
        G::sinvertible(g2v),
        x1 >= 0,
        a1 >= 0,
        c >= 0,
        p > 0,
        c * x1 + a1 == q1 * p + r1,
        0 <= r1 < p,
        c * x2 + a2 == q2 * p + r2,
    ensures
        G::sop(G::sexp(G::sop(G::sexp(g1v, q1), G::sexp(g2v, q2)), p),
            G::sop(G::sexp(g1v, r1), G::sexp(g2v, r2)))
        == G::sop(G::sexp(yv, c), G::sop(G::sexp(g1v, a1), G::sexp(g2v, a2))),
{
    let z1 = c * x1 + a1;
    let z2 = c * x2 + a2;
    vstd::arithmetic::mul::lemma_mul_nonnegative(c, x1);
    assert(z1 >= 0);
    assert(q1 >= 0) by {
        if q1 < 0 {
            assert(q1 * p <= -1 * p) by {
                vstd::arithmetic::mul::lemma_mul_inequality(q1, -1, p);
                vstd::arithmetic::mul::lemma_mul_is_commutative(q1, p);
                vstd::arithmetic::mul::lemma_mul_is_commutative(-1, p);
            }
        }
    }

    let lq1 = G::sexp(g1v, q1 * p);
    let lq2 = G::sexp(g2v, q2 * p);
    let lr1 = G::sexp(g1v, r1);
    let lr2 = G::sexp(g2v, r2);

    // the compensator raised to the prime splits over the generators
    G::lemma_exp_distributes(G::sexp(g1v, q1), G::sexp(g2v, q2), p);
    G::lemma_exp_exp(g1v, q1, p);
    G::lemma_exp_exp_gen(g2v, q2, p);

    // regroup with the reduced responses and fold each generator's powers
    crate::modeq::lemma_op_shuffle::<G>(lq1, lq2, lr1, lr2);
    vstd::arithmetic::mul::lemma_mul_nonnegative(q1, p);
    G::lemma_exp_add(g1v, q1 * p, r1);
    G::lemma_exp_add_gen(g2v, q2 * p, r2);

    // unfold each response into the challenge part and the blind part
    G::lemma_exp_add(g1v, c * x1, a1);
    G::lemma_exp_add_gen(g2v, c * x2, a2);
    crate::modeq::lemma_op_shuffle::<G>(
        G::sexp(g1v, c * x1), G::sexp(g1v, a1), G::sexp(g2v, c * x2), G::sexp(g2v, a2));

    // the challenge parts are the statement raised to the challenge
    G::lemma_exp_exp(g1v, x1, c);
    G::lemma_exp_exp_gen(g2v, x2, c);
    assert(x1 * c == c * x1) by {
        vstd::arithmetic::mul::lemma_mul_is_commutative(x1, c);
    }
    assert(x2 * c == c * x2) by {
        vstd::arithmetic::mul::lemma_mul_is_commutative(x2, c);
    }
    G::lemma_exp_distributes(G::sexp(g1v, x1), G::sexp(g2v, x2), c);
}

/// Completeness of the representation proof: an honestly produced proof
/// over a true representation satisfies the verification equation,
/// whatever the challenge and prime came out to be.
pub proof fn lemma_zkpokrep_complete<G: UnknownOrderGroup>(
    pf: ZKPokRep<G>, g1v: int, g2v: int, yv: int, x1: int, x2: int,
    a1: int, a2: int, q1: int, q2: int,
)
    requires
        pf.honest(g1v, g2v, yv, x1, x2, a1, a2, q1, q2),
        yv == G::sop(G::sexp(g1v, x1), G::sexp(g2v, x2)),
        x1 >= 0,
        a1 >= 0,
        a2 >= 0,
        G::sinvertible(g2v),
    ensures
        pf.sverify(g1v, g2v, yv),
{
    let c = zk_challenge(G::senc(pf.a_comm.gv()), G::senc(yv), G::senc(g1v), G::senc(g2v));
    let p = zk_prime(G::senc(pf.a_comm.gv()), G::senc(yv), G::senc(g1v), G::senc(g2v));
    crate::bigint::lemma_le_val_nonneg(challenge_of(
        zk_log(G::senc(pf.a_comm.gv()), G::senc(yv), G::senc(g1v), G::senc(g2v)),
        REP_CHALLENGE_BYTES as nat));
    vstd::arithmetic::mul::lemma_mul_nonnegative(c, x1);
    assert(pf.r1@ >= 0);
    lemma_sigma_representation::<G>(g1v, g2v, yv, x1, x2, a1, a2, c, p,
        q1, q2, pf.r1@, pf.r2@);
}

} // verus!