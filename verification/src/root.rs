use vstd::prelude::*;
use crate::bigint::{Bigint, le_val, bi_add, bi_mul, bi_divrem, next_prime_of};
use crate::group::UnknownOrderGroup;
use crate::transcript::{FsTranscript, challenge_of, msg_entry, chal_entry};
use crate::rand_src::random_order;

verus! {

/// Challenge width in bytes: 128 bits of statistical security.
pub const ROOT_CHALLENGE_BYTES: usize = 16;

/// The domain separator of the accumulator-opening transcript.
pub open spec fn root_domain() -> Seq<u8> {
    seq![90u8, 75, 95, 80, 79, 75, 95, 82, 79, 79, 84]
}

pub fn root_domain_bytes() -> (r: Vec<u8>)
    ensures
        r@ == root_domain(),
{
    let v: Vec<u8> = vec![90u8, 75, 95, 80, 79, 75, 95, 82, 79, 79, 84];
    proof {
        assert(v@ =~= root_domain());
    }
    v
}

/// The transcript log both sides build: the domain separator, the
/// commitment, the accumulator value, the blinded witness, and the two
/// first-round commitments.
pub open spec fn root_log(ce: Seq<u8>, acc: Seq<u8>, cw: Seq<u8>, a1: Seq<u8>, a2: Seq<u8>)
    -> Seq<Seq<u8>> {
    seq![
        msg_entry(root_domain()),
        msg_entry(ce),
        msg_entry(acc),
        msg_entry(cw),
        msg_entry(a1),
        msg_entry(a2),
    ]
}

pub open spec fn root_challenge(ce: Seq<u8>, acc: Seq<u8>, cw: Seq<u8>, a1: Seq<u8>, a2: Seq<u8>)
    -> int {
    le_val(challenge_of(root_log(ce, acc, cw, a1, a2), ROOT_CHALLENGE_BYTES as nat))
}

pub open spec fn root_prime(ce: Seq<u8>, acc: Seq<u8>, cw: Seq<u8>, a1: Seq<u8>, a2: Seq<u8>)
    -> int {
    next_prime_of(le_val(challenge_of(
        root_log(ce, acc, cw, a1, a2).push(chal_entry(ROOT_CHALLENGE_BYTES as nat)),
        ROOT_CHALLENGE_BYTES as nat,
    )))
}

/// A proof that a committed exponent opens the accumulator: the prover
/// knows `e`, `r` and a witness `w` with `c_e = g^e h^r` and `w^e = acc`.
/// The witness travels blinded as `c_w = w * h^{r_w}`; the relation
/// `acc = c_w^e * h^{-(e r_w)}` is then proved alongside the commitment
/// relation, with both responses reduced modulo a transcript-derived
/// prime and compensated by the elements `q1` and `q2`.
pub struct RootProof<G: UnknownOrderGroup> {
    pub c_w: G,
    pub alpha1: G,
    pub alpha2: G,
    pub q1: G,
    pub q2: G,
    pub z_e: Bigint,
    pub z_r: Bigint,
    pub z_s: Bigint,
}

/// The statement: a commitment to the exponent, and the accumulator
/// value it is claimed to open.
pub struct RootStatement<G: UnknownOrderGroup> {
    pub c_e: G,
    pub acc: G,
}

/// The private opening: the exponent, the commitment randomness, and the
/// accumulator witness.
pub struct RootWitness<G: UnknownOrderGroup> {
    pub e: Bigint,
    pub r: Bigint,
    pub w: G,
}

/// The protocol instance: the two commitment generators.
pub struct RootProtocol<G: UnknownOrderGroup> {
    pub g: G,
    pub h: G,
}

impl<G: UnknownOrderGroup> RootProof<G> {
    pub open spec fn rwf(&self) -> bool {
        self.c_w.wf() && self.alpha1.wf() && self.alpha2.wf() && self.q1.wf() && self.q2.wf()
            && self.z_e.wf() && self.z_r.wf() && self.z_s.wf()
    }

    /// What an honest prover with witness (e, r, w), witness blinding
    /// `rw`, first-round blinds (be, br, bs) and response quotients
    /// (qe, qr, qs) produces.
    pub open spec fn honest(&self, gv: int, hv: int, cev: int, accv: int,
        e: int, r: int, wv: int, rw: int, be: int, br: int, bs: int,
        qe: int, qr: int, qs: int) -> bool {
        let c = root_challenge(G::senc(cev), G::senc(accv), G::senc(self.c_w.gv()),
            G::senc(self.alpha1.gv()), G::senc(self.alpha2.gv()));
        let p = root_prime(G::senc(cev), G::senc(accv), G::senc(self.c_w.gv()),
            G::senc(self.alpha1.gv()), G::senc(self.alpha2.gv()));
        self.c_w.gv() == G::sop(wv, G::sexp(hv, rw))
            && self.alpha1.gv() == G::sop(G::sexp(gv, be), G::sexp(hv, br))
            && self.alpha2.gv() == G::sop(G::sexp(self.c_w.gv(), be), G::sexp(hv, -bs))
            && c * e + be == qe * p + self.z_e@ && 0 <= self.z_e@ < p
            && c * r + br == qr * p + self.z_r@ && 0 <= self.z_r@ < p
            && c * (e * rw) + bs == qs * p + self.z_s@ && 0 <= self.z_s@ < p
            && self.q1.gv() == G::sop(G::sexp(gv, qe), G::sexp(hv, qr))
            && self.q2.gv() == G::sop(G::sexp(self.c_w.gv(), qe), G::sexp(hv, -qs))
    }

    /// The abstract verification outcome: both compensated equations
    /// under the recomputed challenge and prime.
    pub open spec fn sverify(&self, gv: int, hv: int, cev: int, accv: int) -> bool {
        let c = root_challenge(G::senc(cev), G::senc(accv), G::senc(self.c_w.gv()),
            G::senc(self.alpha1.gv()), G::senc(self.alpha2.gv()));
        let p = root_prime(G::senc(cev), G::senc(accv), G::senc(self.c_w.gv()),
            G::senc(self.alpha1.gv()), G::senc(self.alpha2.gv()));
        G::sinvertible(hv)
            && (self.z_e@ >= 0 || (G::sinvertible(gv) && G::sinvertible(self.c_w.gv())))
            && G::sop(G::sexp(self.q1.gv(), p),
                   G::sop(G::sexp(gv, self.z_e@), G::sexp(hv, self.z_r@)))
               == G::sop(G::sexp(cev, c), self.alpha1.gv())
            && G::sop(G::sexp(self.q2.gv(), p),
                   G::sop(G::sexp(self.c_w.gv(), self.z_e@), G::sexp(hv, -self.z_s@)))
               == G::sop(G::sexp(accv, c), self.alpha2.gv())
    }
}

impl<G: UnknownOrderGroup> RootProtocol<G> {
    pub open spec fn protwf(&self) -> bool {
        self.g.wf() && self.h.wf() && G::sinvertible(self.h.gv())
    }

    pub fn new(g: &G, h: &G) -> (r: Self)
        requires
            g.wf(),
            h.wf(),
            G::sinvertible(h.gv()),
        ensures
            r.protwf(),
            r.g.gv() == g.gv(),
            r.h.gv() == h.gv(),
    {
        RootProtocol { g: g.dup(), h: h.dup() }
    }

    /// Proves the opening: blind the witness, commit to blinds for the
    /// exponent, the randomness, and the cross term, derive the challenge
    /// and prime, and respond with reduced linear combinations.
    pub fn prove(&self, st: &RootStatement<G>, wit: &RootWitness<G>) -> (pf: RootProof<G>)
        requires
            self.protwf(),
            st.c_e.wf(),
            st.acc.wf(),
            wit.e.wf(),
            wit.e@ >= 0,
            wit.r.wf(),
            wit.r@ >= 0,
            wit.w.wf(),
        ensures
            pf.rwf(),
            exists|rw: int, be: int, br: int, bs: int, qe: int, qr: int, qs: int|
                0 <= rw && 0 <= be && 0 <= br && 0 <= bs
                && #[trigger] pf.honest(self.g.gv(), self.h.gv(), st.c_e.gv(), st.acc.gv(),
                    wit.e@, wit.r@, wit.w.gv(), rw, be, br, bs, qe, qr, qs),
    {
        // blind the witness
        let r_w = random_order::<G>();
        let c_w = wit.w.op(&self.h.exp(&r_w));
        // the cross term folded into the second relation
        let s = bi_mul(&wit.e, &r_w);
        proof {
            vstd::arithmetic::mul::lemma_mul_nonnegative(wit.e@, r_w@);
        }

        // first-round blinds
        let be = random_order::<G>();
        let br = random_order::<G>();
        let bs = random_order::<G>();
        let alpha1 = self.g.exp(&be).op(&self.h.exp(&br));
        let bs_neg = bs.clone().negate();
        let alpha2 = c_w.exp(&be).op(&self.h.exp(&bs_neg));

        // the challenge and the reduction prime
        let mut t = FsTranscript::new_with_domain(&root_domain_bytes());
        t.append_elem::<G>(&st.c_e);
        t.append_elem::<G>(&st.acc);
        t.append_elem::<G>(&c_w);
        t.append_elem::<G>(&alpha1);
        t.append_elem::<G>(&alpha2);
        proof {
            assert(t.log_view() =~= root_log(G::senc(st.c_e.gv()), G::senc(st.acc.gv()),
                G::senc(c_w.gv()), G::senc(alpha1.gv()), G::senc(alpha2.gv())));
        }
        let c = t.challenge_int(ROOT_CHALLENGE_BYTES);
        let p = t.challenge_prime(ROOT_CHALLENGE_BYTES);

        // responses, reduced modulo the prime with compensators
        let full_e = bi_add(&be, &bi_mul(&c, &wit.e));
        let full_r = bi_add(&br, &bi_mul(&c, &wit.r));
        let full_s = bi_add(&bs, &bi_mul(&c, &s));
        let (qe, z_e) = bi_divrem(&full_e, &p);
        let (qr, z_r) = bi_divrem(&full_r, &p);
        let (qs, z_s) = bi_divrem(&full_s, &p);
        proof {
            vstd::arithmetic::mul::lemma_mul_nonnegative(c@, wit.e@);
            vstd::arithmetic::mul::lemma_mul_nonnegative(c@, wit.r@);
            vstd::arithmetic::mul::lemma_mul_nonnegative(c@, s@);
            if qe@ < 0 {
                assert(qe@ * p@ <= -1 * p@) by {
                    vstd::arithmetic::mul::lemma_mul_inequality(qe@, -1, p@);
                    vstd::arithmetic::mul::lemma_mul_is_commutative(qe@, p@);
                    vstd::arithmetic::mul::lemma_mul_is_commutative(-1, p@);
                }
                assert(false);
            }
        }
        let qs_neg = qs.clone().negate();
        let q1 = self.g.exp(&qe).op(&self.h.exp(&qr));
        let q2 = c_w.exp(&qe).op(&self.h.exp(&qs_neg));

        let pf = RootProof { c_w, alpha1, alpha2, q1, q2, z_e, z_r, z_s };
        proof {
            assert(pf.honest(self.g.gv(), self.h.gv(), st.c_e.gv(), st.acc.gv(),
                wit.e@, wit.r@, wit.w.gv(), r_w@, be@, br@, bs@, qe@, qr@, qs@));
        }
        pf
    }

    /// Recomputes the challenge and prime and checks both compensated
    /// equations; rejects response signs the generators cannot support.
    pub fn verify(&self, st: &RootStatement<G>, pf: &RootProof<G>) -> (r: bool)
        requires
            self.protwf(),
            st.c_e.wf(),
            st.acc.wf(),
            pf.rwf(),
        ensures
            r == pf.sverify(self.g.gv(), self.h.gv(), st.c_e.gv(), st.acc.gv()),
    {
        let mut t = FsTranscript::new_with_domain(&root_domain_bytes());
        t.append_elem::<G>(&st.c_e);
        t.append_elem::<G>(&st.acc);
        t.append_elem::<G>(&pf.c_w);
        t.append_elem::<G>(&pf.alpha1);
        t.append_elem::<G>(&pf.alpha2);
        proof {
            assert(t.log_view() =~= root_log(G::senc(st.c_e.gv()), G::senc(st.acc.gv()),
                G::senc(pf.c_w.gv()), G::senc(pf.alpha1.gv()), G::senc(pf.alpha2.gv())));
        }
        let c = t.challenge_int(ROOT_CHALLENGE_BYTES);
        let p = t.challenge_prime(ROOT_CHALLENGE_BYTES);

        if pf.z_e.neg && !pf.z_e.is_zero() && !(self.g.invertible() && pf.c_w.invertible()) {
            proof {
                crate::bigint::lemma_le_val_nonneg(pf.z_e.mag@);
            }
            return false;
        }
        proof {
            crate::bigint::lemma_le_val_nonneg(pf.z_e.mag@);
        }

        let z_s_neg = pf.z_s.clone().negate();

        let lhs1 = pf.q1.exp(&p).op(&self.g.exp(&pf.z_e).op(&self.h.exp(&pf.z_r)));
        let rhs1 = st.c_e.exp(&c).op(&pf.alpha1);
        if !lhs1.eq_elem(&rhs1) {
            return false;
        }
        let lhs2 = pf.q2.exp(&p).op(&pf.c_w.exp(&pf.z_e).op(&self.h.exp(&z_s_neg)));
        let rhs2 = st.acc.exp(&c).op(&pf.alpha2);
        lhs2.eq_elem(&rhs2)
    }
}

/// Completeness of the accumulator-opening proof: an honest proof over a
/// true opening (the commitment really opens to the exponent and the
/// witness really is a root of the accumulator) satisfies both
/// verification equations, whatever the challenge and prime came out to
/// be.
pub proof fn lemma_root_complete<G: UnknownOrderGroup>(
    pf: RootProof<G>, gv: int, hv: int, cev: int, accv: int,
    e: int, r: int, wv: int, rw: int, be: int, br: int, bs: int,
    qe: int, qr: int, qs: int,
)
    requires
        pf.honest(gv, hv, cev, accv, e, r, wv, rw, be, br, bs, qe, qr, qs),
        cev == G::sop(G::sexp(gv, e), G::sexp(hv, r)),
        accv == G::sexp(wv, e),
        G::in_group(wv),
        G::sinvertible(hv),
        e >= 0,
        r >= 0,
        rw >= 0,
        be >= 0,
        br >= 0,
        bs >= 0,
    ensures
        pf.sverify(gv, hv, cev, accv),
{
    let cw = pf.c_w.gv();
    let c = root_challenge(G::senc(cev), G::senc(accv), G::senc(cw),
        G::senc(pf.alpha1.gv()), G::senc(pf.alpha2.gv()));
    let p = root_prime(G::senc(cev), G::senc(accv), G::senc(cw),
        G::senc(pf.alpha1.gv()), G::senc(pf.alpha2.gv()));
    crate::bigint::lemma_le_val_nonneg(challenge_of(
        root_log(G::senc(cev), G::senc(accv), G::senc(cw),
            G::senc(pf.alpha1.gv()), G::senc(pf.alpha2.gv())),
        ROOT_CHALLENGE_BYTES as nat));
    assert(c >= 0);
    assert(p > 0);

    // the commitment-relation equation
    crate::zkpokrep::lemma_sigma_representation::<G>(
        gv, hv, cev, e, r, be, br, c, p, qe, qr, pf.z_e@, pf.z_r@);

    // the blinded witness raised to the exponent opens the accumulator up
    // to a power of the randomness generator
    let y2 = G::sop(G::sexp(cw, e), G::sexp(hv, -(e * rw)));
    assert(y2 == accv) by {
        G::lemma_exp_distributes(wv, G::sexp(hv, rw), e);
        G::lemma_exp_exp_gen(hv, rw, e);
        G::lemma_op_assoc(accv, G::sexp(hv, rw * e), G::sexp(hv, -(e * rw)));
        G::lemma_exp_add_gen(hv, rw * e, -(e * rw));
        assert(rw * e + (-(e * rw)) == 0) by (nonlinear_arith);
        G::lemma_exp_zero(hv);
        G::lemma_exp_in_group(wv, e);
        G::lemma_op_id(accv);
    }

    // the root-relation equation
    assert(c * (-(e * rw)) + (-bs) == (-qs) * p + (-pf.z_s@)) by (nonlinear_arith)
        requires c * (e * rw) + bs == qs * p + pf.z_s@,
    {}
    crate::zkpokrep::lemma_sigma_representation::<G>(
        cw, hv, y2, e, -(e * rw), be, -bs, c, p, qe, -qs, pf.z_e@, -pf.z_s@);
}

} // verus!
