use vstd::prelude::*;
use crate::bigint::Bigint;
use crate::group::UnknownOrderGroup;
use crate::curve::FieldElem;
use crate::transcript::FsTranscript;
use crate::root::{RootProtocol, RootProof, RootStatement, RootWitness};
use crate::modeq::{RangeModEq, ModEqProof, rp_basepoint, rp_compress, rp_from_hash,
    rp_enc, rp_hash_point, modeq_honest};
use crate::curve::l_order;
use crate::rand_src::random_order;
use crate::sig::new_fujisaki_okamoto_gens;

verus! {

/// Extraction of a proof was attempted before every required message had
/// been sent.
#[derive(Debug, PartialEq, Eq, Structural)]
pub enum TranscriptChannelError {
    Incomplete,
}

/// Verification failed: the recomputed equations did not hold.
#[derive(Debug, PartialEq, Eq, Structural)]
pub enum VerificationError {
    VerificationFailed,
}

/// The composite proof could not be produced.
#[derive(Debug, PartialEq, Eq, Structural)]
pub enum ProofError {
    CouldNotCreateProof,
}

/// The membership domain separator, absorbed before any sub-protocol
/// data.
pub open spec fn membership_domain() -> Seq<u8> {
    seq![109u8, 101, 109, 98, 101, 114, 115, 104, 105, 112]
}

pub fn membership_domain_bytes() -> (r: Vec<u8>)
    ensures
        r@ == membership_domain(),
{
    let v: Vec<u8> = vec![109u8, 101, 109, 98, 101, 114, 115, 104, 105, 112];
    proof {
        assert(v@ =~= membership_domain());
    }
    v
}

/// Appending the membership domain separator to a shared transcript. In
/// this composite each sub-protocol runs under its own domain-separated
/// transcript and the two are bound through the shared commitment, which
/// both absorb; the separator serves a caller that instead layers the
/// whole composite inside one shared transcript.
pub trait TranscriptProtocolMembership {
    fn membership_domain_sep(&mut self);
}

impl TranscriptProtocolMembership for FsTranscript {
    fn membership_domain_sep(&mut self) {
        let d = membership_domain_bytes();
        self.append_bytes(&d);
    }
}

/// The common reference string of the composite protocol: the
/// integer-commitment generators, shared by the opening sub-protocol and
/// the equality sub-protocol, and the Pedersen generators of the outer
/// curve group.
pub struct CRS<G: UnknownOrderGroup> {
    pub g: G,
    pub h: G,
    pub g2: curve25519_dalek::ristretto::RistrettoPoint,
    pub h2: curve25519_dalek::ristretto::RistrettoPoint,
}

impl<G: UnknownOrderGroup> CRS<G> {
    pub open spec fn crswf(&self) -> bool {
        self.g.wf() && self.h.wf() && G::sinvertible(self.h.gv())
    }
}

/// The public statement: the accumulator value, and the elliptic-curve
/// commitment to the same exponent.
pub struct Statement<G: UnknownOrderGroup> {
    pub c_p: G,
    pub c_e_q: curve25519_dalek::ristretto::RistrettoPoint,
}

/// The private opening: the exponent, the randomness of the curve-side
/// commitment, and the accumulator witness.
pub struct Witness<G: UnknownOrderGroup> {
    pub e: Bigint,
    pub r_q: FieldElem,
    pub w: G,
}

/// The composite proof: the shared commitment to the exponent, the
/// accumulator-opening proof, and the cross-group equality proof, both
/// bound to the same commitment.
pub struct Proof<G: UnknownOrderGroup> {
    pub c_e: G,
    pub proof_root: RootProof<G>,
    pub proof_modeq: ModEqProof<G>,
}

impl<G: UnknownOrderGroup> Proof<G> {
    pub open spec fn mpwf(&self) -> bool {
        self.c_e.wf() && self.proof_root.rwf() && self.proof_modeq.pwf()
    }
}

/// The verifier-role channel: it accumulates the prover's messages and
/// releases the assembled proof only once every part has arrived.
pub struct TranscriptVerifierChannel<G: UnknownOrderGroup> {
    pub c_e: Option<G>,
    pub proof_root: Option<RootProof<G>>,
    pub proof_modeq: Option<ModEqProof<G>>,
}

impl<G: UnknownOrderGroup> TranscriptVerifierChannel<G> {
    pub fn new() -> (r: Self)
        ensures
            r.c_e is None,
            r.proof_root is None,
            r.proof_modeq is None,
    {
        TranscriptVerifierChannel { c_e: None, proof_root: None, proof_modeq: None }
    }

    pub fn send_c_e(&mut self, c_e: &G)
        requires
            c_e.wf(),
        ensures
            final(self).c_e matches Some(e) && e.wf() && e.gv() == c_e.gv(),

            final(self).proof_root == old(self).proof_root,
            final(self).proof_modeq == old(self).proof_modeq,
    {
        self.c_e = Some(c_e.dup());
    }

    pub fn send_root(&mut self, pf: RootProof<G>)
        ensures
            final(self).proof_root == Some(pf),
            final(self).c_e == old(self).c_e,
            final(self).proof_modeq == old(self).proof_modeq,
    {
        self.proof_root = Some(pf);
    }

    pub fn send_modeq(&mut self, pf: ModEqProof<G>)
        ensures
            final(self).proof_modeq == Some(pf),
            final(self).c_e == old(self).c_e,
            final(self).proof_root == old(self).proof_root,
    {
        self.proof_modeq = Some(pf);
    }

    /// The assembled proof, or `Incomplete` while a part is missing.
    pub fn into_proof(self) -> (r: Result<Proof<G>, TranscriptChannelError>)
        ensures
            match r {
                Ok(p) => (self.c_e matches Some(e) && p.c_e == e)
                    && (self.proof_root matches Some(pr) && p.proof_root == pr)
                    && (self.proof_modeq matches Some(pm) && p.proof_modeq == pm),
                Err(e) => e == TranscriptChannelError::Incomplete
                    && (self.c_e is None || self.proof_root is None
                        || self.proof_modeq is None),
            },
    {
        match (self.c_e, self.proof_root, self.proof_modeq) {
            (Some(c_e), Some(proof_root), Some(proof_modeq)) => {
                Ok(Proof { c_e, proof_root, proof_modeq })
            }
            _ => Err(TranscriptChannelError::Incomplete),
        }
    }
}

/// The prover-role channel: it replays a recorded proof part by part.
pub struct TranscriptProverChannel<G: UnknownOrderGroup> {
    pub proof: Proof<G>,
}

impl<G: UnknownOrderGroup> TranscriptProverChannel<G> {
    pub fn new(proof: Proof<G>) -> (r: Self)
        ensures
            r.proof == proof,
    {
        TranscriptProverChannel { proof }
    }

    pub fn receive_c_e(&self) -> (r: G)
        requires
            self.proof.c_e.wf(),
        ensures
            r.wf(),
            r.gv() == self.proof.c_e.gv(),
    {
        self.proof.c_e.dup()
    }
}

/// The composite protocol: the opening proof and the equality proof over
/// one shared exponent commitment.
pub struct Protocol<G: UnknownOrderGroup> {
    pub crs: CRS<G>,
}

impl<G: UnknownOrderGroup> Protocol<G> {
    pub open spec fn protowf(&self) -> bool {
        self.crs.crswf()
    }

    pub fn from_crs(crs: &CRS<G>) -> (r: Protocol<G>)
        requires
            crs.crswf(),
        ensures
            r.protowf(),
            r.crs.g.gv() == crs.g.gv(),
            r.crs.h.gv() == crs.h.gv(),
            r.crs.g2 == crs.g2,
            r.crs.h2 == crs.h2,
    {
        Protocol {
            crs: CRS {
                g: crs.g.dup(),
                h: crs.h.dup(),
                g2: crs.g2,
                h2: crs.h2,
            },
        }
    }

    /// A default setup: fresh Fujisaki-Okamoto generators and the fixed
    /// Pedersen generators of the outer curve group, the blinding one
    /// derived by hashing the first one's encoding.
    pub fn setup_default() -> (r: Protocol<G>)
        ensures
            r.protowf(),
            r.crs.h2 == rp_hash_point(rp_enc(r.crs.g2)),
    {
        let (g, h) = new_fujisaki_okamoto_gens::<G>();
        let b = rp_basepoint();
        let b_bytes = rp_compress(&b);
        let b_blinding = rp_from_hash(&b_bytes);
        Protocol { crs: CRS { g, h, g2: b, h2: b_blinding } }
    }

    /// Proves membership: commits to the exponent once, sends the
    /// commitment, then runs the opening proof and the equality proof
    /// against that same commitment, in that order. The sent commitment
    /// opens the witness's exponent under one fresh randomness, and both
    /// sub-proofs are honest for that same commitment, exponent and
    /// randomness.
    pub fn prove(
        &self,
        channel: &mut TranscriptVerifierChannel<G>,
        st: &Statement<G>,
        wit: &Witness<G>,
    ) -> (r: Result<(), ProofError>)
        requires
            self.protowf(),
            st.c_p.wf(),
            wit.e.wf(),
            wit.e@ >= 0,
            wit.w.wf(),
            wit.r_q.fwf(),
        ensures
            r is Ok,
            final(channel).c_e is Some && final(channel).c_e.unwrap().wf(),
            final(channel).proof_root is Some && final(channel).proof_root.unwrap().rwf(),
            final(channel).proof_modeq is Some && final(channel).proof_modeq.unwrap().pwf(),
            ({
                let cev = final(channel).c_e.unwrap().gv();
                let pr = final(channel).proof_root.unwrap();
                let pm = final(channel).proof_modeq.unwrap();
                exists|rr: int|
                    0 <= rr
                    && #[trigger] G::sop(
                        G::sexp(self.crs.g.gv(), wit.e@), G::sexp(self.crs.h.gv(), rr)) == cev
                    && (exists|rw: int, be: int, br: int, bs: int, qe: int, qr: int, qs: int|
                        0 <= rw && 0 <= be && 0 <= br && 0 <= bs
                        && #[trigger] pr.honest(self.crs.g.gv(), self.crs.h.gv(), cev,
                            st.c_p.gv(), wit.e@, rr, wit.w.gv(), rw, be, br, bs, qe, qr, qs))
                    && (exists|re: int, rr2: int, rq2: int|
                        0 <= re && 0 <= rr2 && 0 <= rq2 < l_order()
                        && #[trigger] modeq_honest::<G>(pm, self.crs.g.gv(), self.crs.h.gv(),
                            self.crs.g2, self.crs.h2, cev, st.c_e_q, wit.e@, rr,
                            wit.r_q.fv(), re, rr2, rq2))
            }),
    {
        let r_int = random_order::<G>();
        let c_e = self.crs.g.exp(&wit.e).op(&self.crs.h.exp(&r_int));
        channel.send_c_e(&c_e);

        let root = RootProtocol::new(&self.crs.g, &self.crs.h);
        let root_pf = root.prove(
            &RootStatement { c_e: c_e.dup(), acc: st.c_p.dup() },
            &RootWitness { e: wit.e.clone(), r: r_int.clone(), w: wit.w.dup() },
        );
        proof {
            let (rw, be, br, bs, qe, qr, qs) = choose|
                rw: int, be: int, br: int, bs: int, qe: int, qr: int, qs: int|
                0 <= rw && 0 <= be && 0 <= br && 0 <= bs
                && #[trigger] root_pf.honest(root.g.gv(), root.h.gv(), c_e.gv(),
                    st.c_p.gv(), wit.e@, r_int@, wit.w.gv(), rw, be, br, bs, qe, qr, qs);
            assert(root_pf.honest(self.crs.g.gv(), self.crs.h.gv(), c_e.gv(),
                st.c_p.gv(), wit.e@, r_int@, wit.w.gv(), rw, be, br, bs, qe, qr, qs));
        }
        channel.send_root(root_pf);

        let modeq = RangeModEq::new(&self.crs.g, &self.crs.h, &self.crs.g2, &self.crs.h2);
        let modeq_pf = modeq.prove(&c_e, &st.c_e_q, &wit.e, &r_int, &wit.r_q);
        proof {
            let (re, rr2, rq2) = choose|re: int, rr2: int, rq2: int|
                0 <= re && 0 <= rr2 && 0 <= rq2 < l_order()
                && #[trigger] modeq_honest::<G>(modeq_pf, modeq.g1.gv(), modeq.h1.gv(),
                    modeq.g2, modeq.h2, c_e.gv(), st.c_e_q, wit.e@, r_int@,
                    wit.r_q.fv(), re, rr2, rq2);
            assert(modeq_honest::<G>(modeq_pf, self.crs.g.gv(), self.crs.h.gv(),
                self.crs.g2, self.crs.h2, c_e.gv(), st.c_e_q, wit.e@, r_int@,
                wit.r_q.fv(), re, rr2, rq2));
        }
        channel.send_modeq(modeq_pf);

        Ok(())
    }

    /// Verifies membership: receives the shared commitment, then checks
    /// the opening proof and the equality proof in the same order,
    /// stopping at the first failure.
    pub fn verify(
        &self,
        channel: &TranscriptProverChannel<G>,
        st: &Statement<G>,
    ) -> (r: Result<(), VerificationError>)
        requires
            self.protowf(),
            st.c_p.wf(),
            channel.proof.mpwf(),
        ensures
            r is Ok <==> {
                let cev = channel.proof.c_e.gv();
                channel.proof.proof_root.sverify(
                    self.crs.g.gv(), self.crs.h.gv(), cev, st.c_p.gv())
                && channel.proof.proof_modeq.sverify(
                    self.crs.g.gv(), self.crs.h.gv(), self.crs.g2, self.crs.h2,
                    cev, st.c_e_q)
            },
    {
        let c_e = channel.receive_c_e();

        let root = RootProtocol::new(&self.crs.g, &self.crs.h);
        let ok_root = root.verify(
            &RootStatement { c_e: c_e.dup(), acc: st.c_p.dup() },
            &channel.proof.proof_root,
        );
        if !ok_root {
            return Err(VerificationError::VerificationFailed);
        }

        let modeq = RangeModEq::new(&self.crs.g, &self.crs.h, &self.crs.g2, &self.crs.h2);
        let ok_modeq = modeq.verify(&c_e, &st.c_e_q, &channel.proof.proof_modeq);
        if !ok_modeq {
            return Err(VerificationError::VerificationFailed);
        }

        Ok(())
    }
}

} // verus!
