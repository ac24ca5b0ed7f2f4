use vstd::prelude::*;
use crate::bigint::{Bigint, bi_mul, bi_sub};
use crate::group::UnknownOrderGroup;
use crate::exppok::{product_of, keys_ok, key_views, lemma_product_nonneg, lemma_product_split};
use crate::zkpokrep::{ZKPokRep, lemma_zkpokrep_complete};
use crate::rand_src::random_order;

verus! {

/// One step of the ring-growing chain: a proof that the new commitment is
/// the old one raised to the product of the newly admitted keys, with the
/// blinding delta on the randomness generator.
pub struct ExtendProof<G: UnknownOrderGroup> {
    pub proof: ZKPokRep<G>,
}

impl<G: UnknownOrderGroup> ExtendProof<G> {
    pub open spec fn ewf(&self) -> bool {
        self.proof.zwf()
    }

    /// Multiplies the batch of keys into the commitment and proves
    /// knowledge of the representation of the new commitment over the old
    /// one and the randomness generator. Returns the new commitment, the
    /// fresh randomness, and the proof.
    pub fn new(com: &G, h: &G, r: &Bigint, keys: &Vec<Bigint>) -> (res: (G, Bigint, ExtendProof<G>))
        requires
            com.wf(),
            h.wf(),
            r.wf(),
            keys_ok(keys@),
            G::sinvertible(h.gv()),
        ensures
            res.0.wf(),
            res.1.wf(),
            res.1@ >= 0,
            res.2.ewf(),
            res.0.gv() == G::sop(
                G::sexp(h.gv(), res.1@ - product_of(key_views(keys@)) * r@),
                G::sexp(com.gv(), product_of(key_views(keys@))),
            ),
            exists|a1: int, a2: int, q1: int, q2: int|
                0 <= a1 && 0 <= a2
                && #[trigger] res.2.proof.honest(com.gv(), h.gv(), res.0.gv(),
                    product_of(key_views(keys@)),
                    res.1@ - product_of(key_views(keys@)) * r@,
                    a1, a2, q1, q2),
    {
        // the product of all newly admitted keys
        let mut mul = Bigint::from_u64(1);
        let mut i: usize = 0;
        while i < keys.len()
            invariant
                0 <= i <= keys.len(),
                keys_ok(keys@),
                mul.wf(),
                mul@ == product_of(key_views(keys@).take(i as int)),
            decreases keys.len() - i,
        {
            proof {
                assert(key_views(keys@).take(i + 1).drop_last()
                    =~= key_views(keys@).take(i as int));
                assert(key_views(keys@).take(i + 1).last() == keys@[i as int]@);
            }
            mul = bi_mul(&mul, &keys[i]);
            i = i + 1;
        }
        proof {
            assert(key_views(keys@).take(keys@.len() as int) =~= key_views(keys@));
            lemma_product_nonneg(key_views(keys@));
        }

        // fresh randomness, and the blinding delta it induces
        let r_new = random_order::<G>();
        let r_delta = bi_sub(&r_new, &bi_mul(&mul, r));

        // the new commitment
        let h_rnd = h.exp(&r_delta);
        let com_mul = com.exp(&mul);
        let com_new = h_rnd.op(&com_mul);

        let proof = ZKPokRep::new(com, h, &com_new, &mul, &r_delta);
        (com_new, r_new, ExtendProof { proof })
    }

    /// Replays the representation proof against the previous commitment,
    /// the randomness generator, and the claimed new commitment.
    pub fn verify(&self, com: &G, h: &G, com_new: &G) -> (r: bool)
        requires
            self.ewf(),
            com.wf(),
            h.wf(),
            com_new.wf(),
        ensures
            r == self.proof.sverify(com.gv(), h.gv(), com_new.gv()),
    {
        self.proof.verify(com, h, com_new)
    }
}

/// The opening law of one extension step: if the old commitment opens to
/// `(x, r)`, the new commitment built with blinding delta
/// `r_new - total * r` opens to `(x * total, r_new)` — so the opened
/// value after an extension is the old value times the product of the
/// admitted keys, however the keys were batched.
pub proof fn lemma_extend_opening<G: UnknownOrderGroup>(
    gv: int, hv: int, x: int, r: int, total: int, r_new: int, comv: int,
)
    requires
        G::sinvertible(hv),
        total >= 0,
        comv == G::sop(G::sexp(gv, x), G::sexp(hv, r)),
    ensures
        G::sop(G::sexp(hv, r_new - total * r), G::sexp(comv, total))
            == G::sop(G::sexp(gv, x * total), G::sexp(hv, r_new)),
{
    G::lemma_exp_distributes(G::sexp(gv, x), G::sexp(hv, r), total);
    G::lemma_exp_exp_gen(gv, x, total);
    G::lemma_exp_exp_gen(hv, r, total);
    let d = G::sexp(hv, r_new - total * r);
    let b = G::sexp(gv, x * total);
    let cc = G::sexp(hv, r * total);
    // move the delta next to the randomness power
    G::lemma_op_assoc(d, b, cc);
    G::lemma_op_comm(d, b);
    G::lemma_op_assoc(b, d, cc);
    assert(G::sop(d, G::sop(b, cc)) == G::sop(b, G::sop(d, cc))) by {
        G::lemma_op_assoc(G::sop(d, b), cc, 0);
        G::lemma_op_comm(G::sop(d, b), cc);
        G::lemma_op_assoc(d, b, cc);
        G::lemma_op_comm(d, b);
        G::lemma_op_assoc(b, d, cc);
    }
    G::lemma_exp_add_gen(hv, r_new - total * r, r * total);
    assert(r * total == total * r) by {
        vstd::arithmetic::mul::lemma_mul_is_commutative(r, total);
    }
}

/// Completeness of the extension proof: the proof that `ExtendProof::new`
/// returns, together with the commitment it returns, satisfies the
/// verification equation.
pub proof fn lemma_extend_complete<G: UnknownOrderGroup>(
    pf: ZKPokRep<G>, comv: int, hv: int, newv: int, total: int, r_delta: int,
)
    requires
        G::sinvertible(hv),
        total >= 0,
        newv == G::sop(G::sexp(hv, r_delta), G::sexp(comv, total)),
        exists|a1: int, a2: int, q1: int, q2: int|
            0 <= a1 && 0 <= a2
            && #[trigger] pf.honest(comv, hv, newv, total, r_delta, a1, a2, q1, q2),
    ensures
        pf.sverify(comv, hv, newv),
{
    let (a1, a2, q1, q2) = choose|a1: int, a2: int, q1: int, q2: int|
        0 <= a1 && 0 <= a2
        && #[trigger] pf.honest(comv, hv, newv, total, r_delta, a1, a2, q1, q2);
    G::lemma_op_comm(G::sexp(hv, r_delta), G::sexp(comv, total));
    lemma_zkpokrep_complete::<G>(pf, comv, hv, newv, total, r_delta, a1, a2, q1, q2);
}

/// Batching independence of the chain: extending a commitment that opens
/// to `(x, r0)` over one batch of keys and then another, with final
/// randomness `r2`, opens to exactly what one extension over the
/// concatenated batch with the same final randomness opens to — the
/// opened value is the old value times the product of all the keys,
/// however they were batched.
pub proof fn lemma_extend_batching<G: UnknownOrderGroup>(
    gv: int, hv: int, x: int, r0: int, r1: int, r2: int, comv: int,
    ks1: Seq<int>, ks2: Seq<int>,
)
    requires
        G::sinvertible(hv),
        forall|i: int| 0 <= i < ks1.len() ==> #[trigger] ks1[i] >= 0,
        forall|i: int| 0 <= i < ks2.len() ==> #[trigger] ks2[i] >= 0,
        comv == G::sop(G::sexp(gv, x), G::sexp(hv, r0)),
    ensures
        ({
            let p1 = product_of(ks1);
            let p2 = product_of(ks2);
            let com1 = G::sop(G::sexp(hv, r1 - p1 * r0), G::sexp(comv, p1));
            let com2 = G::sop(G::sexp(hv, r2 - p2 * r1), G::sexp(com1, p2));
            let p12 = product_of(ks1 + ks2);
            com2 == G::sop(G::sexp(hv, r2 - p12 * r0), G::sexp(comv, p12))
        }),
{
    let p1 = product_of(ks1);
    let p2 = product_of(ks2);
    let p12 = product_of(ks1 + ks2);
    lemma_product_nonneg(ks1);
    lemma_product_nonneg(ks2);
    lemma_product_split(ks1, ks2);
    let com1 = G::sop(G::sexp(hv, r1 - p1 * r0), G::sexp(comv, p1));
    lemma_extend_opening::<G>(gv, hv, x, r0, p1, r1, comv);
    lemma_extend_opening::<G>(gv, hv, x * p1, r1, p2, r2, com1);
    lemma_extend_opening::<G>(gv, hv, x, r0, p12, r2, comv);
    assert((x * p1) * p2 == x * (p1 * p2)) by {
        vstd::arithmetic::mul::lemma_mul_is_associative(x, p1, p2);
    }
}

} // verus!
