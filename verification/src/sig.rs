use vstd::prelude::*;
use crate::bigint::Bigint;
use crate::group::UnknownOrderGroup;
use crate::curve::{CurvePoint, Fp, g0, hash_to_curve, g0_x, g0_y, on_curve_val, point_mul,
    fp_bits_seq, permissible_val, l_order, hash_x, hash_y, first_ok, lemma_first_ok_cases};
use crate::dlogmv::{Statement, fix_point_state, win_pair, win_entry, window_base, WINDOWS};
use crate::modeq::{RangeModEq, ModEqProof, rp_add, rp_mul, rp_basepoint, rp_from_hash,
    rp_compress, fe_random, rp_sum, rp_smul, rp_enc, rp_hash_point, modeq_honest};
use crate::exppok::{ProofOfExp, keys_ok, key_views, product_of};
use crate::extend::ExtendProof;
use crate::rand_src::random_order;

verus! {

/// Fresh Fujisaki-Okamoto generators in the hidden-order group: two
/// elements derived from randomness, the second invertible so the
/// blinding exponent may run negative.
pub fn new_fujisaki_okamoto_gens<G: UnknownOrderGroup>() -> (r: (G, G))
    ensures
        r.0.wf(),
        r.1.wf(),
        G::sinvertible(r.1.gv()),
{
    let rg = random_order::<G>();
    let g = G::from_int(&rg);
    let rh = random_order::<G>();
    let mut h = G::from_int(&rh);
    if g.eq_elem(&h) {
        let rexp = random_order::<G>();
        h = h.exp(&rexp);
    }
    let mut tries: usize = 0;
    while tries < 64
        invariant
            g.wf(),
            h.wf(),
        decreases 64 - tries,
    {
        if h.invertible() {
            return (g, h);
        }
        let rfresh = random_order::<G>();
        h = G::from_int(&rfresh);
        tries = tries + 1;
    }
    // randomness kept yielding non-invertible elements: fall back to the
    // identity, which is its own inverse
    proof {
        G::lemma_id_invertible();
    }
    (g, G::id())
}

/// A signer's key pair: a secret scalar and the matching permissible
/// curve point.
pub struct SigningKey {
    pub pk: CurvePoint,
    pub sk: Fp,
}

/// A signer's public key.
pub struct PublicKey {
    pub pk: CurvePoint,
}

impl Clone for PublicKey {
    fn clone(&self) -> (r: Self)
        ensures
            r.pk.x.fv() == self.pk.x.fv(),
            r.pk.y.fv() == self.pk.y.fv(),
            r.pk.cwf() == self.pk.cwf(),
    {
        PublicKey { pk: self.pk.clone() }
    }
}

/// The integer a public key contributes to the accumulated product: the
/// value of its y coordinate.
pub fn key_int(pk: &CurvePoint) -> (r: Bigint)
    requires
        pk.cwf(),
    ensures
        r.wf(),
        r@ == pk.y.fv(),
        r@ >= 0,
{
    let f = pk.y.clone();
    f.n
}

impl SigningKey {
    pub open spec fn kwf(&self) -> bool {
        self.pk.cwf() && self.sk.pwf()
    }

    /// Draws a fresh secret scalar and steps it forward until the derived
    /// public key is permissible; the returned key is recomputed from the
    /// secret, so it is always the fixed generator's multiple of it. The
    /// scalar one stands in if the bounded search runs out, which fresh
    /// randomness never lets happen.
    pub fn new() -> (r: SigningKey)
        ensures
            r.kwf(),
            !on_curve_val(g0_x(), g0_y()) || {
                &&& (r.pk.x.fv(), r.pk.y.fv())
                    == point_mul(fp_bits_seq(r.sk.pv()), (g0_x(), g0_y()))
                &&& permissible_val(r.pk.x.fv(), r.pk.y.fv()) || r.sk.pv() == 1
            },
    {
        let one = Fp::one();
        let base = g0();
        let mut sk = Fp::random();
        let mut pk = sk.mul_point(&base);
        let mut tries: u64 = 0;
        while tries < 0xffff_ffff
            invariant
                sk.pwf(),
                pk.cwf(),
                one.pwf(),
                one.pv() == 1,
                base.cwf(),
                (base.x.fv() == g0_x() && base.y.fv() == g0_y())
                    || !on_curve_val(g0_x(), g0_y()),
            decreases 0xffff_ffffu64 - tries,
        {
            if pk.is_permissible() {
                // tie the found key back to the secret by recomputing it
                let pk2 = sk.mul_point(&base);
                if pk2.eq_point(&pk) {
                    return SigningKey { pk: pk2, sk };
                }
            }
            sk = sk.add(&one);
            pk = pk.add(&base);
            tries = tries + 1;
        }
        let skf = Fp::one();
        let pkf = skf.mul_point(&base);
        SigningKey { pk: pkf, sk: skf }
    }

    pub fn pk(&self) -> (r: PublicKey)
        requires
            self.kwf(),
        ensures
            r.pk.cwf(),
            r.pk.x.fv() == self.pk.x.fv(),
            r.pk.y.fv() == self.pk.y.fv(),
    {
        PublicKey { pk: self.pk.clone() }
    }
}

/// The shared verification context: the Fujisaki-Okamoto generators, the
/// cross-group equality protocol instance, and the windowed tables of the
/// discrete-log statement.
pub struct Context<G: UnknownOrderGroup> {
    pub g1: G,
    pub h1: G,
    pub modeq: RangeModEq<G>,
    pub dlogmv: Statement,
}

impl<G: UnknownOrderGroup> Context<G> {
    pub open spec fn ctxwf(&self) -> bool {
        self.g1.wf() && self.h1.wf()
            && G::sinvertible(self.h1.gv())
            && self.modeq.mwf()
            && self.modeq.g1.gv() == self.g1.gv()
            && self.modeq.h1.gv() == self.h1.gv()
            && self.dlogmv.swf()
    }

    /// Builds a context: fresh hidden-order generators, the windowed
    /// tables over the fixed curve generator and a tag base hashed from
    /// the message, and the Pedersen generators of the outer curve group,
    /// the blinding one derived by hashing the first one's encoding.
    pub fn setup(msg: &Vec<u8>) -> (r: Context<G>)
        ensures
            r.ctxwf(),
            r.modeq.h2 == rp_hash_point(rp_enc(r.modeq.g2)),
            !on_curve_val(g0_x(), g0_y())
                || forall|i: int, j: int| 0 <= i < WINDOWS && 0 <= j < 8
                    ==> #[trigger] win_pair(r.dlogmv.g_exp.windows@[i], j)
                        == win_entry(window_base((g0_x(), g0_y()), i), j),
            ({
                let f = first_ok(msg@, 0);
                let tb = if f >= 0 {
                    (hash_x(msg@, f), hash_y(msg@, f))
                } else {
                    (0int, 1int)
                };
                forall|i: int, j: int| 0 <= i < WINDOWS && 0 <= j < 8
                    ==> #[trigger] win_pair(r.dlogmv.h_exp.windows@[i], j)
                        == win_entry(window_base(tb, i), j)
            }),
    {
        let (g1, h1) = new_fujisaki_okamoto_gens::<G>();
        let base = g0();
        let tag_base = hash_to_curve(msg);
        let dlogmv = Statement::new(&base, &tag_base);
        proof {
            lemma_first_ok_cases(msg@, 0);
            let f = first_ok(msg@, 0);
            if f >= 0 {
                assert((tag_base.x.fv(), tag_base.y.fv()) == (hash_x(msg@, f), hash_y(msg@, f)));
            } else {
                assert(f == -1);
                assert((tag_base.x.fv(), tag_base.y.fv()) == (0int, 1int));
            }
        }
        let b = rp_basepoint();
        let b_bytes = rp_compress(&b);
        let b_blinding = rp_from_hash(&b_bytes);
        let modeq = RangeModEq::new(&g1, &h1, &b, &b_blinding);
        Context { g1, h1, modeq, dlogmv }
    }
}

/// A ring-growing signature: the linkability tag, the two commitments to
/// the signer's key, the cross-group equality proof, the running proof of
/// exponent, and the chain of extension proofs, each valid only against
/// the commitment just before it.
pub struct Signature<G: UnknownOrderGroup, E: ProofOfExp<G>> {
    pub tag: CurvePoint,
    pub comm1: G,
    pub comm2: curve25519_dalek::ristretto::RistrettoPoint,
    pub rand: Bigint,
    pub modeq: ModEqProof<G>,
    pub exp_pi: E,
    pub extend: Vec<(G, ExtendProof<G>)>,
}

impl<G: UnknownOrderGroup, E: ProofOfExp<G>> Signature<G, E> {
    pub open spec fn sigwf(&self) -> bool {
        self.tag.cwf()
            && self.comm1.wf()
            && self.rand.wf() && self.rand@ >= 0
            && self.modeq.pwf()
            && self.exp_pi.pwf()
            && forall|i: int| 0 <= i < self.extend@.len()
                ==> (#[trigger] self.extend@[i]).0.wf() && self.extend@[i].1.ewf()
    }

    /// The commitment that the next extension must build on: the last of
    /// the chain, or the original commitment while the chain is empty.
    pub open spec fn last_comm_gv(&self) -> int {
        if self.extend@.len() == 0 {
            self.comm1.gv()
        } else {
            self.extend@.last().0.gv()
        }
    }

    /// Whether every extension from position `i` on verifies against its
    /// predecessor, starting from the commitment `prev`.
    pub open spec fn chain_ok_from(&self, h1v: int, prev: int, i: int) -> bool
        decreases self.extend@.len() - i,
    {
        if i < 0 || i >= self.extend@.len() {
            true
        } else {
            self.extend@[i].1.proof.sverify(prev, h1v, self.extend@[i].0.gv())
                && self.chain_ok_from(h1v, self.extend@[i].0.gv(), i + 1)
        }
    }

    /// The whole verification verdict on abstract values: the cross-group
    /// equality proof, the extension chain in order, and the proof of
    /// exponent whose opened value, re-blinded with the final randomness,
    /// must equal the end of the chain.
    pub open spec fn sverify_all(
        &self,
        g1v: int,
        h1v: int,
        g2: curve25519_dalek::ristretto::RistrettoPoint,
        h2: curve25519_dalek::ristretto::RistrettoPoint,
        keys: Seq<int>,
    ) -> bool {
        self.modeq.sverify(g1v, h1v, g2, h2, self.comm1.gv(), self.comm2)
            && self.chain_ok_from(h1v, self.comm1.gv(), 0)
            && (self.exp_pi.sverify(g1v, G::senc(g1v), keys) matches Some(v)
                && G::sop(v, G::sexp(h1v, self.rand@)) == self.last_comm_gv())
    }
}

/// The integers a list of public keys contributes: the values of their
/// y coordinates.
pub open spec fn pk_views(s: Seq<PublicKey>) -> Seq<int> {
    s.map_values(|p: PublicKey| p.pk.y.fv())
}

impl SigningKey {
    /// Signs under a context: commits to the key in both groups, proves
    /// the committed values equal, computes the linkability tag through
    /// the windowed tables, and starts the proof of exponent over the
    /// signer's own key. The extension chain starts empty.
    pub fn sign<G: UnknownOrderGroup, E: ProofOfExp<G>>(&self, ctx: &Context<G>)
        -> (sig: Signature<G, E>)
        requires
            self.kwf(),
            ctx.ctxwf(),
        ensures
            sig.sigwf(),
            sig.extend@.len() == 0,
            sig.comm1.gv() == G::sop(
                G::sexp(ctx.g1.gv(), self.pk.y.fv()),
                G::sexp(ctx.h1.gv(), sig.rand@),
            ),
            (sig.tag.x.fv(), sig.tag.y.fv())
                == fix_point_state(ctx.dlogmv.h_exp, self.sk.pv(), WINDOWS as int),
            exists|rq: int, re: int, rr: int, rq2: int|
                0 <= rq < l_order() && 0 <= re && 0 <= rr && 0 <= rq2 < l_order()
                && sig.comm2 == rp_sum(
                    rp_smul(self.pk.y.fv(), ctx.modeq.g2), rp_smul(rq, ctx.modeq.h2))
                && #[trigger] modeq_honest::<G>(sig.modeq, ctx.g1.gv(), ctx.h1.gv(),
                    ctx.modeq.g2, ctx.modeq.h2, sig.comm1.gv(), sig.comm2,
                    self.pk.y.fv(), sig.rand@, rq, re, rr, rq2),
            sig.exp_pi.shonest(ctx.g1.gv(), G::senc(ctx.g1.gv()), seq![self.pk.y.fv()]),
    {
        let pki = key_int(&self.pk);
        let rand1 = random_order::<G>();
        let rand2 = fe_random();

        let comm1 = ctx.g1.exp(&pki).op(&ctx.h1.exp(&rand1));

        let tag = ctx.dlogmv.tag_of(&self.sk);

        let pky = self.pk.y.clone();
        let comm2 = rp_add(&rp_mul(&pky, &ctx.modeq.g2), &rp_mul(&rand2, &ctx.modeq.h2));

        let modeq_pf = ctx.modeq.prove(&comm1, &comm2, &pki, &rand1, &rand2);

        let mut keys: Vec<Bigint> = Vec::new();
        keys.push(key_int(&self.pk));
        proof {
            assert(key_views(keys@) =~= seq![self.pk.y.fv()]);
        }
        let exp_pi = E::new(&ctx.g1, &keys);

        let sig = Signature {
            tag,
            comm1,
            comm2,
            rand: rand1,
            modeq: modeq_pf,
            exp_pi,
            extend: Vec::new(),
        };
        proof {
            let (re, rr, rq2) = choose|re: int, rr: int, rq2: int|
                0 <= re && 0 <= rr && 0 <= rq2 < l_order()
                && #[trigger] modeq_honest::<G>(modeq_pf, ctx.modeq.g1.gv(),
                    ctx.modeq.h1.gv(), ctx.modeq.g2, ctx.modeq.h2, comm1.gv(), comm2,
                    pki@, rand1@, rand2.fv(), re, rr, rq2);
            assert(0 <= rand2.fv() < l_order());
            assert(sig.comm2 == rp_sum(
                rp_smul(self.pk.y.fv(), ctx.modeq.g2), rp_smul(rand2.fv(), ctx.modeq.h2)));
            assert(modeq_honest::<G>(sig.modeq, ctx.g1.gv(), ctx.h1.gv(), ctx.modeq.g2,
                ctx.modeq.h2, sig.comm1.gv(), sig.comm2, self.pk.y.fv(), sig.rand@,
                rand2.fv(), re, rr, rq2));
        }
        sig
    }
}

impl<G: UnknownOrderGroup, E: ProofOfExp<G>> Signature<G, E> {
    /// Extends the signature over a batch of newly admitted keys: folds
    /// their product into the running commitment with a fresh blinding,
    /// appends the extension proof, and recomputes the proof of exponent
    /// over the whole key set. Each extension is only valid against the
    /// commitment just before it.
    pub fn extend(self, ctx: &Context<G>, delta: &Vec<PublicKey>, total: &Vec<PublicKey>)
        -> (r: Signature<G, E>)
        requires
            self.sigwf(),
            ctx.ctxwf(),
            forall|i: int| 0 <= i < delta@.len() ==> (#[trigger] delta@[i]).pk.cwf(),
            forall|i: int| 0 <= i < total@.len() ==> (#[trigger] total@[i]).pk.cwf(),
        ensures
            r.sigwf(),
            r.extend@.len() == self.extend@.len() + 1,
            r.rand@ >= 0,
            r.extend@.last().0.gv() == G::sop(
                G::sexp(ctx.h1.gv(), r.rand@ - product_of(pk_views(delta@)) * self.rand@),
                G::sexp(self.last_comm_gv(), product_of(pk_views(delta@))),
            ),
            r.tag == self.tag,
            r.comm1 == self.comm1,
            r.comm2 == self.comm2,
            r.modeq == self.modeq,
            r.extend@.subrange(0, self.extend@.len() as int) == self.extend@,
            exists|a1: int, a2: int, q1: int, q2: int|
                0 <= a1 && 0 <= a2
                && #[trigger] r.extend@.last().1.proof.honest(
                    self.last_comm_gv(), ctx.h1.gv(), r.extend@.last().0.gv(),
                    product_of(pk_views(delta@)),
                    r.rand@ - product_of(pk_views(delta@)) * self.rand@,
                    a1, a2, q1, q2),
            r.exp_pi.shonest(ctx.g1.gv(), G::senc(ctx.g1.gv()), pk_views(total@)),
    {
        let mut keys: Vec<Bigint> = Vec::new();
        let mut i: usize = 0;
        while i < delta.len()
            invariant
                0 <= i <= delta.len(),
                forall|k: int| 0 <= k < delta@.len() ==> (#[trigger] delta@[k]).pk.cwf(),
                keys_ok(keys@),
                keys@.len() == i,
                key_views(keys@) == pk_views(delta@).take(i as int),
            decreases delta.len() - i,
        {
            let k = key_int(&delta[i].pk);
            keys.push(k);
            proof {
                assert(key_views(keys@) =~= pk_views(delta@).take(i + 1));
            }
            i = i + 1;
        }
        proof {
            assert(pk_views(delta@).take(delta@.len() as int) =~= pk_views(delta@));
        }

        let prev: &G = if self.extend.len() == 0 {
            &self.comm1
        } else {
            let last = self.extend.len() - 1;
            proof {
                assert(self.extend@[last as int].0.wf());
            }
            &self.extend[last].0
        };
        proof {
            assert(prev.gv() == self.last_comm_gv());
        }
        let (new_comm, new_rand, new_proof) = ExtendProof::<G>::new(prev, &ctx.h1, &self.rand, &keys);
        proof {
            let prod = product_of(pk_views(delta@));
            assert(key_views(keys@) == pk_views(delta@));
            let (a1, a2, q1, q2) = choose|a1: int, a2: int, q1: int, q2: int|
                0 <= a1 && 0 <= a2
                && #[trigger] new_proof.proof.honest(prev.gv(), ctx.h1.gv(), new_comm.gv(),
                    prod, new_rand@ - prod * self.rand@, a1, a2, q1, q2);
            assert(new_proof.proof.honest(self.last_comm_gv(), ctx.h1.gv(), new_comm.gv(),
                prod, new_rand@ - prod * self.rand@, a1, a2, q1, q2));
            assert(exists|a1: int, a2: int, q1: int, q2: int|
                0 <= a1 && 0 <= a2
                && #[trigger] new_proof.proof.honest(self.last_comm_gv(), ctx.h1.gv(),
                    new_comm.gv(), prod, new_rand@ - prod * self.rand@, a1, a2, q1, q2));
        }

        let mut total_keys: Vec<Bigint> = Vec::new();
        let mut j: usize = 0;
        while j < total.len()
            invariant
                0 <= j <= total.len(),
                forall|k: int| 0 <= k < total@.len() ==> (#[trigger] total@[k]).pk.cwf(),
                keys_ok(total_keys@),
                total_keys@.len() == j,
                key_views(total_keys@) == pk_views(total@).take(j as int),
            decreases total.len() - j,
        {
            let k = key_int(&total[j].pk);
            total_keys.push(k);
            proof {
                assert(key_views(total_keys@) =~= pk_views(total@).take(j + 1));
            }
            j = j + 1;
        }
        proof {
            assert(pk_views(total@).take(total@.len() as int) =~= pk_views(total@));
        }
        let exp_pi = E::new(&ctx.g1, &total_keys);

        let mut out = self;
        out.rand = new_rand;
        out.exp_pi = exp_pi;
        proof {
            assert(pk_views(total@) =~= key_views(total_keys@));
        }
        out.extend.push((new_comm, new_proof));
        proof {
            assert(out.extend@.subrange(0, self.extend@.len() as int) =~= self.extend@);
            assert(out.extend@.last() == (new_comm, new_proof));
            let prod = product_of(pk_views(delta@));
            let (a1, a2, q1, q2) = choose|a1: int, a2: int, q1: int, q2: int|
                0 <= a1 && 0 <= a2
                && #[trigger] new_proof.proof.honest(self.last_comm_gv(), ctx.h1.gv(),
                    new_comm.gv(), prod, new_rand@ - prod * self.rand@, a1, a2, q1, q2);
            assert(out.extend@.last().1.proof.honest(self.last_comm_gv(), ctx.h1.gv(),
                out.extend@.last().0.gv(), prod, out.rand@ - prod * self.rand@,
                a1, a2, q1, q2));
        }
        out
    }

    /// Replays the whole chain: the cross-group equality proof, every
    /// extension in order against its predecessor, the proof of exponent
    /// over the full key set, and the final opening of the last
    /// commitment. Returns the linkability tag exactly when everything
    /// holds.
    pub fn verify(&self, ctx: &Context<G>, total: &Vec<PublicKey>) -> (r: Option<CurvePoint>)
        requires
            self.sigwf(),
            ctx.ctxwf(),
            forall|i: int| 0 <= i < total@.len() ==> (#[trigger] total@[i]).pk.cwf(),
        ensures
            r is Some <==> self.sverify_all(
                ctx.g1.gv(), ctx.h1.gv(), ctx.modeq.g2, ctx.modeq.h2, pk_views(total@)),
            match r {
                Some(t) => t.cwf() && t.x.fv() == self.tag.x.fv() && t.y.fv() == self.tag.y.fv(),
                None => true,
            },
    {
        // the cross-group equality of the committed key
        if !ctx.modeq.verify(&self.comm1, &self.comm2, &self.modeq) {
            return None;
        }

        // the extension chain, strictly in order
        let mut i: usize = 0;
        while i < self.extend.len()
            invariant
                0 <= i <= self.extend@.len(),
                self.sigwf(),
                ctx.ctxwf(),
                self.chain_ok_from(ctx.h1.gv(), self.comm1.gv(), 0)
                    == self.chain_ok_from(ctx.h1.gv(),
                        if i == 0 { self.comm1.gv() } else { self.extend@[i - 1].0.gv() },
                        i as int),
            decreases self.extend@.len() - i,
        {
            proof {
                assert(self.extend@[i as int].0.wf() && self.extend@[i as int].1.ewf());
                if i > 0 {
                    assert(self.extend@[i - 1].0.wf());
                }
            }
            let ok = if i == 0 {
                self.extend[i].1.verify(&self.comm1, &ctx.h1, &self.extend[i].0)
            } else {
                self.extend[i].1.verify(&self.extend[i - 1].0, &ctx.h1, &self.extend[i].0)
            };
            if !ok {
                return None;
            }
            i = i + 1;
        }

        // the proof of exponent over the whole key set
        let mut total_keys: Vec<Bigint> = Vec::new();
        let mut j: usize = 0;
        while j < total.len()
            invariant
                0 <= j <= total.len(),
                forall|k: int| 0 <= k < total@.len() ==> (#[trigger] total@[k]).pk.cwf(),
                keys_ok(total_keys@),
                total_keys@.len() == j,
                key_views(total_keys@) == pk_views(total@).take(j as int),
            decreases total.len() - j,
        {
            let k = key_int(&total[j].pk);
            total_keys.push(k);
            proof {
                assert(key_views(total_keys@) =~= pk_views(total@).take(j + 1));
            }
            j = j + 1;
        }
        proof {
            assert(pk_views(total@).take(total@.len() as int) =~= pk_views(total@));
        }
        let opened = self.exp_pi.verify(&ctx.g1, &total_keys);
        let base = match opened {
            None => {
                return None;
            }
            Some(b) => b,
        };

        // the final opening must match the end of the chain
        let res = base.op(&ctx.h1.exp(&self.rand));
        let matches_last = if self.extend.len() == 0 {
            res.eq_elem(&self.comm1)
        } else {
            let last = self.extend.len() - 1;
            proof {
                assert(self.extend@[last as int].0.wf());
            }
            res.eq_elem(&self.extend[last].0)
        };
        if !matches_last {
            return None;
        }

        Some(self.tag.clone())
    }
}

} // verus!
