use vstd::prelude::*;
use vstd::arithmetic::power::pow;
use crate::bigint::{Bigint, le_val, bi_mul, bi_divrem, min_bytes, next_prime_of};
use crate::group::UnknownOrderGroup;
use crate::transcript::{FsTranscript, challenge_of, msg_entry};

verus! {

/// Challenge width in bytes: 128 bits of statistical security.
pub const CHALLENGE_BYTES: usize = 16;

/// The product of a sequence of integers.
pub open spec fn product_of(keys: Seq<int>) -> int
    decreases keys.len(),
{
    if keys.len() == 0 {
        1
    } else {
        product_of(keys.drop_last()) * keys.last()
    }
}

/// A sequence of well-formed, non-negative integers.
pub open spec fn keys_ok(s: Seq<Bigint>) -> bool {
    forall|i: int| 0 <= i < s.len() ==> (#[trigger] s[i]).wf() && s[i]@ >= 0
}

/// The integer values of a sequence of keys.
pub open spec fn key_views(s: Seq<Bigint>) -> Seq<int> {
    s.map_values(|b: Bigint| b@)
}

pub proof fn lemma_product_nonneg(keys: Seq<int>)
    requires
        forall|i: int| 0 <= i < keys.len() ==> #[trigger] keys[i] >= 0,
    ensures
        product_of(keys) >= 0,
    decreases keys.len(),
{
    if keys.len() > 0 {
        lemma_product_nonneg(keys.drop_last());
        vstd::arithmetic::mul::lemma_mul_nonnegative(product_of(keys.drop_last()), keys.last());
    }
}

/// Splitting a batch of keys anywhere splits its product: the opened value
/// is independent of how the keys are batched.
pub proof fn lemma_product_split(a: Seq<int>, b: Seq<int>)
    ensures
        product_of(a + b) == product_of(a) * product_of(b),
    decreases b.len(),
{
    if b.len() == 0 {
        assert(a + b =~= a);
    } else {
        lemma_product_split(a, b.drop_last());
        assert((a + b).drop_last() =~= a + b.drop_last());
        assert((a + b).last() == b.last());
        assert((product_of(a) * product_of(b.drop_last())) * b.last()
            == product_of(a) * (product_of(b.drop_last()) * b.last())) by {
            vstd::arithmetic::mul::lemma_mul_is_associative(
                product_of(a), product_of(b.drop_last()), b.last());
        }
    }
}

/// The domain separator of the proof-of-exponent transcript.
pub open spec fn exppok_domain() -> Seq<u8> {
    seq![90u8, 75, 95, 80, 79, 75, 95, 69, 88, 80]
}

pub fn exppok_domain_bytes() -> (r: Vec<u8>)
    ensures
        r@ == exppok_domain(),
{
    let v: Vec<u8> = vec![90u8, 75, 95, 80, 79, 75, 95, 69, 88, 80];
    proof {
        assert(v@ =~= exppok_domain());
    }
    v
}

/// The transcript log that both prover and verifier build: the domain
/// separator, the base element, then every key in order.
pub open spec fn exppok_log(base_enc: Seq<u8>, keys: Seq<int>) -> Seq<Seq<u8>> {
    seq![msg_entry(exppok_domain()), msg_entry(base_enc)]
        + keys.map_values(|k: int| msg_entry(min_bytes(k)))
}

/// The prime both sides derive from that log.
pub open spec fn exppok_prime(base_enc: Seq<u8>, keys: Seq<int>) -> int {
    next_prime_of(le_val(challenge_of(exppok_log(base_enc, keys), CHALLENGE_BYTES as nat)))
}

proof fn lemma_exppok_log_step(base_enc: Seq<u8>, keys: Seq<int>, i: int)
    requires
        0 <= i < keys.len(),
    ensures
        exppok_log(base_enc, keys.take(i + 1))
            == exppok_log(base_enc, keys.take(i)).push(msg_entry(min_bytes(keys[i]))),
{
    assert(keys.take(i + 1).map_values(|k: int| msg_entry(min_bytes(k)))
        =~= keys.take(i).map_values(|k: int| msg_entry(min_bytes(k)))
            .push(msg_entry(min_bytes(keys[i]))));
    assert(exppok_log(base_enc, keys.take(i + 1))
        =~= exppok_log(base_enc, keys.take(i)).push(msg_entry(min_bytes(keys[i]))));
}

/// A proof of exponentiation: some attestation that `base` raised to the
/// product of a batch of keys opens to a returned element.
pub trait ProofOfExp<G: UnknownOrderGroup>: Sized {
    spec fn pwf(&self) -> bool;

    /// The abstract verification outcome on given base and keys.
    spec fn sverify(&self, base_v: int, base_enc: Seq<u8>, keys: Seq<int>) -> Option<int>;

    /// What an honest construction over the given base and keys pins
    /// down in the proof.
    spec fn shonest(&self, base_v: int, base_enc: Seq<u8>, keys: Seq<int>) -> bool;

    fn new(base: &G, keys: &Vec<Bigint>) -> (r: Self)
        requires
            base.wf(),
            keys_ok(keys@),
        ensures
            r.pwf(),
            r.shonest(base.gv(), G::senc(base.gv()), key_views(keys@)),
    ;

    fn verify(&self, base: &G, keys: &Vec<Bigint>) -> (r: Option<G>)
        requires
            self.pwf(),
            base.wf(),
            keys_ok(keys@),
        ensures
            match r {
                Some(e) => e.wf()
                    && self.sverify(base.gv(), G::senc(base.gv()), key_views(keys@))
                        == Some(e.gv()),
                None => self.sverify(base.gv(), G::senc(base.gv()), key_views(keys@))
                    == Option::<int>::None,
            },
    ;
}

/// The trivial attestation: the verifier recomputes the exponentiations
/// itself, one key at a time.
pub struct TrivialProof();

/// The verifier's fold: exponentiation by each key in turn.
pub open spec fn fold_exp<G: UnknownOrderGroup>(base_v: int, keys: Seq<int>) -> int
    decreases keys.len(),
{
    if keys.len() == 0 {
        base_v
    } else {
        G::sexp(fold_exp::<G>(base_v, keys.drop_last()), keys.last())
    }
}

impl<G: UnknownOrderGroup> ProofOfExp<G> for TrivialProof {
    open spec fn pwf(&self) -> bool {
        true
    }

    open spec fn sverify(&self, base_v: int, base_enc: Seq<u8>, keys: Seq<int>) -> Option<int> {
        Some(fold_exp::<G>(base_v, keys))
    }

    /// The trivial attestation carries no data, so an honest construction
    /// pins nothing in it.
    open spec fn shonest(&self, base_v: int, base_enc: Seq<u8>, keys: Seq<int>) -> bool {
        true
    }

    fn new(base: &G, keys: &Vec<Bigint>) -> (r: Self) {
        TrivialProof()
    }

    fn verify(&self, base: &G, keys: &Vec<Bigint>) -> (r: Option<G>) {
        let mut res = base.dup();
        let mut i: usize = 0;
        while i < keys.len()
            invariant
                0 <= i <= keys.len(),
                keys_ok(keys@),
                res.wf(),
                res.gv() == fold_exp::<G>(base.gv(), key_views(keys@).take(i as int)),
            decreases keys.len() - i,
        {
            proof {
                assert(key_views(keys@).take(i + 1).drop_last()
                    =~= key_views(keys@).take(i as int));
                assert(key_views(keys@).take(i + 1).last() == keys@[i as int]@);
            }
            res = res.exp(&keys[i]);
            i = i + 1;
        }
        proof {
            assert(key_views(keys@).take(keys@.len() as int) =~= key_views(keys@));
        }
        Some(res)
    }
}

/// A succinct proof of exponentiation: the exponent is reduced modulo a
/// transcript-derived prime, and a single compensating element `q_elem`
/// carries the quotient, so the proof size does not grow with the keys.
pub struct Proof<G: UnknownOrderGroup> {
    pub q_elem: G,
    pub rem: Bigint,
    pub prime: Bigint,
}

impl<G: UnknownOrderGroup> Proof<G> {
    /// The verification equation on abstract values: the compensator raised
    /// to the prime times the base raised to the reduced exponent.
    pub open spec fn opened(&self, base_v: int, keys: Seq<int>) -> int {
        G::sop(G::sexp(self.q_elem.gv(), self.prime@), G::sexp(base_v, product_of(keys) % self.prime@))
    }
}

impl<G: UnknownOrderGroup> ProofOfExp<G> for Proof<G> {
    open spec fn pwf(&self) -> bool {
        self.q_elem.wf() && self.rem.wf() && self.prime.wf() && self.prime@ >= 2
    }

    open spec fn sverify(&self, base_v: int, base_enc: Seq<u8>, keys: Seq<int>) -> Option<int> {
        if self.prime@ == exppok_prime(base_enc, keys) {
            Some(self.opened(base_v, keys))
        } else {
            None
        }
    }

    /// An honest succinct proof: the prime really came from the
    /// transcript, and the remainder and compensator really decompose the
    /// product of the keys.
    open spec fn shonest(&self, base_v: int, base_enc: Seq<u8>, keys: Seq<int>) -> bool {
        self.prime@ == exppok_prime(base_enc, keys)
            && self.rem@ == product_of(keys) % self.prime@
            && self.q_elem.gv() == G::sexp(base_v, product_of(keys) / self.prime@)
    }

    fn new(base: &G, keys: &Vec<Bigint>) -> (r: Self)
        ensures
            r.prime@ == exppok_prime(G::senc(base.gv()), key_views(keys@)),
            r.rem@ == product_of(key_views(keys@)) % r.prime@,
            r.q_elem.gv() == G::sexp(base.gv(), product_of(key_views(keys@)) / r.prime@),
    {
        let mut t = FsTranscript::new_with_domain(&exppok_domain_bytes());
        t.append_elem::<G>(base);
        proof {
            assert(t.log_view() =~= exppok_log(G::senc(base.gv()), key_views(keys@).take(0)));
        }
        let mut total = Bigint::from_u64(1);
        let mut i: usize = 0;
        while i < keys.len()
            invariant
                0 <= i <= keys.len(),
                keys_ok(keys@),
                base.wf(),
                total.wf(),
                total@ == product_of(key_views(keys@).take(i as int)),
                total@ >= 0,
                t.log_view() == exppok_log(G::senc(base.gv()), key_views(keys@).take(i as int)),
            decreases keys.len() - i,
        {
            proof {
                lemma_exppok_log_step(G::senc(base.gv()), key_views(keys@), i as int);
                assert(key_views(keys@).take(i + 1).drop_last()
                    =~= key_views(keys@).take(i as int));
                assert(key_views(keys@)[i as int] == keys@[i as int]@);
            }
            t.append_int(&keys[i]);
            total = bi_mul(&total, &keys[i]);
            i = i + 1;
            proof {
                lemma_product_nonneg(key_views(keys@).take(i as int));
            }
        }
        proof {
            assert(key_views(keys@).take(keys@.len() as int) =~= key_views(keys@));
        }
        let prime = t.challenge_prime(CHALLENGE_BYTES);
        let (q, rem) = bi_divrem(&total, &prime);
        proof {
            vstd::arithmetic::div_mod::lemma_fundamental_div_mod_converse(
                total@, prime@, q@, rem@);
            vstd::arithmetic::div_mod::lemma_div_pos_is_pos(total@, prime@);
        }
        let q_elem = base.exp(&q);
        Proof { q_elem, rem, prime }
    }

    fn verify(&self, base: &G, keys: &Vec<Bigint>) -> (r: Option<G>) {
        let mut t = FsTranscript::new_with_domain(&exppok_domain_bytes());
        t.append_elem::<G>(base);
        proof {
            assert(t.log_view() =~= exppok_log(G::senc(base.gv()), key_views(keys@).take(0)));
        }
        let mut rem = Bigint::from_u64(1);
        let mut i: usize = 0;
        while i < keys.len()
            invariant
                0 <= i <= keys.len(),
                keys_ok(keys@),
                base.wf(),
                self.pwf(),
                rem.wf(),
                i == 0 ==> rem@ == 1,
                i > 0 ==> rem@ == product_of(key_views(keys@).take(i as int)) % self.prime@,
                t.log_view() == exppok_log(G::senc(base.gv()), key_views(keys@).take(i as int)),
            decreases keys.len() - i,
        {
            proof {
                lemma_exppok_log_step(G::senc(base.gv()), key_views(keys@), i as int);
                assert(key_views(keys@).take(i + 1).drop_last()
                    =~= key_views(keys@).take(i as int));
                assert(key_views(keys@)[i as int] == keys@[i as int]@);
            }
            t.append_int(&keys[i]);
            let wide = bi_mul(&rem, &keys[i]);
            let (_q, newrem) = bi_divrem(&wide, &self.prime);
            proof {
                lemma_product_nonneg(key_views(keys@).take(i as int));
                vstd::arithmetic::div_mod::lemma_mod_bound(
                    product_of(key_views(keys@).take(i as int)), self.prime@);
                vstd::arithmetic::mul::lemma_mul_nonnegative(rem@, keys@[i as int]@);
                vstd::arithmetic::div_mod::lemma_fundamental_div_mod_converse(
                    wide@, self.prime@, _q@, newrem@);
                if i == 0 {
                } else {
                    vstd::arithmetic::div_mod::lemma_mul_mod_noop_left(
                        product_of(key_views(keys@).take(i as int)),
                        keys@[i as int]@, self.prime@);
                }
            }
            rem = newrem;
            i = i + 1;
        }
        proof {
            assert(key_views(keys@).take(keys@.len() as int) =~= key_views(keys@));
        }
        let prime = t.challenge_prime(CHALLENGE_BYTES);
        if !crate::bigint::bi_eq(&self.prime, &prime) {
            return None;
        }
        if keys.len() == 0 {
            // an empty batch has product one, reduced modulo the prime
            let one = Bigint::from_u64(1);
            let (_q1, r1) = bi_divrem(&one, &self.prime);
            proof {
                vstd::arithmetic::div_mod::lemma_fundamental_div_mod_converse(
                    1, self.prime@, _q1@, r1@);
            }
            rem = r1;
        }
        let qp = self.q_elem.exp(&self.prime);
        let br = base.exp(&rem);
        proof {
            lemma_product_nonneg(key_views(keys@));
            vstd::arithmetic::div_mod::lemma_mod_bound(product_of(key_views(keys@)), self.prime@);
        }
        Some(qp.op(&br))
    }
}

/// Completeness of the succinct proof of exponentiation: the honestly
/// computed compensator and remainder reconstitute the full power, so
/// verification opens an honest proof to the base raised to the whole
/// product of the keys.
pub proof fn lemma_exppok_completeness<G: UnknownOrderGroup>(base_v: int, total: int, p: int)
    requires
        total >= 0,
        p > 0,
    ensures
        G::sop(G::sexp(G::sexp(base_v, total / p), p), G::sexp(base_v, total % p))
            == G::sexp(base_v, total),
{
    let q = total / p;
    let r = total % p;
    vstd::arithmetic::div_mod::lemma_div_pos_is_pos(total, p);
    vstd::arithmetic::div_mod::lemma_mod_bound(total, p);
    G::lemma_exp_exp(base_v, q, p);
    assert(q * p >= 0) by {
        vstd::arithmetic::mul::lemma_mul_nonnegative(q, p);
    }
    G::lemma_exp_add(base_v, q * p, r);
    assert(q * p + r == total) by {
        vstd::arithmetic::div_mod::lemma_fundamental_div_mod(total, p);
        vstd::arithmetic::mul::lemma_mul_is_commutative(q, p);
    }
}

/// Prove-then-verify succeeds: an honestly built succinct proof for a
/// batch of keys verifies against the same base and keys, and opens to the
/// base raised to the product of the keys.
pub proof fn lemma_proof_of_exp_complete<G: UnknownOrderGroup>(
    pf: Proof<G>, base_v: int, base_enc: Seq<u8>, keys: Seq<int>,
)
    requires
        pf.prime@ == exppok_prime(base_enc, keys),
        pf.prime@ > 0,
        pf.rem@ == product_of(keys) % pf.prime@,
        pf.q_elem.gv() == G::sexp(base_v, product_of(keys) / pf.prime@),
        forall|i: int| 0 <= i < keys.len() ==> #[trigger] keys[i] >= 0,
    ensures
        pf.sverify(base_v, base_enc, keys) == Some(G::sexp(base_v, product_of(keys))),
{
    lemma_product_nonneg(keys);
    lemma_exppok_completeness::<G>(base_v, product_of(keys), pf.prime@);
}

} // verus!
