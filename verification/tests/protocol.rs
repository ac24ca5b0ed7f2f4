use extend_sig::bigint::{Bigint, bi_eq, bi_mul, bi_next_prime, bi_sub};
use extend_sig::curve::{g0, hash_to_curve, CurvePoint, Fp};
use extend_sig::dlogmv::FixExpGadget;
use extend_sig::exppok::{Proof, ProofOfExp, TrivialProof};
use extend_sig::extend::ExtendProof;
use extend_sig::group::UnknownOrderGroup;
use extend_sig::modeq::{rp_add, rp_basepoint, rp_compress, rp_from_hash, rp_mul, RangeModEq};
use extend_sig::rand_src::random_bytes;
use extend_sig::reduce::{naive_reduce, ReduceTree};
use extend_sig::rsa::{Rsa3072, Rsa3072Elem};
use extend_sig::sig::{new_fujisaki_okamoto_gens, Context, PublicKey, Signature, SigningKey};
use extend_sig::zkpokrep::ZKPokRep;
use extend_sig::membership::{Protocol as MembershipProtocol, Statement as MembershipStatement,
    Witness as MembershipWitness, TranscriptProverChannel, TranscriptVerifierChannel,
    TranscriptChannelError};

fn random_integer(magnitude: usize) -> Bigint {
    Bigint::from_bytes_le(random_bytes(magnitude))
}

fn random_integers(len: usize, magnitude: usize) -> Vec<Bigint> {
    let mut elems: Vec<Bigint> = Vec::with_capacity(len);
    for _ in 0..len {
        elems.push(random_integer(magnitude));
    }
    elems
}

fn commit(g: &Rsa3072Elem, h: &Rsa3072Elem, v: &Bigint, r: &Bigint) -> Rsa3072Elem {
    let gv = g.exp(v);
    let hr = h.exp(r);
    gv.op(&hr)
}

#[test]
fn test_init() {
    let m = Rsa3072::modulus();
    assert!(m.mag.len() == 384);
    assert!(!m.neg);
}

#[test]
fn test_op() {
    let a = Rsa3072::op(&Rsa3072::elem(&Bigint::from_u64(2)), &Rsa3072::elem(&Bigint::from_u64(3)));
    assert!(Rsa3072::eq_elem(&a, &Rsa3072::elem(&Bigint::from_u64(6))));
    let m2 = Bigint::from_u64(2).negate();
    let m3 = Bigint::from_u64(3).negate();
    let b = Rsa3072::op(&Rsa3072::elem(&m2), &Rsa3072::elem(&m3));
    assert!(Rsa3072::eq_elem(&b, &Rsa3072::elem(&Bigint::from_u64(6))));
}

#[test]
fn test_cosets() {
    let m = Rsa3072::modulus();
    let three = Bigint::from_u64(3);
    let m_minus_3 = bi_sub(&m, &three);
    assert!(Rsa3072::eq_elem(&Rsa3072::elem(&three), &Rsa3072::elem(&m_minus_3)));
}

#[test]
fn rsa3072_test_inv() {
    let x = Rsa3072::elem(&Bigint::from_u64(2));
    let inv = Rsa3072::inv(&x);
    assert!(Rsa3072::eq_elem(&Rsa3072::op(&x, &inv), &Rsa3072::id()));
}

#[test]
fn test_extend_rsa() {
    let (g, h) = new_fujisaki_okamoto_gens::<Rsa3072Elem>();

    let key_0 = random_integer(32);
    let keys_1 = random_integers(20, 32);
    let keys_2 = random_integers(20, 32);

    let rnd0 = random_integer(32);
    let com0 = commit(&g, &h, &key_0, &rnd0);

    let (com1, rnd1, proof0) = ExtendProof::<Rsa3072Elem>::new(&com0, &h, &rnd0, &keys_1);
    let (com2, rnd2, proof1) = ExtendProof::<Rsa3072Elem>::new(&com1, &h, &rnd1, &keys_2);

    assert!(proof0.verify(&com0, &h, &com1));
    assert!(proof1.verify(&com1, &h, &com2));

    let mut product = key_0.clone();
    for k in keys_1.iter() {
        product = bi_mul(&product, k);
    }
    for k in keys_2.iter() {
        product = bi_mul(&product, k);
    }

    assert!(Rsa3072::eq_elem(&commit(&g, &h, &product, &rnd2), &com2));
}

#[test]
fn test_mult_proof_rsa() {
    let (g1, h) = new_fujisaki_okamoto_gens::<Rsa3072Elem>();
    let g2 = h;

    let x1 = random_integer(32);
    let x2 = random_integer(32);

    let y1 = g1.exp(&x1);
    let y2 = g2.exp(&x2);
    let y = y1.op(&y2);

    let pi = ZKPokRep::<Rsa3072Elem>::new(&g1, &g2, &y, &x1, &x2);
    assert!(pi.verify(&g1, &g2, &y));
}

// flipping one bit of a response must make verification fail
#[test]
fn test_mult_proof_tampered() {
    let (g1, h) = new_fujisaki_okamoto_gens::<Rsa3072Elem>();
    let g2 = h;

    let x1 = random_integer(32);
    let x2 = random_integer(32);
    let y = g1.exp(&x1).op(&g2.exp(&x2));

    let mut pi = ZKPokRep::<Rsa3072Elem>::new(&g1, &g2, &y, &x1, &x2);
    assert!(pi.verify(&g1, &g2, &y));

    let mut mag = pi.r1.mag.clone();
    if mag.is_empty() {
        mag.push(1);
    } else {
        mag[0] ^= 1;
    }
    pi.r1 = Bigint { neg: pi.r1.neg, mag };
    assert!(!pi.verify(&g1, &g2, &y));
}

#[test]
fn test_reduce_mul() {
    let p = bi_next_prime(&Bigint::from_u64(0x4621));

    let big = bi_mul(
        &bi_mul(&Bigint::from_u64(0x6275454a), &Bigint::from_u64(0x7355_3254)),
        &Bigint::from_u64(0x7355_3254),
    );
    let elems: Vec<Bigint> = vec![
        Bigint::from_u64(0x54333234),
        Bigint::from_u64(0x4a888b6c),
        Bigint::from_u64(0x6276e54b),
        Bigint::from_u64(0x6275454a),
        big,
        Bigint::from_u64(0x4a888b6c),
        Bigint::from_u64(0x6276e54b),
        Bigint::from_u64(0x6275454a),
    ];

    let base = Rsa3072Elem::unknown_order_elem();

    // the incremental tree reduction
    let tree = ReduceTree::product_chain(&elems);
    let root = tree.nodes.len() - 1;
    let (q1, rem1) = tree.reduce::<Rsa3072Elem>(root, &base, &p);

    // the naive strategy: multiply everything, divide once
    let (q2, rem2) = naive_reduce::<Rsa3072Elem>(&base, &elems, &p);

    assert!(Rsa3072::eq_elem(&q1, &q2));
    assert!(bi_eq(&rem1, &rem2));
}

#[test]
fn test_scalar_small() {
    let base = g0();
    for i in 0..50u64 {
        let gi = Fp::from_u64(i).mul_point(&base);
        let mut gi_t = CurvePoint::zero();
        for _ in 0..i {
            gi_t = gi_t.add(&base);
        }
        assert!(gi.eq_point(&gi_t));
    }
}

#[test]
fn test_scalar_associative() {
    let base = g0();
    for _ in 0..10 {
        let r0 = Fp::random();
        let r1 = Fp::random();
        let lhs = r0.add(&r1).mul_point(&base);
        let rhs = r0.mul_point(&base).add(&r1.mul_point(&base));
        assert!(lhs.eq_point(&rhs));
    }
}

#[test]
fn curve_test_inv() {
    let base = g0();
    let r = Fp::random();
    let p = r.mul_point(&base);
    let diff = p.sub(&p);
    assert!(diff.eq_point(&CurvePoint::zero()));
}

#[test]
fn test_hash() {
    for _ in 0..10 {
        let msg = random_bytes(64);
        let p = hash_to_curve(&msg);
        assert!(p.on_curve());
    }
}

#[test]
fn test_fixexp_compute() {
    let base = g0();
    let fixexp = FixExpGadget::new(&base);
    let scalar = Fp::random();
    let real = scalar.mul_point(&base);
    let point = fixexp.compute(&scalar);
    assert!(point.eq_point(&real));
}

#[test]
fn test_prove_verify_rsa() {
    let (gen_g1, gen_h1) = new_fujisaki_okamoto_gens::<Rsa3072Elem>();
    let b = rp_basepoint();
    let b_blinding = rp_from_hash(&rp_compress(&b));

    let protocol = RangeModEq::<Rsa3072Elem>::new(&gen_g1, &gen_h1, &b, &b_blinding);

    let rand1 = random_integer(32);
    let rand2 = extend_sig::modeq::fe_random();

    let value = Bigint::from_u64(1337);
    let value_f = extend_sig::curve::Fp::from_u64(1337).to_field();

    let comm1 = commit(&gen_g1, &gen_h1, &value, &rand1);
    let comm2 = rp_add(&rp_mul(&value_f, &b), &rp_mul(&rand2, &b_blinding));

    let proof = protocol.prove(&comm1, &comm2, &value, &rand1, &rand2);
    assert!(protocol.verify(&comm1, &comm2, &proof));
}

// a tampered equality proof must be rejected
#[test]
fn test_prove_verify_tampered() {
    let (gen_g1, gen_h1) = new_fujisaki_okamoto_gens::<Rsa3072Elem>();
    let b = rp_basepoint();
    let b_blinding = rp_from_hash(&rp_compress(&b));
    let protocol = RangeModEq::<Rsa3072Elem>::new(&gen_g1, &gen_h1, &b, &b_blinding);

    let rand1 = random_integer(32);
    let rand2 = extend_sig::modeq::fe_random();
    let value = Bigint::from_u64(1337);
    let value_f = extend_sig::curve::Fp::from_u64(1337).to_field();
    let comm1 = commit(&gen_g1, &gen_h1, &value, &rand1);
    let comm2 = rp_add(&rp_mul(&value_f, &b), &rp_mul(&rand2, &b_blinding));

    let mut proof = protocol.prove(&comm1, &comm2, &value, &rand1, &rand2);
    let mut mag = proof.s_e.mag.clone();
    if mag.is_empty() {
        mag.push(1);
    } else {
        mag[0] ^= 1;
    }
    proof.s_e = Bigint { neg: proof.s_e.neg, mag };
    assert!(!protocol.verify(&comm1, &comm2, &proof));
}

#[test]
fn sign_verify_rsa() {
    let msg: Vec<u8> = Vec::new();

    let ctx = Context::<Rsa3072Elem>::setup(&msg);
    let sk = SigningKey::new();
    let pk = sk.pk();

    let sig: Signature<Rsa3072Elem, Proof<Rsa3072Elem>> = sk.sign(&ctx);

    let just_me = vec![pk.clone()];
    assert!(sig.verify(&ctx, &just_me).is_some());

    let sks: Vec<SigningKey> = (0..1).map(|_| SigningKey::new()).collect();
    let delta: Vec<PublicKey> = sks.iter().map(|s| s.pk()).collect();
    let mut total = delta.clone();
    total.push(pk);
    let sig = sig.extend(&ctx, &delta, &total);

    assert!(sig.verify(&ctx, &total).is_some());
}

// the trivial proof of exponent opens to the same value as the succinct one
#[test]
fn test_trivial_exppok_agrees() {
    let (g, _h) = new_fujisaki_okamoto_gens::<Rsa3072Elem>();
    let keys = random_integers(5, 16);

    let trivial = <TrivialProof as ProofOfExp<Rsa3072Elem>>::new(&g, &keys);
    let succinct = <Proof<Rsa3072Elem> as ProofOfExp<Rsa3072Elem>>::new(&g, &keys);

    let a = trivial.verify(&g, &keys).unwrap();
    let b = succinct.verify(&g, &keys).unwrap();
    assert!(Rsa3072::eq_elem(&a, &b));
}

// a wrong prime in the succinct proof of exponent is detected
#[test]
fn test_exppok_wrong_prime() {
    let (g, _h) = new_fujisaki_okamoto_gens::<Rsa3072Elem>();
    let keys = random_integers(3, 16);
    let mut pf = <Proof<Rsa3072Elem> as ProofOfExp<Rsa3072Elem>>::new(&g, &keys);
    pf.prime = bi_next_prime(&pf.prime);
    assert!(pf.verify(&g, &keys).is_none());
}

// accumulating [a, b, c] at once or as [a] then [b, c] opens to the same
// product under the final randomness
#[test]
fn test_extend_batching() {
    let (g, h) = new_fujisaki_okamoto_gens::<Rsa3072Elem>();
    let x = random_integer(16);
    let r0 = random_integer(32);
    let com0 = commit(&g, &h, &x, &r0);

    let a = random_integer(16);
    let b = random_integer(16);
    let c = random_integer(16);
    let all = vec![a.clone(), b.clone(), c.clone()];
    let first = vec![a.clone()];
    let rest = vec![b.clone(), c.clone()];

    let product = bi_mul(&bi_mul(&bi_mul(&x, &a), &b), &c);

    // one batch
    let (com_one, r_one, pf_one) = ExtendProof::<Rsa3072Elem>::new(&com0, &h, &r0, &all);
    assert!(pf_one.verify(&com0, &h, &com_one));
    assert!(Rsa3072::eq_elem(&commit(&g, &h, &product, &r_one), &com_one));

    // two batches
    let (com_a, r_a, pf_a) = ExtendProof::<Rsa3072Elem>::new(&com0, &h, &r0, &first);
    let (com_bc, r_bc, pf_bc) = ExtendProof::<Rsa3072Elem>::new(&com_a, &h, &r_a, &rest);
    assert!(pf_a.verify(&com0, &h, &com_a));
    assert!(pf_bc.verify(&com_a, &h, &com_bc));
    assert!(Rsa3072::eq_elem(&commit(&g, &h, &product, &r_bc), &com_bc));
}

// the curve-hash routine reaches a permissible point for a deterministic
// seed
#[test]
fn test_permissible_hash() {
    let msg: Vec<u8> = vec![82, 9];
    let p = hash_to_curve(&msg);
    assert!(p.on_curve());
    assert!(p.is_permissible());
}

// a tampered extension proof must break the chain
#[test]
fn test_extend_tampered() {
    let (g, h) = new_fujisaki_okamoto_gens::<Rsa3072Elem>();
    let x = random_integer(16);
    let r0 = random_integer(32);
    let com0 = commit(&g, &h, &x, &r0);
    let keys = random_integers(3, 16);

    let (com1, _r1, mut pf) = ExtendProof::<Rsa3072Elem>::new(&com0, &h, &r0, &keys);
    assert!(pf.verify(&com0, &h, &com1));

    let mut mag = pf.proof.r2.mag.clone();
    if mag.is_empty() {
        mag.push(1);
    } else {
        mag[0] ^= 1;
    }
    pf.proof.r2 = Bigint { neg: pf.proof.r2.neg, mag };
    assert!(!pf.verify(&com0, &h, &com1));
}

// end-to-end membership: a committed exponent opens the accumulator and
// matches the curve-side commitment
#[test]
fn test_e2e_prime_rsa() {
    let protocol = MembershipProtocol::<Rsa3072Elem>::setup_default();

    // the accumulated set: three large primes, then the member value
    let large_primes: Vec<u64> = vec![
        553_525_575_239_331_913,
        12_702_637_924_034_044_211,
        378_373_571_372_703_133,
        8_640_171_141_336_142_787,
    ];
    let mut others = Bigint::from_u64(1);
    for p in large_primes.iter().skip(1) {
        others = bi_mul(&others, &Bigint::from_u64(*p));
    }

    // the member: a power of two minus a small offset
    let mut value = Bigint::from_u64(1);
    let two = Bigint::from_u64(2);
    for _ in 0..256 {
        value = bi_mul(&value, &two);
    }
    value = bi_sub(&value, &Bigint::from_u64(245));

    let base = Rsa3072Elem::unknown_order_elem();
    let w = base.exp(&others);
    let acc = w.exp(&value);

    // the curve-side commitment to the same value
    let value_f = extend_sig::curve::FieldElem {
        n: extend_sig::curve::mod_l(&value),
    };
    let randomness = extend_sig::curve::Fp::from_u64(5).to_field();
    let c_e_q = rp_add(
        &rp_mul(&value_f, &protocol.crs.g2),
        &rp_mul(&randomness, &protocol.crs.h2),
    );

    let statement = MembershipStatement { c_p: acc, c_e_q };
    let witness = MembershipWitness { e: value, r_q: randomness, w };

    let mut channel = TranscriptVerifierChannel::<Rsa3072Elem>::new();
    protocol.prove(&mut channel, &statement, &witness).unwrap();
    let pf = channel.into_proof().unwrap();

    let prover_channel = TranscriptProverChannel::new(pf);
    assert!(protocol.verify(&prover_channel, &statement).is_ok());
}

// a channel misses a part: extraction reports the incomplete transcript
#[test]
fn test_channel_incomplete() {
    let channel = TranscriptVerifierChannel::<Rsa3072Elem>::new();
    match channel.into_proof() {
        Err(TranscriptChannelError::Incomplete) => {}
        _ => panic!("an empty channel must be incomplete"),
    }
}
