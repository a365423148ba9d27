use bls12_381::{Bls12, G1Affine, G1Projective, G2Affine, Gt, Scalar};
use group::Curve;
use pairing::Engine;
use groth16_verifier::curve::{G1Point, G2Point};
use groth16_verifier::error::VerificationError;
use groth16_verifier::field::FieldElement;
use groth16_verifier::groth16::{prepare_inputs, verify, verify_encoded};
use groth16_verifier::key::VerifyingKey;
use groth16_verifier::pallet::{Error, Event, Pallet, ProofStr, VkeyStr};
use groth16_verifier::wire::decode_public_signal;
use groth16_verifier::zkproof::Proof;

/// The buffers of a key, a public signal and a proof that belong together.
struct Instance {
    alpha1: Vec<u8>,
    beta2: Vec<u8>,
    gamma2: Vec<u8>,
    delta2: Vec<u8>,
    ic: Vec<Vec<u8>>,
    signal: Vec<u8>,
    pi_a: Vec<u8>,
    pi_b: Vec<u8>,
    pi_c: Vec<u8>,
}

fn decimal_of(be: &[u8]) -> Vec<u8> {
    let mut n: Vec<u8> = be.to_vec();
    let mut digits: Vec<u8> = Vec::new();
    loop {
        let mut rem: u32 = 0;
        let mut nonzero: bool = false;
        for b in n.iter_mut() {
            let cur: u32 = rem * 256 + *b as u32;
            *b = (cur / 10) as u8;
            rem = cur % 10;
            if *b != 0 {
                nonzero = true;
            }
        }
        digits.push(b'0' + rem as u8);
        if !nonzero {
            break;
        }
    }
    digits.reverse();
    digits
}

fn g1_buffer(p: &G1Affine) -> Vec<u8> {
    let u: [u8; 96] = p.to_uncompressed();
    let mut first: [u8; 48] = [0; 48];
    first.copy_from_slice(&u[0..48]);
    first[0] &= 0x1f;
    [decimal_of(&first), decimal_of(&u[48..96])].join(&b","[..])
}

fn g2_buffer(p: &G2Affine) -> Vec<u8> {
    let u: [u8; 192] = p.to_uncompressed();
    let mut first: [u8; 48] = [0; 48];
    first.copy_from_slice(&u[0..48]);
    first[0] &= 0x1f;
    [
        decimal_of(&u[48..96]),
        decimal_of(&first),
        decimal_of(&u[144..192]),
        decimal_of(&u[96..144]),
    ]
    .join(&b","[..])
}

fn g1_times(k: Scalar) -> G1Affine {
    G1Affine::from(G1Affine::generator() * k)
}

fn g2_times(k: Scalar) -> G2Affine {
    G2Affine::from(G2Affine::generator() * k)
}

fn scalar_text(k: &Scalar) -> Vec<u8> {
    let mut be: [u8; 32] = k.to_bytes();
    be.reverse();
    decimal_of(&be)
}

/// A key for `ic_scalars.len() - 1` public inputs and a proof that satisfies
/// the pairing equation for `inputs`: with all points written as multiples
/// of the generators, `a * b = alpha * beta + x * gamma + c * delta`.
fn instance_with(seed: u64, ic_scalars: &[u64], inputs: &[Scalar]) -> Instance {
    let alpha = Scalar::from(seed + 5);
    let beta = Scalar::from(seed + 7);
    let gamma = Scalar::from(seed + 11);
    let delta = Scalar::from(seed + 13);
    let a = Scalar::from(seed + 29);
    let b = Scalar::from(seed + 31);
    let mut x = Scalar::from(ic_scalars[0]);
    for (k, s) in ic_scalars[1..].iter().zip(inputs.iter()) {
        x += Scalar::from(*k) * s;
    }
    let c = (a * b - alpha * beta - x * gamma) * delta.invert().unwrap();
    Instance {
        alpha1: g1_buffer(&g1_times(alpha)),
        beta2: g2_buffer(&g2_times(beta)),
        gamma2: g2_buffer(&g2_times(gamma)),
        delta2: g2_buffer(&g2_times(delta)),
        ic: ic_scalars.iter().map(|k| g1_buffer(&g1_times(Scalar::from(*k)))).collect(),
        signal: inputs.iter().map(scalar_text).collect::<Vec<Vec<u8>>>().join(&b","[..]),
        pi_a: g1_buffer(&g1_times(a)),
        pi_b: g2_buffer(&g2_times(b)),
        pi_c: g1_buffer(&g1_times(c)),
    }
}

/// The toy instance: one public input, whose value is 23.
fn toy() -> Instance {
    instance_with(0, &[17, 19], &[Scalar::from(23u64)])
}

fn run(i: &Instance) -> Result<(), VerificationError> {
    verify_encoded(
        &i.alpha1, &i.beta2, &i.gamma2, &i.delta2, &i.ic, &i.signal, &i.pi_a, &i.pi_b, &i.pi_c,
    )
}

fn key_set(i: &Instance) -> Pallet {
    let mut pallet = Pallet::new();
    let r = pallet.set_zk_keys(
        i.signal.clone(),
        i.alpha1.clone(),
        i.beta2.clone(),
        i.gamma2.clone(),
        i.delta2.clone(),
        i.ic[0].clone(),
        i.ic[1].clone(),
    );
    assert!(r.is_ok());
    pallet
}

fn vkey_of(i: &Instance) -> VkeyStr {
    VkeyStr {
        alpha_1: i.alpha1.clone(),
        beta_2: i.beta2.clone(),
        gamma_2: i.gamma2.clone(),
        delta_2: i.delta2.clone(),
        ic0: i.ic[0].clone(),
        ic1: i.ic[1].clone(),
    }
}

#[test]
fn toy_proof_passes() {
    let i = toy();
    assert_eq!(i.signal, b"23".to_vec());
    assert_eq!(run(&i), Ok(()));
}

#[test]
fn toy_proof_fails_for_another_scalar() {
    let mut i = toy();
    i.signal = b"24".to_vec();
    assert_eq!(run(&i), Err(VerificationError::VerificationFailed));
    i.signal = b"33".to_vec();
    assert_eq!(run(&i), Err(VerificationError::VerificationFailed));
    i.signal = b"023".to_vec();
    assert_eq!(run(&i), Ok(()));
}

#[test]
fn proofs_for_satisfied_instances_pass() {
    let big = -Scalar::from(1u64);
    let cases: [Instance; 4] = [
        instance_with(1, &[3], &[]),
        instance_with(2, &[1, 2], &[Scalar::from(0u64)]),
        instance_with(3, &[4, 5, 6, 7], &[Scalar::from(9u64), big, Scalar::from(1u64)]),
        instance_with(4, &[0, 5], &[big]),
    ];
    for i in cases.iter() {
        assert_eq!(run(i), Ok(()));
    }
}

#[test]
fn verify_tells_pass_from_fail() {
    let i = toy();
    let key = VerifyingKey::decode(&i.alpha1, &i.beta2, &i.gamma2, &i.delta2, &i.ic).unwrap();
    let pvk = key.clone().prepare();
    assert_eq!(pvk.key, key);
    let proof = Proof::decode(&i.pi_a, &i.pi_b, &i.pi_c).unwrap();
    let good = decode_public_signal(b"23").unwrap();
    let bad = decode_public_signal(b"22").unwrap();
    assert_eq!(verify(&pvk, &proof, &good), Ok(true));
    assert_eq!(verify(&pvk, &proof, &bad), Ok(false));
    let swapped = Proof { pi_a: proof.pi_c.clone(), pi_b: proof.pi_b.clone(), pi_c: proof.pi_a.clone() };
    assert_eq!(verify(&pvk, &swapped, &good), Ok(false));
}

#[test]
fn signal_of_the_wrong_length_is_a_mismatch() {
    let i = toy();
    let key = VerifyingKey::decode(&i.alpha1, &i.beta2, &i.gamma2, &i.delta2, &i.ic).unwrap();
    let pvk = key.prepare();
    let proof = Proof::decode(&i.pi_a, &i.pi_b, &i.pi_c).unwrap();
    let none: Vec<FieldElement> = Vec::new();
    assert_eq!(
        verify(&pvk, &proof, &none),
        Err(VerificationError::PublicSignalLengthMismatch)
    );
    let two = decode_public_signal(b"23,0").unwrap();
    assert_eq!(
        verify(&pvk, &proof, &two),
        Err(VerificationError::PublicSignalLengthMismatch)
    );
    let mut j = toy();
    j.signal = b"23,0".to_vec();
    assert_eq!(run(&j), Err(VerificationError::PublicSignalLengthMismatch));
    let empty = VerifyingKey::decode(&i.alpha1, &i.beta2, &i.gamma2, &i.delta2, &Vec::new())
        .unwrap()
        .prepare();
    assert_eq!(
        verify(&empty, &proof, &none),
        Err(VerificationError::PublicSignalLengthMismatch)
    );
}

#[test]
fn inputs_accumulate_into_one_point() {
    let i = instance_with(0, &[17, 19, 2], &[Scalar::from(23u64), Scalar::from(3u64)]);
    let pvk = VerifyingKey::decode(&i.alpha1, &i.beta2, &i.gamma2, &i.delta2, &i.ic)
        .unwrap()
        .prepare();
    let signal = decode_public_signal(&i.signal).unwrap();
    let vk_x = prepare_inputs(&pvk, &signal);
    let expected = g1_times(Scalar::from(17u64 + 19 * 23 + 2 * 3));
    assert_eq!(vk_x.to_uncompressed(), expected.to_uncompressed().to_vec());
    let zero = decode_public_signal(b"0,0").unwrap();
    assert_eq!(prepare_inputs(&pvk, &zero), pvk.key.ic[0]);
}

#[test]
fn prepared_key_holds_the_inverses() {
    let i = toy();
    let key = VerifyingKey::decode(&i.alpha1, &i.beta2, &i.gamma2, &i.delta2, &i.ic).unwrap();
    let pvk = key.prepare();
    let alpha = g1_times(Scalar::from(5u64));
    let gamma = g2_times(Scalar::from(11u64));
    let delta = g2_times(Scalar::from(13u64));
    assert_eq!(pvk.key.alpha1.to_uncompressed(), alpha.to_uncompressed().to_vec());
    assert_eq!(pvk.neg_alpha1.to_uncompressed(), (-alpha).to_uncompressed().to_vec());
    assert_eq!(pvk.neg_gamma2.to_uncompressed(), (-gamma).to_uncompressed().to_vec());
    assert_eq!(pvk.neg_delta2.to_uncompressed(), (-delta).to_uncompressed().to_vec());
    assert_ne!(pvk.neg_alpha1, pvk.key.alpha1);
    assert_ne!(pvk.neg_gamma2, pvk.key.gamma2);
}

#[test]
fn inverse_of_the_generator_has_the_negated_ordinate() {
    let i = toy();
    let generator: Vec<u8> = b"3685416753713387016781088315183077757961620795782546409894578378688607592378376318836054947676345821548104185464507,1339506544944476473020471379941921221584933875938349620426543736416511423956333506472724655353366534992391756441569".to_vec();
    let key = VerifyingKey::decode(&generator, &i.beta2, &i.gamma2, &i.delta2, &i.ic).unwrap();
    let pvk = key.prepare();
    assert_eq!(pvk.key.alpha1.to_buffer(), generator);
    assert_eq!(
        pvk.neg_alpha1.to_buffer(),
        b"3685416753713387016781088315183077757961620795782546409894578378688607592378376318836054947676345821548104185464507,2662903010277190920397318445793982934971948944000658264905514399707520226534504357969962973775649129045502516118218".to_vec()
    );
    let at_infinity = VerifyingKey::decode(b"0,0", &i.beta2, &i.gamma2, &i.delta2, &i.ic)
        .unwrap()
        .prepare();
    assert_eq!(at_infinity.neg_alpha1, G1Point::identity());
}

#[test]
fn key_with_identity_points_is_accepted_and_fails_the_proof() {
    let mut i = toy();
    i.ic[1] = b"0,0".to_vec();
    i.gamma2 = b"0,0,0,0".to_vec();
    let key = VerifyingKey::decode(&i.alpha1, &i.beta2, &i.gamma2, &i.delta2, &i.ic).unwrap();
    assert_eq!(key.ic[1], G1Point::identity());
    assert_eq!(key.gamma2, G2Point::identity());
    let pvk = key.prepare();
    assert_eq!(pvk.neg_gamma2, G2Point::identity());
    assert_eq!(run(&i), Err(VerificationError::VerificationFailed));
}

#[test]
fn corrupted_proof_digit_never_passes() {
    let i = toy();
    let mut seen_invalid_point: bool = false;
    for at in [0usize, 7, 40, 100, 150] {
        for buffer in 0..3 {
            let mut j = toy();
            let target: &mut Vec<u8> = match buffer {
                0 => &mut j.pi_a,
                1 => &mut j.pi_b,
                _ => &mut j.pi_c,
            };
            if target[at] == b',' {
                continue;
            }
            target[at] = if target[at] == b'5' { b'6' } else { b'5' };
            let r = run(&j);
            assert!(
                r == Err(VerificationError::InvalidPointError)
                    || r == Err(VerificationError::VerificationFailed)
                    || r == Err(VerificationError::FieldRangeError)
            );
            if r == Err(VerificationError::InvalidPointError) {
                seen_invalid_point = true;
            }
        }
    }
    assert!(seen_invalid_point);
    let mut j = toy();
    j.pi_a[3] = b'x';
    assert_eq!(run(&j), Err(VerificationError::EncodingError));
    assert_eq!(run(&i), Ok(()));
}

#[test]
fn proof_for_another_statement_fails() {
    let i = toy();
    let other = instance_with(0, &[17, 19], &[Scalar::from(24u64)]);
    let mut mixed = toy();
    mixed.pi_c = other.pi_c.clone();
    assert_ne!(i.pi_c, other.pi_c);
    assert_eq!(run(&mixed), Err(VerificationError::VerificationFailed));
    assert_eq!(run(&other), Ok(()));
}

#[test]
fn encoded_errors_come_in_the_order_key_signal_proof() {
    let mut i = toy();
    i.pi_a = b"1,1".to_vec();
    assert_eq!(run(&i), Err(VerificationError::InvalidPointError));
    i.signal = b"2x".to_vec();
    assert_eq!(run(&i), Err(VerificationError::EncodingError));
    i.delta2 = b"4002409555221667393417789825735904156556882819939007885332058136124031650490837864442687629129015664037894272559787,0,0,0".to_vec();
    assert_eq!(run(&i), Err(VerificationError::FieldRangeError));
    i.ic[1] = b"1,1".to_vec();
    assert_eq!(run(&i), Err(VerificationError::FieldRangeError));
    i.alpha1 = b"7".to_vec();
    assert_eq!(run(&i), Err(VerificationError::EncodingError));
    let mut j = toy();
    j.ic[0] = b"1,1".to_vec();
    j.ic[1] = b"x".to_vec();
    assert_eq!(run(&j), Err(VerificationError::InvalidPointError));
}

#[test]
fn pallet_stores_keys_and_verifies() {
    let i = toy();
    let mut pallet = Pallet::new();
    assert_eq!(pallet.prepared, None);
    assert_eq!(pallet.vkey.alpha_1, Vec::<u8>::new());
    assert_eq!(pallet.vkey.ic1, Vec::<u8>::new());
    assert_eq!(pallet.public_signal, Vec::<u8>::new());
    assert_eq!(pallet.vkey.decode(), Err(VerificationError::EncodingError));
    assert_eq!(vkey_of(&i).decode(), VerifyingKey::decode(&i.alpha1, &i.beta2, &i.gamma2, &i.delta2, &i.ic));
    let r = pallet.set_zk_keys(
        i.signal.clone(),
        i.alpha1.clone(),
        i.beta2.clone(),
        i.gamma2.clone(),
        i.delta2.clone(),
        i.ic[0].clone(),
        i.ic[1].clone(),
    );
    assert_eq!(
        r,
        Ok(vec![Event::PublicSignalStored(b"23".to_vec()), Event::VerificationKeyStored(vkey_of(&i))])
    );
    assert_eq!(pallet.public_signal, b"23".to_vec());
    assert_eq!(pallet.vkey, vkey_of(&i));
    assert_eq!(pallet.vkey.duplicate(), vkey_of(&i));
    let expected = VerifyingKey::decode(&i.alpha1, &i.beta2, &i.gamma2, &i.delta2, &i.ic)
        .unwrap()
        .prepare();
    assert_eq!(pallet.prepared, Some(expected));
    let pof = ProofStr { pi_a: i.pi_a.clone(), pi_b: i.pi_b.clone(), pi_c: i.pi_c.clone() };
    let before = pallet.clone();
    assert_eq!(
        pallet.verify(i.pi_a.clone(), i.pi_b.clone(), i.pi_c.clone()),
        Ok(vec![Event::VerificationPassed, Event::ProofStored(pof)])
    );
    assert_eq!(pallet, before);
    assert!(pallet.verify(i.pi_a.clone(), i.pi_b.clone(), i.pi_c.clone()).is_ok());
}

#[test]
fn restored_state_is_the_state_that_was_set() {
    let i = toy();
    let set = key_set(&i);
    let restored = Pallet::restore(vkey_of(&i), i.signal.clone());
    assert_eq!(restored, set);
    assert!(restored.verify(i.pi_a.clone(), i.pi_b.clone(), i.pi_c.clone()).is_ok());
    let mut broken = vkey_of(&i);
    broken.beta_2 = i.alpha1.clone();
    let restored = Pallet::restore(broken.clone(), b"1".to_vec());
    assert_eq!(restored.prepared, None);
    assert_eq!(restored.vkey, broken);
    assert_eq!(restored.public_signal, b"1".to_vec());
    assert_eq!(
        restored.verify(i.pi_a.clone(), i.pi_b.clone(), i.pi_c.clone()),
        Err(Error::ErrorVerificationKey)
    );
}

#[test]
fn points_are_written_as_they_are_read() {
    let i = toy();
    let key = VerifyingKey::decode(&i.alpha1, &i.beta2, &i.gamma2, &i.delta2, &i.ic).unwrap();
    assert_eq!(key.alpha1.to_buffer(), i.alpha1);
    assert_eq!(key.beta2.to_buffer(), i.beta2);
    assert_eq!(key.ic[1].to_buffer(), i.ic[1]);
    assert_eq!(G1Point::from_buffer(&key.ic[0].to_buffer()), Ok(key.ic[0].clone()));
    assert_eq!(G2Point::from_buffer(&key.delta2.to_buffer()), Ok(key.delta2.clone()));
    assert_eq!(G1Point::identity().to_buffer(), b"0,0".to_vec());
    assert_eq!(G2Point::identity().to_buffer(), b"0,0,0,0".to_vec());
}

#[test]
fn pallet_rejects_bad_keys_and_keeps_its_state() {
    let i = toy();
    let mut pallet = Pallet::new();
    let fresh = pallet.clone();
    let r = pallet.set_zk_keys(
        Vec::new(),
        i.alpha1.clone(),
        i.beta2.clone(),
        i.gamma2.clone(),
        i.delta2.clone(),
        i.ic[0].clone(),
        i.ic[1].clone(),
    );
    assert_eq!(r, Err(Error::ErrorPublicSignal));
    assert_eq!(pallet, fresh);
    let r = pallet.set_zk_keys(
        Vec::new(),
        b"1,1".to_vec(),
        i.beta2.clone(),
        i.gamma2.clone(),
        i.delta2.clone(),
        i.ic[0].clone(),
        i.ic[1].clone(),
    );
    assert_eq!(r, Err(Error::ErrorPublicSignal));
    let mut pallet = key_set(&i);
    let set = pallet.clone();
    let r = pallet.set_zk_keys(
        b"5".to_vec(),
        i.alpha1.clone(),
        i.beta2.clone(),
        i.gamma2.clone(),
        i.ic[0].clone(),
        i.ic[0].clone(),
        i.ic[1].clone(),
    );
    assert_eq!(r, Err(Error::ErrorVerificationKey));
    assert_eq!(pallet, set);
    assert!(pallet.verify(i.pi_a.clone(), i.pi_b.clone(), i.pi_c.clone()).is_ok());
}

#[test]
fn pallet_rejects_a_signal_that_is_not_one_scalar() {
    let i = toy();
    let cases: [&[u8]; 7] = [
        b"",
        b"twenty-three",
        b"23,",
        b"23,1",
        b" 23",
        b"-23",
        b"52435875175126190479447740508185965837690552500527637822603658699938581184513",
    ];
    for signal in cases {
        let mut pallet = Pallet::new();
        let r = pallet.set_zk_keys(
            signal.to_vec(),
            i.alpha1.clone(),
            i.beta2.clone(),
            i.gamma2.clone(),
            i.delta2.clone(),
            i.ic[0].clone(),
            i.ic[1].clone(),
        );
        assert_eq!(r, Err(Error::ErrorPublicSignal));
        assert_eq!(pallet, Pallet::new());
    }
    let mut pallet = Pallet::new();
    let r = pallet.set_zk_keys(
        b"0023".to_vec(),
        i.alpha1.clone(),
        i.beta2.clone(),
        i.gamma2.clone(),
        i.delta2.clone(),
        i.ic[0].clone(),
        i.ic[1].clone(),
    );
    assert!(r.is_ok());
    assert!(pallet.verify(i.pi_a.clone(), i.pi_b.clone(), i.pi_c.clone()).is_ok());
}

#[test]
fn restored_signal_is_judged_at_verify() {
    let i = toy();
    let pallet = Pallet::restore(vkey_of(&i), b"twenty-three".to_vec());
    assert_eq!(
        pallet.verify(i.pi_a.clone(), i.pi_b.clone(), i.pi_c.clone()),
        Err(Error::ParsePulbicSignalError)
    );
    assert_eq!(
        pallet.verify(b"1,1".to_vec(), i.pi_b.clone(), i.pi_c.clone()),
        Err(Error::ErrorProof)
    );
    let pallet = Pallet::restore(vkey_of(&i), b"23,1".to_vec());
    assert_eq!(
        pallet.verify(i.pi_a.clone(), i.pi_b.clone(), i.pi_c.clone()),
        Err(Error::InvalidProof)
    );
    let pallet = Pallet::restore(vkey_of(&i), Vec::new());
    assert_eq!(
        pallet.verify(i.pi_a.clone(), i.pi_b.clone(), i.pi_c.clone()),
        Err(Error::InvalidProof)
    );
}

#[test]
fn pallet_verify_errors() {
    let i = toy();
    let idle = Pallet::new();
    assert_eq!(
        idle.verify(i.pi_a.clone(), i.pi_b.clone(), i.pi_c.clone()),
        Err(Error::ErrorVerificationKey)
    );
    assert_eq!(
        idle.verify(Vec::new(), i.pi_b.clone(), i.pi_c.clone()),
        Err(Error::ErrorProof)
    );
    let pallet = key_set(&i);
    assert_eq!(
        pallet.verify(i.pi_a.clone(), i.pi_b.clone(), b"0,1".to_vec()),
        Err(Error::ErrorProof)
    );
    assert_eq!(
        pallet.verify(i.pi_c.clone(), i.pi_b.clone(), i.pi_a.clone()),
        Err(Error::InvalidProof)
    );
    let mut other = toy();
    other.signal = b"24".to_vec();
    let pallet = key_set(&other);
    assert_eq!(
        pallet.verify(i.pi_a.clone(), i.pi_b.clone(), i.pi_c.clone()),
        Err(Error::InvalidProof)
    );
}

#[test]
fn replacing_the_key_replaces_the_prepared_key() {
    let old = toy();
    let new = instance_with(100, &[17, 19], &[Scalar::from(23u64)]);
    let mut pallet = key_set(&old);
    let stale = pallet.prepared.clone();
    assert!(pallet.verify(old.pi_a.clone(), old.pi_b.clone(), old.pi_c.clone()).is_ok());
    let r = pallet.set_zk_keys(
        new.signal.clone(),
        new.alpha1.clone(),
        new.beta2.clone(),
        new.gamma2.clone(),
        new.delta2.clone(),
        new.ic[0].clone(),
        new.ic[1].clone(),
    );
    assert!(r.is_ok());
    assert_ne!(pallet.prepared, stale);
    assert_eq!(pallet.prepared, key_set(&new).prepared);
    assert_eq!(
        pallet.verify(old.pi_a.clone(), old.pi_b.clone(), old.pi_c.clone()),
        Err(Error::InvalidProof)
    );
    assert!(pallet.verify(new.pi_a.clone(), new.pi_b.clone(), new.pi_c.clone()).is_ok());
    let mut mixed = toy();
    mixed.alpha1 = new.alpha1.clone();
    assert_eq!(run(&mixed), Err(VerificationError::VerificationFailed));
}

#[test]
fn verdict_agrees_with_separate_pairings() {
    let alpha: G1Affine = g1_times(Scalar::from(5u64));
    let beta: G2Affine = g2_times(Scalar::from(7u64));
    let gamma: G2Affine = g2_times(Scalar::from(11u64));
    let delta: G2Affine = g2_times(Scalar::from(13u64));
    let ic0: G1Affine = g1_times(Scalar::from(17u64));
    let ic1: G1Affine = g1_times(Scalar::from(19u64));
    let a: G1Affine = g1_times(Scalar::from(29u64));
    let b: G2Affine = g2_times(Scalar::from(31u64));
    let i = toy();
    assert_eq!(i.alpha1, g1_buffer(&alpha));
    assert_eq!(i.pi_b, g2_buffer(&b));
    let raw: [u8; 96] = G1Point::from_buffer(&i.pi_c).unwrap().to_uncompressed().try_into().unwrap();
    let c: G1Affine = G1Affine::from_uncompressed(&raw).unwrap();
    let mut verdicts: Vec<bool> = Vec::new();
    for input in [23u64, 24u64, 0u64] {
        let vk_x: G1Affine = (G1Projective::from(ic0) + ic1 * Scalar::from(input)).to_affine();
        let left: Gt = Bls12::pairing(&a, &b);
        let right: Gt =
            Bls12::pairing(&alpha, &beta) + Bls12::pairing(&vk_x, &gamma) + Bls12::pairing(&c, &delta);
        let mut j = toy();
        j.signal = input.to_string().into_bytes();
        assert_eq!(run(&j).is_ok(), left == right);
        verdicts.push(left == right);
    }
    assert_eq!(verdicts, vec![true, false, false]);
}

#[test]
fn derived_points_are_members_of_their_groups() {
    let i = instance_with(0, &[17, 19, 2], &[Scalar::from(23u64), Scalar::from(3u64)]);
    let pvk = VerifyingKey::decode(&i.alpha1, &i.beta2, &i.gamma2, &i.delta2, &i.ic)
        .unwrap()
        .prepare();
    let signal = decode_public_signal(&i.signal).unwrap();
    let vk_x = prepare_inputs(&pvk, &signal);
    assert_eq!(G1Point::from_buffer(&vk_x.to_buffer()), Ok(vk_x));
    assert_eq!(G1Point::from_buffer(&pvk.neg_alpha1.to_buffer()), Ok(pvk.neg_alpha1.clone()));
    assert_eq!(G2Point::from_buffer(&pvk.neg_gamma2.to_buffer()), Ok(pvk.neg_gamma2.clone()));
    assert_eq!(G2Point::from_buffer(&pvk.neg_delta2.to_buffer()), Ok(pvk.neg_delta2.clone()));
}

#[test]
fn proof_with_a_byte_that_is_no_digit_is_an_error_proof() {
    let i = toy();
    let pallet = key_set(&i);
    for at in [0usize, 50, 110] {
        for byte in [b',', b' ', b'a', 0u8, 0xffu8, b'/', b':'] {
            let mut a: Vec<u8> = i.pi_a.clone();
            let mut b: Vec<u8> = i.pi_b.clone();
            let mut c: Vec<u8> = i.pi_c.clone();
            if a[at] == b',' || b[at] == b',' || c[at] == b',' {
                continue;
            }
            a[at] = byte;
            b[at] = byte;
            c[at] = byte;
            assert_eq!(
                pallet.verify(a, i.pi_b.clone(), i.pi_c.clone()),
                Err(Error::ErrorProof)
            );
            assert_eq!(
                pallet.verify(i.pi_a.clone(), b, i.pi_c.clone()),
                Err(Error::ErrorProof)
            );
            assert_eq!(
                pallet.verify(i.pi_a.clone(), i.pi_b.clone(), c),
                Err(Error::ErrorProof)
            );
        }
    }
}

#[test]
fn proof_with_a_changed_digit_never_passes_the_pallet() {
    let i = toy();
    let pallet = key_set(&i);
    for at in [0usize, 3, 60, 100, 120] {
        for buffer in 0..3 {
            let mut a: Vec<u8> = i.pi_a.clone();
            let mut b: Vec<u8> = i.pi_b.clone();
            let mut c: Vec<u8> = i.pi_c.clone();
            let target: &mut Vec<u8> = match buffer {
                0 => &mut a,
                1 => &mut b,
                _ => &mut c,
            };
            if target[at] == b',' {
                continue;
            }
            target[at] = if target[at] == b'7' { b'8' } else { b'7' };
            let r = pallet.verify(a, b, c);
            assert!(r == Err(Error::ErrorProof) || r == Err(Error::InvalidProof));
        }
    }
}

#[test]
fn changed_scalar_digit_is_an_invalid_proof() {
    let i = toy();
    for signal in [&b"33"[..], b"13", b"22", b"24", b"20", b"03"] {
        let mut other = toy();
        other.signal = signal.to_vec();
        let pallet = key_set(&other);
        assert_eq!(
            pallet.verify(i.pi_a.clone(), i.pi_b.clone(), i.pi_c.clone()),
            Err(Error::InvalidProof)
        );
    }
}
