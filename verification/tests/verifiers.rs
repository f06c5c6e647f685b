use soroban_sdk::Env;
use veil::groth16::{
    mock_proof, verify_mock_policy_transaction, Groth16Error, Groth16Proof, MockGroth16Verifier,
    MOCK_POLICY_PUBLIC_INPUTS, PROOF_SIZE,
};
use veil::groth16_verifier::{CircomGroth16Verifier, VerificationKey};
use veil::uint::U256;

fn fr_from_u32(value: u32) -> U256 {
    U256::from_u32(value)
}

fn policy_public_inputs() -> Vec<U256> {
    (0..MOCK_POLICY_PUBLIC_INPUTS).map(fr_from_u32).collect()
}

#[test]
fn accepts_deterministic_policy_fixture_shape() {
    let proof = mock_proof();
    let inputs = policy_public_inputs();

    let result = MockGroth16Verifier::verify(proof, inputs);

    assert_eq!(result, Ok(true));
}

#[test]
fn rejects_wrong_public_input_length() {
    let proof = mock_proof();
    let inputs = vec![fr_from_u32(1)];

    let result = MockGroth16Verifier::verify(proof, inputs);

    assert_eq!(result, Err(Groth16Error::MalformedPublicInputs));
}

#[test]
fn rejects_unknown_proof_fixture() {
    let mut proof = mock_proof();
    let mut wrong_a = [0u8; 64];
    wrong_a[31] = 2;
    wrong_a[63] = 2;
    proof.a = wrong_a.to_vec();
    let inputs = policy_public_inputs();

    let result = MockGroth16Verifier::verify(proof, inputs);

    assert_eq!(result, Err(Groth16Error::InvalidProof));
}

#[test]
fn mock_verifier_refuses_an_empty_proof() {
    let proof = Groth16Proof { a: vec![0u8; 64], b: vec![0u8; 128], c: vec![0u8; 64] };
    assert!(proof.is_empty());
    assert_eq!(
        verify_mock_policy_transaction(&proof, &policy_public_inputs()),
        Err(Groth16Error::MalformedProof)
    );
}

#[test]
fn mock_proof_has_the_documented_bytes() {
    let proof = mock_proof();
    assert_eq!(proof.a.len(), 64);
    assert_eq!(proof.b.len(), 128);
    assert_eq!(proof.a[31], 1);
    assert_eq!(proof.a[63], 2);
    assert_eq!(proof.b[31], 1);
    assert_eq!(proof.b[63], 1);
    assert_eq!(proof.b[95], 1);
    assert_eq!(proof.b[127], 1);
    assert_eq!(proof.b.iter().map(|b| *b as u32).sum::<u32>(), 4);
    assert_eq!(proof.a, proof.c);
    assert!(!proof.is_empty());
}

fn serialize_proof(proof: &Groth16Proof) -> Vec<u8> {
    proof.to_bytes()
}

#[test]
fn groth16_proof_parsing_checks_size() {
    let proof = mock_proof();

    let encoded = serialize_proof(&proof);
    assert_eq!(encoded.len(), PROOF_SIZE);
    let parsed = Groth16Proof::try_from_bytes(&encoded).unwrap();
    assert_eq!(parsed.a, proof.a);
    assert_eq!(parsed.b, proof.b);
    assert_eq!(parsed.c, proof.c);

    let truncated = encoded[..PROOF_SIZE - 1].to_vec();
    assert!(matches!(
        Groth16Proof::try_from_bytes(&truncated),
        Err(Groth16Error::MalformedProof)
    ));
}

/// The BN254 G1 generator (1, 2), uncompressed.
fn g1_generator() -> Vec<u8> {
    let mut p = vec![0u8; 64];
    p[31] = 1;
    p[63] = 2;
    p
}

fn test_vk() -> VerificationKey {
    let g2 = vec![0u8; 128];
    VerificationKey {
        alpha: g1_generator(),
        beta: g2.clone(),
        gamma: g2.clone(),
        delta: g2,
        ic: (0..10).map(|_| g1_generator()).collect(),
    }
}

#[test]
fn test_rejects_wrong_public_input_length() {
    let env = Env::default();
    let vk = test_vk();
    let proof = Groth16Proof { a: g1_generator(), b: vec![1u8; 128], c: g1_generator() };

    let short_inputs: Vec<U256> = (0..5).map(|_| fr_from_u32(33)).collect();

    let result = CircomGroth16Verifier::prepare_pairing(&env, &vk, &proof, &short_inputs);
    assert!(matches!(result, Err(Groth16Error::MalformedPublicInputs)));
}

#[test]
fn verifier_pairs_the_negated_a_with_b_and_the_key() {
    let env = Env::default();
    let vk = test_vk();
    let proof = Groth16Proof { a: g1_generator(), b: vec![1u8; 128], c: g1_generator() };
    let inputs: Vec<U256> = (0..9).map(|_| fr_from_u32(0)).collect();

    let pc = CircomGroth16Verifier::prepare_pairing(&env, &vk, &proof, &inputs).unwrap();

    assert_eq!(pc.g1.len(), 4);
    assert_eq!(pc.g2.len(), 4);
    // -A keeps x and negates y in the base field.
    let q = num_bigint::BigUint::parse_bytes(
        b"21888242871839275222246405745257275088696311157297823662689037894645226208583",
        10,
    )
    .unwrap();
    let neg_y = num_bigint::BigUint::from_bytes_be(&pc.g1[0][32..]);
    assert_eq!(&pc.g1[0][..32], &proof.a[..32]);
    assert_eq!(neg_y, q - 2u32);
    assert_eq!(pc.g1[1], vk.alpha);
    // Every input is zero, so vk_x is ic[0] alone.
    assert_eq!(pc.g1[2], vk.ic[0]);
    assert_eq!(pc.g1[3], proof.c);
    assert_eq!(pc.g2[0], proof.b);
    assert_eq!(pc.g2[1], vk.beta);
    assert_eq!(pc.g2[2], vk.gamma);
    assert_eq!(pc.g2[3], vk.delta);
}

#[test]
fn verifier_folds_the_inputs_into_vk_x() {
    let env = Env::default();
    let vk = test_vk();
    let proof = Groth16Proof { a: g1_generator(), b: vec![1u8; 128], c: g1_generator() };
    let mut inputs: Vec<U256> = (0..9).map(|_| fr_from_u32(0)).collect();
    inputs[0] = fr_from_u32(1);

    let pc = CircomGroth16Verifier::prepare_pairing(&env, &vk, &proof, &inputs).unwrap();

    // ic[0] + 1 * ic[1] = G + G = 2G.
    let bn = env.crypto().bn254();
    let g = soroban_sdk::crypto::bn254::Bn254G1Affine::from_array(
        &env,
        &g1_generator().try_into().unwrap(),
    );
    let two_g = bn.g1_add(&g, &g).to_array().to_vec();
    assert_eq!(pc.g1[2], two_g);
}

#[test]
fn verifier_verdict_follows_the_pairing() {
    assert_eq!(CircomGroth16Verifier::verdict(true), Ok(true));
    assert_eq!(CircomGroth16Verifier::verdict(false), Err(Groth16Error::InvalidProof));
}

#[test]
fn a_length_mismatch_is_refused_before_any_point_is_read() {
    let env = Env::default();
    // Points that are not on the curve: the count check comes first.
    let vk = VerificationKey {
        alpha: vec![7u8; 64],
        beta: vec![0u8; 128],
        gamma: vec![0u8; 128],
        delta: vec![0u8; 128],
        ic: (0..10).map(|_| vec![7u8; 64]).collect(),
    };
    let proof = Groth16Proof { a: vec![7u8; 64], b: vec![1u8; 128], c: vec![7u8; 64] };
    let inputs: Vec<U256> = (0..5).map(|_| fr_from_u32(33)).collect();
    assert!(matches!(
        CircomGroth16Verifier::prepare_pairing(&env, &vk, &proof, &inputs),
        Err(Groth16Error::MalformedPublicInputs)
    ));
}

fn be32_decimal(d: &str) -> Vec<u8> {
    let v = num_bigint::BigUint::parse_bytes(d.as_bytes(), 10).unwrap().to_bytes_be();
    let mut out = vec![0u8; 32 - v.len()];
    out.extend_from_slice(&v);
    out
}

/// The BN254 G2 generator: x then y, each as c1 followed by c0.
fn g2_generator() -> Vec<u8> {
    let mut p = Vec::new();
    p.extend(be32_decimal("11559732032986387107991004021392285783925812861821192530917403151452391805634"));
    p.extend(be32_decimal("10857046999023057135944570762232829481370756359578518086990519993285655852781"));
    p.extend(be32_decimal("4082367875863433681332203403145435568316851327593401208105741076214120093531"));
    p.extend(be32_decimal("8495653923123431417604973247489272438418190587263600148770280649306958101930"));
    p
}

fn pairing_vk(alpha: Vec<u8>) -> VerificationKey {
    VerificationKey {
        alpha,
        beta: g2_generator(),
        gamma: g2_generator(),
        delta: g2_generator(),
        // Points at infinity: vk_x is infinity whatever the inputs.
        ic: (0..10).map(|_| vec![0u8; 64]).collect(),
    }
}

#[test]
fn verify_with_vk_accepts_when_the_pairing_equation_holds() {
    let env = Env::default();
    // e(-G, H) * e(G, H) * e(0, H) * e(0, H) == 1.
    let vk = pairing_vk(g1_generator());
    let proof = Groth16Proof { a: g1_generator(), b: g2_generator(), c: vec![0u8; 64] };
    let inputs: Vec<U256> = (0..9).map(fr_from_u32).collect();
    assert_eq!(CircomGroth16Verifier::verify_with_vk(&env, &vk, &proof, &inputs), Ok(true));
}

#[test]
fn verify_with_vk_rejects_when_the_pairing_equation_fails() {
    let env = Env::default();
    // alpha = 2G: e(-G, H) * e(2G, H) = e(G, H) != 1.
    let bn = env.crypto().bn254();
    let g = soroban_sdk::crypto::bn254::Bn254G1Affine::from_array(
        &env,
        &g1_generator().try_into().unwrap(),
    );
    let two_g = bn.g1_add(&g, &g).to_array().to_vec();
    let vk = pairing_vk(two_g);
    let proof = Groth16Proof { a: g1_generator(), b: g2_generator(), c: vec![0u8; 64] };
    let inputs: Vec<U256> = (0..9).map(fr_from_u32).collect();
    assert_eq!(
        CircomGroth16Verifier::verify_with_vk(&env, &vk, &proof, &inputs),
        Err(Groth16Error::InvalidProof)
    );
    let short: Vec<U256> = (0..5).map(fr_from_u32).collect();
    assert_eq!(
        CircomGroth16Verifier::verify_with_vk(&env, &vk, &proof, &short),
        Err(Groth16Error::MalformedPublicInputs)
    );
}
