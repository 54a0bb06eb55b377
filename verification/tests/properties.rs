use zkp_circuit::circuit::BiometricCircuit;
use zkp_circuit::circuit::BiometricConstraints;
use zkp_circuit::circuit::BiometricGadgets;
use zkp_circuit::circuit::ConstraintSystem;
use zkp_circuit::circuit::ProofGenerators;
use zkp_circuit::circuit::Variable;
use zkp_circuit::circuit::VerificationConstraints;
use zkp_circuit::circuit::VerificationGadgets;
use zkp_circuit::config::CircuitConfig;
use zkp_circuit::crypto::BatchFieldOps;
use zkp_circuit::crypto::CircuitHash;
use zkp_circuit::crypto::Commitment;
use zkp_circuit::crypto::CommitmentPoint;
use zkp_circuit::crypto::CommitmentScheme;
use zkp_circuit::crypto::FieldElement;
use zkp_circuit::crypto::FieldUtils;
use zkp_circuit::crypto::HashUtils;
use zkp_circuit::types::BiometricCommitment;
use zkp_circuit::types::BiometricEmbedding;
use zkp_circuit::types::BiometricProof;
use zkp_circuit::types::CircuitError;
use zkp_circuit::types::ProofWitness;
use zkp_circuit::utils::BinarySerializer;
use zkp_circuit::utils::ScalarUtils;
use zkp_circuit::utils::SerializationUtils;
use zkp_circuit::utils::ValidationUtils;
use zkp_circuit::mobile::MobileConfig;
use zkp_circuit::mobile::MobilePlatform;
use zkp_circuit::mobile::MobileUtils;
use zkp_circuit::ZKPCircuit;

/// The group order minus one, in little-endian bytes.
fn minus_one_bytes() -> [u8; 32] {
    [
        0xec, 0xd3, 0xf5, 0x5c, 0x1a, 0x63, 0x12, 0x58, 0xd6, 0x9c, 0xf7, 0xa2, 0xde, 0xf9, 0xde,
        0x14, 0, 0, 0, 0, 0, 0, 0, 0, 0, 0, 0, 0, 0, 0, 0, 0x10,
    ]
}

fn sample_proof() -> BiometricProof {
    BiometricProof::with_timestamp(
        vec![1, 2, 3, 4, 5],
        vec![vec![1, 2], vec![3, 4]],
        1000,
        128,
        vec![7; 32],
        1_700_000_000,
    )
}

fn same_record(a: &BiometricProof, b: &BiometricProof) -> bool {
    a.proof == b.proof && a.commitments == b.commitments
        && a.public_inputs.threshold == b.public_inputs.threshold
        && a.public_inputs.embedding_size == b.public_inputs.embedding_size
        && a.public_inputs.commitment_hash == b.public_inputs.commitment_hash
        && a.metadata.timestamp == b.metadata.timestamp
        && a.metadata.version == b.metadata.version
        && a.metadata.circuit_params.range_bits == b.metadata.circuit_params.range_bits
        && a.metadata.circuit_params.aggregation_size
            == b.metadata.circuit_params.aggregation_size
        && a.metadata.circuit_params.transcript_label
            == b.metadata.circuit_params.transcript_label
}

// ---------------------------------------------------------------- field

#[test]
fn field_element_of_u64_is_little_endian() {
    let e = FieldElement::from_u64(0x0102_0304_0506_0708);
    let mut expected = [0u8; 32];
    expected[..8].copy_from_slice(&[8, 7, 6, 5, 4, 3, 2, 1]);
    assert_eq!(e.bytes, expected);
    assert_eq!(e.to_u64(), Some(0x0102_0304_0506_0708));
    assert_eq!(FieldElement::from_u64(u64::MAX).to_u64(), Some(u64::MAX));
    assert_eq!(FieldElement::zero().bytes, [0u8; 32]);
    assert_eq!(FieldElement::one().to_u64(), Some(1));
}

#[test]
fn field_element_agrees_with_the_scalar_type() {
    let e = FieldElement::from_u64(123_456_789);
    let s = curve25519_dalek_ng::scalar::Scalar::from(123_456_789u64);
    assert_eq!(e.bytes, s.to_bytes());
}

#[test]
fn negative_integers_map_to_additive_inverses() {
    let minus_one = FieldUtils::i64_to_scalar(-1).unwrap();
    assert_eq!(minus_one.bytes, minus_one_bytes());
    let one = FieldUtils::i64_to_scalar(1).unwrap();
    let sum = BatchFieldOps::sum_scalars(&[minus_one, one]);
    assert_eq!(sum.bytes, [0u8; 32]);
    let least = FieldUtils::i64_to_scalar(i64::MIN).unwrap();
    let back = BatchFieldOps::sum_scalars(&[least, FieldElement::from_u64(1u64 << 63)]);
    assert_eq!(back.bytes, [0u8; 32]);
}

#[test]
fn scalar_to_u64_rejects_high_bytes() {
    let minus_one = FieldUtils::i64_to_scalar(-1).unwrap();
    assert!(matches!(
        FieldUtils::scalar_to_u64(&minus_one),
        Err(CircuitError::CryptographicError(_))
    ));
    let mut bytes = [0u8; 32];
    bytes[8] = 1;
    assert!(FieldUtils::scalar_to_u64(&FieldElement { bytes }).is_err());
    bytes[8] = 0;
    bytes[31] = 1;
    assert!(FieldUtils::scalar_to_u64(&FieldElement { bytes }).is_err());
    assert_eq!(FieldUtils::u64_to_scalar(77).to_u64(), Some(77));
}

#[test]
fn dot_product_and_linear_combination() {
    let a = vec![FieldElement::from_u64(2), FieldElement::from_u64(3)];
    let b = vec![FieldElement::from_u64(4), FieldElement::from_u64(5)];
    let dot = FieldUtils::scalar_dot_product(&a, &b).unwrap();
    assert_eq!(dot.to_u64(), Some(23));
    let lc = BatchFieldOps::linear_combination(&a, &b).unwrap();
    assert_eq!(lc.to_u64(), Some(23));
    assert!(matches!(
        FieldUtils::scalar_dot_product(&a, &b[..1]),
        Err(CircuitError::InvalidParameter(_))
    ));
    assert!(matches!(
        FieldUtils::scalar_distance_squared(&a, &b[..1]),
        Err(CircuitError::InvalidParameter(_))
    ));
    assert!(matches!(
        BatchFieldOps::linear_combination(&a, &b[..1]),
        Err(CircuitError::InvalidParameter(_))
    ));
    assert_eq!(BatchFieldOps::sum_scalars(&[]).to_u64(), Some(0));
    assert_eq!(BatchFieldOps::product_scalars(&[]).to_u64(), Some(1));
}

#[test]
fn field_distance_is_the_integer_distance_on_embeddings() {
    let current: Vec<i64> = vec![1_000_000, -1_000_000, 3, -4];
    let reference: Vec<i64> = vec![-1_000_000, 1_000_000, -3, 4];
    let a = FieldUtils::embedding_to_scalars(&current).unwrap();
    let b = FieldUtils::embedding_to_scalars(&reference).unwrap();
    let in_field = FieldUtils::scalar_distance_squared(&a, &b).unwrap();
    let witness = ProofWitness::new(current, reference, vec![]).unwrap();
    assert_eq!(witness.distance_squared, 8_000_000_000_100);
    assert_eq!(FieldUtils::scalar_to_u64(&in_field).unwrap(), witness.distance_squared);
}

#[test]
fn is_in_range_and_random_in_range() {
    assert!(FieldUtils::is_in_range(&FieldElement::from_u64(9), 10));
    assert!(!FieldUtils::is_in_range(&FieldElement::from_u64(10), 10));
    assert!(!FieldUtils::is_in_range(&FieldElement { bytes: minus_one_bytes() }, u64::MAX));
    for _ in 0..20 {
        let e = FieldUtils::random_scalar_in_range(7);
        assert!(e.to_u64().unwrap() < 7);
    }
    assert_eq!(FieldUtils::random_scalar_in_range(1).to_u64(), Some(0));
}

#[test]
fn inverse_of_a_scalar() {
    let seven = FieldElement::from_u64(7);
    let inverse = FieldUtils::scalar_inverse(&seven).unwrap();
    let product = BatchFieldOps::product_scalars(&[seven, inverse]);
    assert_eq!(product.to_u64(), Some(1));
    assert_ne!(inverse, seven);
    assert!(matches!(
        FieldUtils::scalar_inverse(&FieldElement::zero()),
        Err(CircuitError::CryptographicError(_))
    ));
    // the group order itself is zero in the field
    let mut order = minus_one_bytes();
    order[0] = 0xed;
    assert!(FieldUtils::scalar_inverse(&FieldElement { bytes: order }).is_err());
}

#[test]
fn scalar_utils_constructors() {
    assert_eq!(ScalarUtils::zero().to_u64(), Some(0));
    assert_eq!(ScalarUtils::one().to_u64(), Some(1));
    let mut entropy = [0u8; 64];
    entropy[0] = 5;
    assert_eq!(ScalarUtils::random(&entropy).to_u64(), Some(5));
    // 2^256 is not below the group order: the reduction changes the bytes
    let mut wide = [0u8; 64];
    wide[32] = 1;
    let reduced = ScalarUtils::random(&wide);
    let expected = curve25519_dalek_ng::scalar::Scalar::from_bytes_mod_order_wide(&wide);
    assert_eq!(reduced.bytes, expected.to_bytes());
    assert_ne!(reduced.bytes, [0u8; 32]);
    assert_ne!(ScalarUtils::thread_random(), ScalarUtils::thread_random());
}

// ----------------------------------------------------------------- hash

#[test]
fn digests_are_the_standard_ones() {
    let empty = HashUtils::blake3_hash(b"");
    assert_eq!(
        hex::encode(&empty),
        "af1349b9f5f9a1a6a0404dea36dcc9499bcb25c9adc112b7cc9a93cae41f3262"
    );
    let abc = HashUtils::sha256_hash(b"abc");
    assert_eq!(
        hex::encode(&abc),
        "ba7816bf8f01cfea414140de5dae2223b00361a396177a9cb410ff61f20015ad"
    );
    assert_eq!(HashUtils::blake3_hash(b"test data"), blake3::hash(b"test data").as_bytes().to_vec());
}

#[test]
fn embedding_digest_is_that_of_the_little_endian_bytes() {
    let embedding: Vec<i64> = vec![1, -2];
    let mut bytes = Vec::new();
    bytes.extend_from_slice(&1i64.to_le_bytes());
    bytes.extend_from_slice(&(-2i64).to_le_bytes());
    assert_eq!(HashUtils::hash_embedding(&embedding), HashUtils::blake3_hash(&bytes));
    let first: &[i64] = &[1];
    let second: &[i64] = &[-2];
    assert_eq!(HashUtils::hash_embedding_batch(&[first, second]), HashUtils::blake3_hash(&bytes));
    let parts: Vec<&[u8]> = vec![&[1u8, 2], &[], &[3u8]];
    assert_eq!(HashUtils::commitment_hash(&parts), HashUtils::blake3_hash(&[1, 2, 3]));
    let owned = vec![vec![1u8, 2], vec![], vec![3u8]];
    assert_eq!(HashUtils::commitments_digest(&owned), HashUtils::blake3_hash(&[1, 2, 3]));
}

#[test]
fn verify_hash_compares_all_bytes() {
    assert!(HashUtils::verify_hash(&[], &[]));
    assert!(HashUtils::verify_hash(&[1, 2, 3], &[1, 2, 3]));
    assert!(!HashUtils::verify_hash(&[1, 2, 3], &[1, 2]));
    assert!(!HashUtils::verify_hash(&[1, 2, 3], &[1, 2, 4]));
    assert!(!HashUtils::verify_hash(&[0, 2, 3], &[1, 2, 3]));
}

#[test]
fn circuit_hash_reads_the_first_eight_bytes() {
    let inputs: Vec<u64> = vec![7, 9];
    let mut bytes = Vec::new();
    bytes.extend_from_slice(&7u64.to_le_bytes());
    bytes.extend_from_slice(&9u64.to_le_bytes());
    let digest = HashUtils::blake3_hash(&bytes);
    let mut head = [0u8; 8];
    head.copy_from_slice(&digest[..8]);
    assert_eq!(CircuitHash::poseidon_simulate(&inputs).unwrap(), u64::from_le_bytes(head));
    assert_eq!(CircuitHash::hash_pair(7, 9).unwrap(), u64::from_le_bytes(head));
    assert!(matches!(
        CircuitHash::poseidon_simulate(&[]),
        Err(CircuitError::InvalidParameter(_))
    ));
}

// ---------------------------------------------------------- commitments

#[test]
fn commitments_on_the_fixed_generators() {
    let scheme = CommitmentScheme::new();
    let zero = FieldElement::zero();
    let one = FieldElement::one();
    // 0 * G + 0 * H is the identity, whose encoding is all zero
    assert_eq!(scheme.commit(&zero, &zero).to_bytes(), [0u8; 32]);
    // 1 * G + 0 * H is the base point
    assert_eq!(
        hex::encode(scheme.commit(&one, &zero).to_bytes()),
        "e2f2ae0a6abc4e71a884a961c500515f58e30b6aa582dd8db6a65945e08d2d76"
    );
    assert_eq!(scheme.g(), scheme.commit(&one, &zero));
    assert_eq!(scheme.h(), scheme.commit(&zero, &one));
    // the two generators are different points
    assert_ne!(scheme.g(), scheme.h());
    // two instances share their generators
    let other = CommitmentScheme::default();
    let value = FieldElement::from_u64(42);
    let blinding = FieldElement::from_u64(123);
    let commitment = scheme.commit(&value, &blinding);
    assert!(other.verify(&commitment, &value, &blinding));
    assert_eq!(commitment.to_vec(), commitment.to_bytes().to_vec());
}

#[test]
fn commitment_opens_to_its_value_only() {
    let scheme = CommitmentScheme::new();
    for (value, blinding) in [(0u64, 0u64), (1, 0), (42, 123), (u64::MAX, 5)] {
        let v = FieldElement::from_u64(value);
        let b = FieldElement::from_u64(blinding);
        let commitment = scheme.commit(&v, &b);
        assert!(scheme.verify(&commitment, &v, &b));
        let wrong = FieldElement::from_u64(value.wrapping_add(1));
        assert!(!scheme.verify(&commitment, &wrong, &b));
        let negative = FieldUtils::i64_to_scalar(-1).unwrap();
        assert!(!scheme.verify(&commitment, &negative, &b));
    }
}

#[test]
fn random_blinding_is_fresh() {
    let scheme = CommitmentScheme::new();
    let value = FieldElement::from_u64(9);
    let (first, blinding1) = scheme.commit_with_random_blinding(&value);
    let (second, blinding2) = scheme.commit_with_random_blinding(&value);
    assert_ne!(blinding1, blinding2);
    assert_ne!(first, second);
    assert!(scheme.verify(&first, &value, &blinding1));
    assert!(!scheme.verify(&first, &value, &blinding2));
    let fixed = Commitment::with_blinding(&value, blinding1, &scheme);
    assert_eq!(fixed.point, first);
    assert!(fixed.verify(&value, &scheme));
    let stored = BiometricCommitment::new(first.to_vec(), blinding1.bytes.to_vec(), vec![1]);
    assert_eq!(stored.commitment, first.to_vec());
    assert_eq!(stored.hash, vec![1]);
}

// -------------------------------------------------------------- circuit

#[test]
fn proof_of_close_embeddings_verifies() {
    let circuit = BiometricCircuit::new(4, 10);
    let proof = circuit.generate_proof(&[1, 2, 3, 4], &[1, 2, 3, 5]).unwrap();
    assert_eq!(proof.commitments.len(), 8);
    assert!(proof.commitments.iter().all(|c| c.len() == 32));
    assert_eq!(proof.public_inputs.threshold, 10);
    assert_eq!(proof.public_inputs.embedding_size, 4);
    assert_eq!(proof.public_inputs.commitment_hash, HashUtils::commitments_digest(&proof.commitments));
    assert!(!proof.proof.is_empty() && proof.proof.len() <= 5000);
    assert!(proof.metadata.timestamp > 0);
    assert_eq!(proof.metadata.version, "0.1.0");
    assert_eq!(proof.metadata.circuit_params.range_bits, 32);
    assert_eq!(proof.metadata.circuit_params.aggregation_size, 1);
    assert_eq!(proof.metadata.circuit_params.transcript_label, "PayNetZKPBiometric");
    assert_eq!(circuit.verify_proof(&proof), Ok(true));
    // a second verifier, configured alike, agrees
    let verifier = BiometricCircuit::new(4, 10);
    assert_eq!(verifier.verify_proof(&proof), Ok(true));
}

#[test]
fn proof_at_the_threshold_and_with_negative_coordinates() {
    let circuit = BiometricCircuit::new(2, 25);
    let proof = circuit.generate_proof(&[-3, 0], &[0, 4]).unwrap();
    assert_eq!(circuit.verify_proof(&proof), Ok(true));
    assert_eq!(
        circuit.generate_proof(&[-3, 0], &[0, 5]).unwrap_err(),
        CircuitError::ThresholdExceeded { expected: 25, actual: 34 }
    );
    let equal = circuit.generate_proof(&[7, -7], &[7, -7]).unwrap();
    assert_eq!(circuit.verify_proof(&equal), Ok(true));
}

#[test]
fn distant_embeddings_have_no_proof() {
    let circuit = BiometricCircuit::new(4, 10);
    let result = circuit.generate_proof(&[1, 2, 3, 4], &[1, 2, 3, 25]);
    assert_eq!(
        result.unwrap_err(),
        CircuitError::ThresholdExceeded { expected: 10, actual: 441 }
    );
}

#[test]
fn generate_proof_rejects_malformed_embeddings() {
    let circuit = BiometricCircuit::new(4, 10);
    assert!(matches!(
        circuit.generate_proof(&[1, 2, 3], &[1, 2, 3, 4]),
        Err(CircuitError::InvalidParameter(_))
    ));
    assert!(matches!(
        circuit.generate_proof(&[1, 2, 3, 4], &[1, 2, 3, 4, 5]),
        Err(CircuitError::InvalidParameter(_))
    ));
    assert!(matches!(
        circuit.generate_proof(&[1, 2, 3, 1_000_001], &[1, 2, 3, 4]),
        Err(CircuitError::InvalidParameter(_))
    ));
}

#[test]
fn verifier_rejects_tampered_proof_bytes() {
    let circuit = BiometricCircuit::new(4, 10);
    let proof = circuit.generate_proof(&[1, 2, 3, 4], &[1, 2, 3, 5]).unwrap();
    let length = proof.proof.len();
    for position in [0, 1, 33, length / 2, length - 1] {
        let mut tampered = proof.clone();
        tampered.proof[position] ^= 1;
        assert_eq!(circuit.verify_proof(&tampered), Ok(false));
    }
}

#[test]
fn verifier_rejects_tampered_commitments() {
    let circuit = BiometricCircuit::new(4, 10);
    let proof = circuit.generate_proof(&[1, 2, 3, 4], &[1, 2, 3, 5]).unwrap();
    for index in [0, 3, 4, 7] {
        // with the digest left as it was
        let mut tampered = proof.clone();
        tampered.commitments[index][5] ^= 0x10;
        assert_eq!(circuit.verify_proof(&tampered), Ok(false));
        // and with the digest brought up to date
        tampered.public_inputs.commitment_hash = HashUtils::commitments_digest(&tampered.commitments);
        assert_eq!(circuit.verify_proof(&tampered), Ok(false));
    }
    // two commitments exchanged between the embeddings
    let mut swapped = proof.clone();
    swapped.commitments.swap(0, 7);
    swapped.public_inputs.commitment_hash = HashUtils::commitments_digest(&swapped.commitments);
    assert_eq!(circuit.verify_proof(&swapped), Ok(false));
}

#[test]
fn verifier_checks_the_public_inputs() {
    let circuit = BiometricCircuit::new(4, 10);
    let proof = circuit.generate_proof(&[1, 2, 3, 4], &[1, 2, 3, 5]).unwrap();
    let mut other_threshold = proof.clone();
    other_threshold.public_inputs.threshold = 11;
    assert_eq!(circuit.verify_proof(&other_threshold), Ok(false));
    let mut other_size = proof.clone();
    other_size.public_inputs.embedding_size = 8;
    assert_eq!(circuit.verify_proof(&other_size), Ok(false));
    // a verifier with another threshold builds another constraint system
    let stricter = BiometricCircuit::new(4, 9);
    assert_eq!(stricter.verify_proof(&proof), Ok(false));
    let mut relabelled = proof.clone();
    relabelled.public_inputs.threshold = 9;
    assert_eq!(stricter.verify_proof(&relabelled), Ok(false));
    // a verifier for another dimension does not take the record
    let larger = BiometricCircuit::new(8, 10);
    assert_eq!(larger.verify_proof(&proof), Ok(false));
}

#[test]
fn verifier_rejects_records_without_shape() {
    let circuit = BiometricCircuit::new(4, 10);
    let proof = circuit.generate_proof(&[1, 2, 3, 4], &[1, 2, 3, 5]).unwrap();
    let mut empty = proof.clone();
    empty.proof.clear();
    assert_eq!(circuit.verify_proof(&empty), Ok(false));
    let mut long = proof.clone();
    long.proof = vec![0u8; 5001];
    assert_eq!(circuit.verify_proof(&long), Ok(false));
    let mut fewer = proof.clone();
    fewer.commitments.pop();
    assert_eq!(circuit.verify_proof(&fewer), Ok(false));
    let mut short = proof.clone();
    short.commitments[2].pop();
    assert_eq!(circuit.verify_proof(&short), Ok(false));
    assert!(!circuit.has_shape(&short));
    assert!(circuit.has_shape(&proof));
}

#[test]
fn a_proof_for_one_pair_does_not_fit_other_commitments() {
    let circuit = BiometricCircuit::new(4, 10);
    let first = circuit.generate_proof(&[1, 2, 3, 4], &[1, 2, 3, 5]).unwrap();
    let second = circuit.generate_proof(&[1, 2, 3, 4], &[1, 2, 3, 5]).unwrap();
    assert_ne!(first.commitments, second.commitments);
    let mut mixed = first.clone();
    mixed.commitments = second.commitments.clone();
    mixed.public_inputs.commitment_hash = second.public_inputs.commitment_hash.clone();
    assert_eq!(circuit.verify_proof(&mixed), Ok(false));
}

#[test]
fn configuration_rejects_bad_dimensions() {
    assert!(matches!(
        BiometricCircuit::configure(0, 1000),
        Err(CircuitError::InvalidParameter(_))
    ));
    assert!(matches!(
        BiometricCircuit::configure(513, 1000),
        Err(CircuitError::InvalidParameter(_))
    ));
    assert!(matches!(
        BiometricCircuit::configure(128, 99),
        Err(CircuitError::InvalidParameter(_))
    ));
    assert!(matches!(
        BiometricCircuit::configure(128, 10_001),
        Err(CircuitError::InvalidParameter(_))
    ));
    let circuit = BiometricCircuit::configure(512, 100).ok().unwrap();
    assert_eq!(circuit.embedding_size, 512);
    assert_eq!(circuit.threshold, 100);
    assert!(matches!(CircuitConfig::new(0, 1000), Err(CircuitError::InvalidParameter(_))));
    assert!(matches!(CircuitConfig::new(513, 1000), Err(CircuitError::InvalidParameter(_))));
    assert!(matches!(CircuitConfig::new(4, 10), Err(CircuitError::InvalidParameter(_))));
    let config = CircuitConfig::new(4, 100).unwrap();
    assert_eq!(config.range_bits, 32);
    assert_eq!(config.aggregation_size, 1);
    assert!(config.validate().is_ok());
    let mut edited = config.clone();
    edited.threshold = 0;
    assert!(edited.validate().is_err());
    let default = CircuitConfig::default();
    assert_eq!((default.embedding_size, default.threshold), (128, 1000));
    let from_config = BiometricCircuit::from_config(&config);
    assert_eq!((from_config.embedding_size, from_config.threshold), (4, 100));
    let custom = ZKPCircuit::with_params(16, 5);
    assert_eq!((custom.embedding_size, custom.threshold), (16, 5));
}

#[test]
fn proof_for_the_largest_dimension() {
    let circuit = BiometricCircuit::new(512, 1000);
    let current: Vec<i64> = (0..512).collect();
    let mut reference = current.clone();
    reference[100] += 30;
    let proof = circuit.generate_proof(&current, &reference).unwrap();
    assert_eq!(proof.commitments.len(), 1024);
    assert_eq!(circuit.verify_proof(&proof), Ok(true));
}

#[test]
fn gadgets_build_the_same_system_in_both_roles() {
    let gens = ProofGenerators::new(64);
    let zero = FieldElement::zero();
    let witness = ProofWitness::new(vec![5, 1], vec![3, 2], vec![]).unwrap();
    assert_eq!(witness.distance_squared, 5);

    let mut prover = ConstraintSystem::for_prover(&gens);
    let mut points: Vec<CommitmentPoint> = Vec::new();
    let mut current: Vec<Variable> = Vec::new();
    let mut reference: Vec<Variable> = Vec::new();
    for value in [5i64, 1] {
        let v = FieldUtils::i64_to_scalar(value).unwrap();
        let (point, variable) = prover.commit_value(&v, &zero).ok().unwrap();
        points.push(point);
        current.push(variable);
    }
    for value in [3i64, 2] {
        let v = FieldUtils::i64_to_scalar(value).unwrap();
        let (point, variable) = prover.commit_value(&v, &zero).ok().unwrap();
        points.push(point);
        reference.push(variable);
    }
    assert_eq!(current, vec![Variable::Committed(0), Variable::Committed(1)]);
    assert_eq!(reference, vec![Variable::Committed(2), Variable::Committed(3)]);
    let total = BiometricConstraints::add_biometric_similarity_constraint(
        &mut prover,
        &current,
        &reference,
        6,
        Some(&witness),
    )
    .ok()
    .unwrap();
    assert_eq!(total, Variable::MultiplierLeft(2));
    let proof = prover.prove(&gens).unwrap();

    let mut verifier = ConstraintSystem::for_verifier();
    VerificationConstraints::add_biometric_verification_constraints(&mut verifier, &points, 2, 6)
        .ok()
        .unwrap();
    assert!(verifier.verify(&proof, &gens));

    // another threshold is another statement
    let mut other = ConstraintSystem::for_verifier();
    VerificationConstraints::add_biometric_verification_constraints(&mut other, &points, 2, 7)
        .ok()
        .unwrap();
    assert!(!other.verify(&proof, &gens));
}

#[test]
fn gadgets_fail_fast() {
    let gens = ProofGenerators::new(8);
    let zero = FieldElement::zero();
    let mut prover = ConstraintSystem::for_prover(&gens);
    let (_, a) = prover.commit_value(&FieldElement::from_u64(5), &zero).ok().unwrap();
    let (_, b) = prover.commit_value(&FieldElement::from_u64(3), &zero).ok().unwrap();
    // the prover has to pass its witness
    assert!(matches!(
        BiometricConstraints::squared_difference(&mut prover, a, b, None),
        Err(CircuitError::ProofGenerationFailed(_))
    ));
    // lists of different lengths
    assert!(matches!(
        BiometricGadgets::distance_gadget(&mut prover, &[a], &[a, b], None),
        Err(CircuitError::InvalidParameter(_))
    ));
    assert!(matches!(
        BiometricConstraints::add_biometric_similarity_constraint(&mut prover, &[a], &[], 5, None),
        Err(CircuitError::InvalidParameter(_))
    ));
    // a value above the threshold has no witness
    assert_eq!(
        BiometricConstraints::add_threshold_constraint(&mut prover, a, 4, Some(5)).unwrap_err(),
        CircuitError::ThresholdExceeded { expected: 4, actual: 5 }
    );
    // a value that does not fit the range
    assert!(matches!(
        BiometricConstraints::add_range_constraint(&mut prover, a, 2, Some(5)),
        Err(CircuitError::ProofGenerationFailed(_))
    ));
    assert!(matches!(
        BiometricConstraints::add_range_constraint(&mut prover, a, 64, Some(5)),
        Err(CircuitError::InvalidParameter(_))
    ));
    assert!(BiometricConstraints::add_range_constraint(&mut prover, a, 3, Some(5)).is_ok());
    assert!(matches!(
        VerificationGadgets::range_check(&mut prover, a, 9, 3, Some(5)),
        Err(CircuitError::InvalidParameter(_))
    ));
    assert!(VerificationGadgets::range_check(&mut prover, a, 3, 9, Some(5)).is_ok());
    BiometricConstraints::add_sum_constraint(&mut prover, &[a, b], a);
    // the roles do not mix
    assert!(matches!(
        prover.commit_point(&CommitmentPoint { bytes: [0u8; 32] }),
        Err(CircuitError::InvalidParameter(_))
    ));
    let mut verifier = ConstraintSystem::for_verifier();
    assert!(matches!(
        verifier.commit_value(&zero, &zero),
        Err(CircuitError::InvalidParameter(_))
    ));
    assert!(matches!(
        VerificationConstraints::add_biometric_verification_constraints(
            &mut verifier,
            &[CommitmentPoint { bytes: [0u8; 32] }],
            1,
            5
        ),
        Err(CircuitError::InvalidParameter(_))
    ));
    assert!(verifier.prove(&gens).is_none());
    assert_eq!(gens.capacity(), 8);
}

#[test]
fn range_check_is_proved_and_verified() {
    let gens = ProofGenerators::new(64);
    let blinding = FieldElement::from_u64(99);
    let mut prover = ConstraintSystem::for_prover(&gens);
    let (point, a) = prover.commit_value(&FieldElement::from_u64(5), &blinding).ok().unwrap();
    VerificationGadgets::range_check(&mut prover, a, 3, 9, Some(5)).ok().unwrap();
    let proof = prover.prove(&gens).unwrap();

    let mut verifier = ConstraintSystem::for_verifier();
    let v = verifier.commit_point(&point).ok().unwrap();
    VerificationGadgets::range_check(&mut verifier, v, 3, 9, None).ok().unwrap();
    assert!(verifier.verify(&proof, &gens));

    let mut narrower = ConstraintSystem::for_verifier();
    let v = narrower.commit_point(&point).ok().unwrap();
    VerificationGadgets::range_check(&mut narrower, v, 6, 9, None).ok().unwrap();
    assert!(!narrower.verify(&proof, &gens));
}

// ------------------------------------------------------------ embedding

#[test]
fn embedding_construction_and_distance() {
    assert!(matches!(BiometricEmbedding::new(vec![]), Err(CircuitError::InvalidEmbedding(_))));
    assert!(matches!(
        BiometricEmbedding::new(vec![0; 513]),
        Err(CircuitError::InvalidEmbedding(_))
    ));
    let a = BiometricEmbedding::new(vec![1, 2, 3, 4]).unwrap();
    let b = BiometricEmbedding::new(vec![1, 2, 3, 25]).unwrap();
    assert_eq!(a.size, 4);
    assert!(!a.normalized);
    assert_eq!(a.compute_distance_squared(&b).unwrap(), 441);
    let c = BiometricEmbedding::new(vec![1, 2, 3]).unwrap();
    assert!(matches!(
        a.compute_distance_squared(&c),
        Err(CircuitError::InvalidEmbedding(_))
    ));
}

#[test]
fn normalization_uses_the_integer_norm() {
    let mut e = BiometricEmbedding::new(vec![3, -4]).unwrap();
    e.normalize().unwrap();
    assert_eq!(e.data, vec![600, -800]);
    assert!(e.normalized);
    let mut f = BiometricEmbedding::new(vec![1, 1]).unwrap();
    // the norm is the square root of two, rounded down to one
    f.normalize().unwrap();
    assert_eq!(f.data, vec![1000, 1000]);
    let mut zero = BiometricEmbedding::new(vec![0, 0, 0]).unwrap();
    assert!(matches!(zero.normalize(), Err(CircuitError::InvalidEmbedding(_))));
    assert_eq!(zero.data, vec![0, 0, 0]);
    assert!(!zero.normalized);
    let mut large = BiometricEmbedding::new(vec![1_000_000, -1_000_000]).unwrap();
    large.normalize().unwrap();
    assert_eq!(large.data, vec![707, -707]);
}

#[test]
fn witness_and_threshold() {
    let witness = ProofWitness::new(vec![1, 2, 3, 4], vec![1, 2, 3, 25], vec![9]).unwrap();
    assert_eq!(witness.distance_squared, 441);
    assert_eq!(witness.blinding_factors, vec![9]);
    assert!(witness.validate_threshold(441).is_ok());
    assert_eq!(
        witness.validate_threshold(440).unwrap_err(),
        CircuitError::ThresholdExceeded { expected: 440, actual: 441 }
    );
    assert!(matches!(
        ProofWitness::new(vec![1], vec![1, 2], vec![]),
        Err(CircuitError::InvalidEmbedding(_))
    ));
    assert!(matches!(
        ProofWitness::new(vec![1_000_001], vec![1], vec![]),
        Err(CircuitError::InvalidEmbedding(_))
    ));
    assert!(matches!(
        ProofWitness::new(vec![0; 513], vec![0; 513], vec![]),
        Err(CircuitError::InvalidEmbedding(_))
    ));
}

#[test]
fn error_kinds() {
    assert_eq!(CircuitError::InvalidParameter(String::new()).kind(), "Invalid parameter");
    assert_eq!(
        CircuitError::ThresholdExceeded { expected: 1, actual: 2 }.kind(),
        "Threshold exceeded"
    );
    assert_eq!(CircuitError::SerializationError(String::new()).kind(), "Serialization error");
}

// -------------------------------------------------------- serialization

#[test]
fn binary_layout() {
    let proof = sample_proof();
    let binary = BinarySerializer::serialize_proof_binary(&proof).unwrap();
    let mut expected: Vec<u8> = Vec::new();
    expected.extend_from_slice(&5u32.to_le_bytes());
    expected.extend_from_slice(&[1, 2, 3, 4, 5]);
    expected.extend_from_slice(&2u32.to_le_bytes());
    expected.extend_from_slice(&2u32.to_le_bytes());
    expected.extend_from_slice(&[1, 2]);
    expected.extend_from_slice(&2u32.to_le_bytes());
    expected.extend_from_slice(&[3, 4]);
    expected.extend_from_slice(&1000u64.to_le_bytes());
    expected.extend_from_slice(&128u32.to_le_bytes());
    expected.extend_from_slice(&32u32.to_le_bytes());
    expected.extend_from_slice(&[7; 32]);
    expected.extend_from_slice(&1_700_000_000u64.to_le_bytes());
    expected.extend_from_slice(&5u32.to_le_bytes());
    expected.extend_from_slice(b"0.1.0");
    assert_eq!(binary, expected);
}

#[test]
fn every_encoding_round_trips() {
    let circuit = BiometricCircuit::new(4, 10);
    let generated = circuit.generate_proof(&[1, 2, 3, 4], &[1, 2, 3, 5]).unwrap();
    let mut unusual = sample_proof();
    unusual.commitments = vec![];
    unusual.proof = vec![];
    unusual.public_inputs.commitment_hash = vec![];
    unusual.metadata.version = String::from("v\u{e9}\u{4e2d}");
    for proof in [sample_proof(), generated, unusual] {
        let binary = BinarySerializer::serialize_proof_binary(&proof).unwrap();
        let back = BinarySerializer::deserialize_proof_binary(&binary).unwrap();
        assert!(same_record(&proof, &back));
        let hex_text = SerializationUtils::proof_to_hex(&proof).unwrap();
        assert_eq!(hex_text, hex::encode(&binary));
        assert!(same_record(&proof, &SerializationUtils::proof_from_hex(&hex_text).unwrap()));
        let upper = hex_text.to_uppercase();
        assert!(same_record(&proof, &SerializationUtils::proof_from_hex(&upper).unwrap()));
        let base64_text = SerializationUtils::proof_to_base64(&proof).unwrap();
        assert_eq!(base64_text, base64::encode(&binary));
        assert!(same_record(&proof, &SerializationUtils::proof_from_base64(&base64_text).unwrap()));
    }
}

#[test]
fn a_verified_proof_survives_the_wire() {
    let circuit = BiometricCircuit::new(4, 10);
    let proof = circuit.generate_proof(&[1, 2, 3, 4], &[1, 2, 3, 5]).unwrap();
    let text = SerializationUtils::proof_to_base64(&proof).unwrap();
    let received = SerializationUtils::proof_from_base64(&text).unwrap();
    assert_eq!(circuit.verify_proof(&received), Ok(true));
}

#[test]
fn truncated_data_is_rejected() {
    let binary = BinarySerializer::serialize_proof_binary(&sample_proof()).unwrap();
    for length in 0..binary.len() {
        assert!(matches!(
            BinarySerializer::deserialize_proof_binary(&binary[..length]),
            Err(CircuitError::SerializationError(_))
        ));
    }
    // what follows the record is not looked at
    let mut longer = binary.clone();
    longer.extend_from_slice(&[1, 2, 3]);
    assert!(same_record(
        &sample_proof(),
        &BinarySerializer::deserialize_proof_binary(&longer).unwrap()
    ));
    // a length that points behind the end of the data
    let mut lying = binary.clone();
    lying[0] = 0xff;
    lying[1] = 0xff;
    lying[2] = 0xff;
    lying[3] = 0xff;
    assert!(BinarySerializer::deserialize_proof_binary(&lying).is_err());
    let mut many = binary.clone();
    many[9] = 0xff;
    many[12] = 0xff;
    assert!(BinarySerializer::deserialize_proof_binary(&many).is_err());
}

#[test]
fn version_has_to_be_utf8() {
    let mut binary = BinarySerializer::serialize_proof_binary(&sample_proof()).unwrap();
    let last = binary.len() - 1;
    binary[last] = 0xff;
    assert!(matches!(
        BinarySerializer::deserialize_proof_binary(&binary),
        Err(CircuitError::SerializationError(_))
    ));
}

#[test]
fn malformed_text_is_rejected() {
    assert!(matches!(
        SerializationUtils::proof_from_hex("abc"),
        Err(CircuitError::SerializationError(_))
    ));
    assert!(matches!(
        SerializationUtils::proof_from_hex("zz"),
        Err(CircuitError::SerializationError(_))
    ));
    assert!(matches!(
        SerializationUtils::proof_from_hex("\u{e9}a"),
        Err(CircuitError::SerializationError(_))
    ));
    assert!(matches!(
        SerializationUtils::proof_from_hex("0500"),
        Err(CircuitError::SerializationError(_))
    ));
    assert!(matches!(
        SerializationUtils::proof_from_base64("***"),
        Err(CircuitError::SerializationError(_))
    ));
    assert!(matches!(
        SerializationUtils::proof_from_base64("AAAA"),
        Err(CircuitError::SerializationError(_))
    ));
}

// ----------------------------------------------------------- validation

fn valid_record() -> BiometricProof {
    BiometricProof::with_timestamp(
        vec![1; 100],
        vec![vec![2; 32]; 32],
        1000,
        16,
        vec![3; 32],
        1_700_000_000,
    )
}

#[test]
fn proof_validation_names_the_first_defect() {
    assert!(ValidationUtils::validate_proof(&valid_record()).is_ok());
    let mut p = valid_record();
    p.proof = vec![];
    assert!(matches!(
        ValidationUtils::validate_proof(&p),
        Err(CircuitError::ProofVerificationFailed(_))
    ));
    let mut p = valid_record();
    p.proof = vec![0; 5001];
    assert!(matches!(
        ValidationUtils::validate_proof(&p),
        Err(CircuitError::ProofVerificationFailed(_))
    ));
    assert!(p.validate_size().is_err());
    let mut p = valid_record();
    p.proof = vec![0; 5000];
    assert!(ValidationUtils::validate_proof(&p).is_ok());
    assert!(p.validate_size().is_ok());
    let mut p = valid_record();
    p.public_inputs.threshold = 99;
    assert!(matches!(ValidationUtils::validate_proof(&p), Err(CircuitError::InvalidParameter(_))));
    let mut p = valid_record();
    p.public_inputs.embedding_size = 17;
    assert!(matches!(ValidationUtils::validate_proof(&p), Err(CircuitError::InvalidParameter(_))));
    let mut p = valid_record();
    p.public_inputs.commitment_hash = vec![3; 31];
    assert!(matches!(
        ValidationUtils::validate_proof(&p),
        Err(CircuitError::InvalidCommitment(_))
    ));
    let mut p = valid_record();
    p.commitments.pop();
    assert!(matches!(
        ValidationUtils::validate_proof(&p),
        Err(CircuitError::InvalidCommitment(_))
    ));
    let mut p = valid_record();
    p.commitments[7] = vec![2; 33];
    assert!(matches!(
        ValidationUtils::validate_proof(&p),
        Err(CircuitError::InvalidCommitment(_))
    ));
    let mut p = valid_record();
    p.metadata.timestamp = 0;
    assert!(matches!(ValidationUtils::validate_proof(&p), Err(CircuitError::InvalidParameter(_))));
    let mut p = valid_record();
    p.metadata.version = String::new();
    assert!(matches!(ValidationUtils::validate_proof(&p), Err(CircuitError::InvalidParameter(_))));
}

#[test]
fn record_size_and_params() {
    let p = valid_record();
    assert_eq!(p.size(), 100 + 32 * 32 + 40 + 72);
    assert!(p.validate_params().is_ok());
    let mut q = valid_record();
    q.public_inputs.threshold = 0;
    assert!(matches!(q.validate_params(), Err(CircuitError::InvalidParameter(_))));
    let mut q = valid_record();
    q.public_inputs.embedding_size = 0;
    assert!(matches!(q.validate_params(), Err(CircuitError::InvalidParameter(_))));
    let mut q = valid_record();
    q.public_inputs.commitment_hash = vec![];
    assert!(matches!(q.validate_params(), Err(CircuitError::InvalidCommitment(_))));
    let now = BiometricProof::new(vec![1], vec![], 1, 1, vec![]);
    assert!(now.metadata.timestamp > 1_600_000_000);
}

#[test]
fn recommended_sizes() {
    for size in [1usize, 2, 4, 8, 16, 32, 64, 128, 256, 384, 512] {
        assert!(ValidationUtils::validate_embedding_size(size).is_ok());
        assert!(ValidationUtils::is_reasonable_embedding_size(size));
    }
    for size in [0usize, 3, 100, 383, 513, 768, 1024] {
        assert!(matches!(
            ValidationUtils::validate_embedding_size(size),
            Err(CircuitError::InvalidParameter(_))
        ));
    }
    assert!(ValidationUtils::is_power_of_two(1));
    assert!(ValidationUtils::is_power_of_two(1 << 40));
    assert!(!ValidationUtils::is_power_of_two(0));
    assert!(!ValidationUtils::is_power_of_two(12));
    assert!(ValidationUtils::is_reasonable_embedding_size(1536));
    assert!(!ValidationUtils::is_reasonable_embedding_size(1537));
    assert!(ValidationUtils::validate_threshold(100).is_ok());
    assert!(ValidationUtils::validate_threshold(10_000).is_ok());
    assert!(matches!(
        ValidationUtils::validate_threshold(99),
        Err(CircuitError::InvalidParameter(_))
    ));
}

#[test]
fn embedding_validation_checks_shape_and_magnitude() {
    let mut e = BiometricEmbedding::new(vec![1_000_000, -1_000_000]).unwrap();
    assert!(ValidationUtils::validate_embedding(&e).is_ok());
    e.size = 3;
    assert!(matches!(
        ValidationUtils::validate_embedding(&e),
        Err(CircuitError::InvalidEmbedding(_))
    ));
    e.size = 2;
    e.data[1] = -1_000_001;
    assert!(matches!(
        ValidationUtils::validate_embedding(&e),
        Err(CircuitError::InvalidEmbedding(_))
    ));
    let empty = BiometricEmbedding { data: vec![], size: 0, normalized: false };
    assert!(ValidationUtils::validate_embedding(&empty).is_err());
}

#[test]
fn sanitization_clamps_and_clips() {
    // nothing to do
    let mut plain = BiometricEmbedding::new(vec![1, 2, 3, 4, 5]).unwrap();
    ValidationUtils::sanitize_embedding(&mut plain).unwrap();
    assert_eq!(plain.data, vec![1, 2, 3, 4, 5]);
    // clamping alone: the clamped value is within three deviations
    let mut clamped = BiometricEmbedding::new(vec![1, 2, 200_000, 4, 5]).unwrap();
    ValidationUtils::sanitize_embedding(&mut clamped).unwrap();
    assert_eq!(clamped.data, vec![1, 2, 100_000, 4, 5]);
    let mut negative = BiometricEmbedding::new(vec![-200_000, 0]).unwrap();
    ValidationUtils::sanitize_embedding(&mut negative).unwrap();
    assert_eq!(negative.data, vec![-100_000, 0]);
    // one outlier among twenty: the sum is 1000, the sum of squares 1000000,
    // the spread 9 * (20 * 1000000 - 1000000) = 171000000 with root 13076;
    // the boundary is (1000 + 13076) / 20 = 703
    let mut data = vec![0i64; 19];
    data.push(1000);
    let mut outlier = BiometricEmbedding::new(data).unwrap();
    ValidationUtils::sanitize_embedding(&mut outlier).unwrap();
    let mut expected = vec![0i64; 19];
    expected.push(703);
    assert_eq!(outlier.data, expected);
    // and downwards: (-1000 - 13076) / 20 = -703
    let mut data = vec![0i64; 19];
    data.push(-1000);
    let mut low = BiometricEmbedding::new(data).unwrap();
    ValidationUtils::sanitize_embedding(&mut low).unwrap();
    assert_eq!(low.data[19], -703);
    // an embedding too long for the circuit is sanitized all the same
    let mut long = BiometricEmbedding { data: vec![200_000; 513], size: 513, normalized: false };
    ValidationUtils::sanitize_embedding(&mut long).unwrap();
    assert_eq!(long.data, vec![100_000; 513]);
    let mut empty = BiometricEmbedding { data: vec![], size: 0, normalized: false };
    assert!(ValidationUtils::sanitize_embedding(&mut empty).is_ok());
}

// --------------------------------------------------------------- mobile

#[test]
fn platform_settings() {
    let android = MobileUtils::get_platform_config(MobilePlatform::Android);
    assert_eq!(android.platform, "android");
    assert_eq!(android.device_settings.as_deref(), Some("jni"));
    assert_eq!(android.security_level, 3);
    let ios = MobileUtils::get_platform_config(MobilePlatform::Ios);
    assert_eq!(ios.platform, "ios");
    assert_eq!(ios.device_settings.as_deref(), Some("ffi"));
    let other = MobileUtils::get_platform_config(MobilePlatform::Other);
    assert_eq!(other.platform, "unknown");
    assert_eq!(other.device_settings, None);
    let default = MobileConfig::default();
    assert_eq!(default.platform, "unknown");
    assert_eq!(default.security_level, 3);
    assert!(MobileUtils::supports_hardware_security(MobilePlatform::Android));
    assert!(MobileUtils::supports_hardware_security(MobilePlatform::Ios));
    assert!(!MobileUtils::supports_hardware_security(MobilePlatform::Other));
}

#[test]
fn a_proof_needs_generators_for_the_padded_gates() {
    let zero = FieldElement::zero();
    for (capacity, gates, expected) in
        [(0usize, 0usize, false), (1, 0, true), (1, 1, true), (2, 3, false), (3, 3, false), (4, 3, true), (4, 5, false), (8, 5, true)]
    {
        let gens = ProofGenerators::new(capacity);
        let mut prover = ConstraintSystem::for_prover(&gens);
        for _ in 0..gates {
            prover.allocate_multiplier(Some((zero, zero))).unwrap();
        }
        assert_eq!(prover.prove(&gens).is_some(), expected);
    }
}

#[test]
fn sanitization_truncates_the_boundary_towards_zero() {
    // mean minus three deviations is 80.93, which is cut to 80
    let mut data = vec![100i64; 10];
    data.push(80);
    let mut low = BiometricEmbedding::new(data).unwrap();
    ValidationUtils::sanitize_embedding(&mut low).unwrap();
    assert_eq!(low.data[10], 80);
    assert_eq!(low.data[0], 100);
    // and mirrored: mean plus three deviations is -80.93, which is cut to -80
    let mut data = vec![-100i64; 10];
    data.push(-80);
    let mut high = BiometricEmbedding::new(data).unwrap();
    ValidationUtils::sanitize_embedding(&mut high).unwrap();
    assert_eq!(high.data[10], -80);
}

#[test]
fn sanitization_takes_embeddings_of_any_length() {
    // 599 coordinates of 10 and one of 1010: the mean is 11.67 and the
    // deviation 40.79, so the boundary above is 134.04, cut to 134
    let mut data = vec![10i64; 599];
    data.push(1010);
    let mut long = BiometricEmbedding { data, size: 600, normalized: false };
    ValidationUtils::sanitize_embedding(&mut long).unwrap();
    assert_eq!(long.data.len(), 600);
    assert_eq!(long.data[0], 10);
    assert_eq!(long.data[599], 134);
    // no coordinate at all: nothing to do
    let mut none = BiometricEmbedding { data: Vec::new(), size: 0, normalized: false };
    ValidationUtils::sanitize_embedding(&mut none).unwrap();
    assert!(none.data.is_empty());
}

#[test]
fn wide_square_roots_round_down() {
    for (n, root) in [
        (0u128, 0u128),
        (1, 1),
        (3, 1),
        (4, 2),
        (99, 9),
        (100, 10),
        (1u128 << 100, 1u128 << 50),
        ((1u128 << 100) - 1, (1u128 << 50) - 1),
        (u128::MAX, u64::MAX as u128),
    ] {
        assert_eq!(zkp_circuit::utils::validation::wide_integer_sqrt(n), root);
    }
}

#[test]
fn quotients_are_cut_towards_zero() {
    assert_eq!(zkp_circuit::utils::validation::truncated_quotient(7, 2), 3);
    assert_eq!(zkp_circuit::utils::validation::truncated_quotient(-7, 2), -3);
    assert_eq!(zkp_circuit::utils::validation::truncated_quotient(-6, 2), -3);
    assert_eq!(zkp_circuit::utils::validation::truncated_quotient(0, 5), 0);
    assert_eq!(zkp_circuit::utils::validation::truncated_quotient(-1, 5), 0);
}

#[test]
fn a_drawn_number_is_reduced_by_the_limit() {
    assert_eq!(FieldUtils::scalar_below(17, 5), FieldElement::from_u64(2));
    assert_eq!(FieldUtils::scalar_below(u64::MAX, 1), FieldElement::zero());
    assert_eq!(FieldUtils::scalar_below(4, 5), FieldElement::from_u64(4));
    assert_eq!(FieldUtils::scalar_below(u64::MAX, u64::MAX), FieldElement::zero());
    for _ in 0..50 {
        assert!(FieldUtils::is_in_range(&FieldUtils::random_scalar_in_range(7), 7));
    }
}

#[test]
fn a_proof_has_the_length_its_gates_give() {
    // 4 + 1 + 32 gates are padded to 64, which halves six times
    let circuit = BiometricCircuit::new(4, 1000);
    let proof = circuit.generate_proof(&[1, 2, 3, 4], &[1, 2, 3, 5]).unwrap();
    assert_eq!(proof.proof.len(), 1 + 32 * (13 + 2 * 6));
    // 32 + 1 + 32 gates are padded to 128, which halves seven times
    let circuit = BiometricCircuit::new(32, 1000);
    let proof = circuit.generate_proof(&[3; 32], &[4; 32]).unwrap();
    assert_eq!(proof.proof.len(), 1 + 32 * (13 + 2 * 7));
    // no gate at all is padded to one
    let gens = ProofGenerators::new(1);
    let prover = ConstraintSystem::for_prover(&gens);
    assert_eq!(prover.prove(&gens).unwrap().len(), 1 + 32 * 13);
}

#[test]
fn a_circuit_needs_generators_for_its_statement() {
    let mut circuit = BiometricCircuit::new(4, 1000);
    assert!(circuit.is_well_formed());
    assert_eq!(circuit.generators.capacity(), 64);
    circuit.generators = ProofGenerators::new(32);
    assert!(!circuit.is_well_formed());
    assert!(matches!(
        circuit.generate_proof(&[1, 2, 3, 4], &[1, 2, 3, 5]),
        Err(CircuitError::InvalidParameter(_))
    ));
    // more generators than needed do no harm
    circuit.generators = ProofGenerators::new(128);
    assert!(circuit.is_well_formed());
    let proof = circuit.generate_proof(&[1, 2, 3, 4], &[1, 2, 3, 5]).unwrap();
    assert_eq!(circuit.verify_proof(&proof), Ok(true));
}

#[test]
fn the_prover_publishes_the_commitments_it_holds() {
    // the commitment that the prover returns is the one of the scheme
    // under the same blinding factor
    let gens = ProofGenerators::new(1);
    let scheme = CommitmentScheme::new();
    let mut prover = ConstraintSystem::for_prover(&gens);
    let value = FieldElement::from_u64(42);
    let blinding = FieldElement::from_u64(123);
    let (point, variable) = prover.commit_value(&value, &blinding).unwrap();
    assert_eq!(point, scheme.commit(&value, &blinding));
    assert_eq!(variable, Variable::Committed(0));
    let (_, next) = prover.commit_value(&value, &FieldElement::zero()).unwrap();
    assert_eq!(next, Variable::Committed(1));
    // a verifier takes no value, a prover no point
    let mut verifier = ConstraintSystem::for_verifier();
    assert!(matches!(
        verifier.commit_value(&value, &blinding),
        Err(CircuitError::InvalidParameter(_))
    ));
    assert!(matches!(prover.commit_point(&point), Err(CircuitError::InvalidParameter(_))));
    assert_eq!(verifier.commit_point(&point), Ok(Variable::Committed(0)));
    assert_eq!(verifier.commit_point(&point), Ok(Variable::Committed(1)));
}

#[test]
fn gadgets_succeed_exactly_where_a_witness_is_owed_and_given() {
    let gens = ProofGenerators::new(128);
    let zero = FieldElement::zero();
    // a prover owes the inputs of a gate, a verifier has none
    let mut prover = ConstraintSystem::for_prover(&gens);
    assert!(matches!(
        prover.allocate_multiplier(None),
        Err(CircuitError::ProofGenerationFailed(_))
    ));
    assert_eq!(prover.allocate_multiplier(Some((zero, zero))), Ok(0));
    assert_eq!(prover.allocate_multiplier(Some((zero, zero))), Ok(1));
    let mut verifier = ConstraintSystem::for_verifier();
    assert_eq!(verifier.allocate_multiplier(None), Ok(0));
    assert_eq!(verifier.allocate_multiplier(Some((zero, zero))), Ok(1));
    // the range gadget asks the prover for a value that fits
    let (_, var) = prover.commit_value(&FieldElement::from_u64(9), &zero).unwrap();
    assert!(BiometricConstraints::add_range_constraint(&mut prover, var, 4, Some(9)).is_ok());
    assert!(matches!(
        BiometricConstraints::add_range_constraint(&mut prover, var, 3, Some(9)),
        Err(CircuitError::ProofGenerationFailed(_))
    ));
    assert!(matches!(
        BiometricConstraints::add_range_constraint(&mut prover, var, 4, None),
        Err(CircuitError::ProofGenerationFailed(_))
    ));
    assert!(matches!(
        BiometricConstraints::add_range_constraint(&mut prover, var, 64, Some(9)),
        Err(CircuitError::InvalidParameter(_))
    ));
    // the range check asks the prover for a value between the bounds
    assert!(VerificationGadgets::range_check(&mut prover, var, 5, 10, Some(9)).is_ok());
    assert!(matches!(
        VerificationGadgets::range_check(&mut prover, var, 10, 20, Some(9)),
        Err(CircuitError::ProofGenerationFailed(_))
    ));
    assert!(matches!(
        VerificationGadgets::range_check(&mut prover, var, 0, 8, Some(9)),
        Err(CircuitError::ProofGenerationFailed(_))
    ));
    assert!(matches!(
        VerificationGadgets::range_check(&mut prover, var, 10, 5, Some(9)),
        Err(CircuitError::InvalidParameter(_))
    ));
    // the distance gadget asks the prover for the witness
    let (_, other) = prover.commit_value(&FieldElement::from_u64(7), &zero).unwrap();
    assert!(matches!(
        BiometricGadgets::distance_gadget(&mut prover, &[var], &[other], None),
        Err(CircuitError::ProofGenerationFailed(_))
    ));
    let witness = ProofWitness::new(vec![9], vec![7], Vec::new()).unwrap();
    assert!(BiometricGadgets::distance_gadget(&mut prover, &[var], &[other], Some(&witness)).is_ok());
    // what was added can be proved
    assert!(prover.prove(&gens).is_some());
}

#[test]
fn the_verifier_rebuilds_the_statement_from_any_commitments_of_the_right_number() {
    let scheme = CommitmentScheme::new();
    let point = scheme.commit(&FieldElement::from_u64(1), &FieldElement::from_u64(2));
    let mut verifier = ConstraintSystem::for_verifier();
    assert_eq!(
        VerificationConstraints::add_biometric_verification_constraints(
            &mut verifier,
            &[point, point, point, point],
            2,
            1000
        ),
        Ok(())
    );
    let mut verifier = ConstraintSystem::for_verifier();
    assert!(matches!(
        VerificationConstraints::add_biometric_verification_constraints(
            &mut verifier,
            &[point, point, point],
            2,
            1000
        ),
        Err(CircuitError::InvalidParameter(_))
    ));
    let gens = ProofGenerators::new(64);
    let mut prover = ConstraintSystem::for_prover(&gens);
    assert!(matches!(
        VerificationConstraints::add_biometric_verification_constraints(&mut prover, &[], 0, 1000),
        Err(CircuitError::InvalidParameter(_))
    ));
}

#[test]
fn the_protocol_refuses_what_lacks_the_frame() {
    let zero = FieldElement::zero();
    let gens = ProofGenerators::new(8);
    let mut prover = ConstraintSystem::for_prover(&gens);
    for _ in 0..5 {
        prover.allocate_multiplier(Some((zero, zero))).unwrap();
    }
    let proof = prover.prove(&gens).unwrap();
    // five gates are padded to eight, which halve three times
    assert_eq!(proof.len(), 1 + 32 * (13 + 2 * 3));
    assert_eq!(proof[0], 0);
    let rebuilt = |gates: usize| {
        let mut verifier = ConstraintSystem::for_verifier();
        for _ in 0..gates {
            verifier.allocate_multiplier(None).unwrap();
        }
        verifier
    };
    assert!(rebuilt(5).verify(&proof, &gens));
    // more generators than needed do no harm, fewer are refused
    assert!(rebuilt(5).verify(&proof, &ProofGenerators::new(16)));
    assert!(!rebuilt(5).verify(&proof, &ProofGenerators::new(4)));
    // another first byte is refused
    for first in [1u8, 2, 255] {
        let mut changed = proof.clone();
        changed[0] = first;
        assert!(!rebuilt(5).verify(&changed, &gens));
    }
    // another length is refused
    assert!(!rebuilt(5).verify(&proof[..proof.len() - 1], &gens));
    assert!(!rebuilt(5).verify(&proof[..proof.len() - 64], &gens));
    let mut longer = proof.clone();
    longer.extend_from_slice(&[0u8; 64]);
    assert!(!rebuilt(5).verify(&longer, &gens));
    assert!(!rebuilt(5).verify(&[], &gens));
    // a system of another number of padded gates is refused
    assert!(!rebuilt(3).verify(&proof, &gens));
    assert!(!rebuilt(9).verify(&proof, &ProofGenerators::new(16)));
    // the prover's side verifies nothing
    let mut other = ConstraintSystem::for_prover(&gens);
    for _ in 0..5 {
        other.allocate_multiplier(Some((zero, zero))).unwrap();
    }
    assert!(!other.verify(&proof, &gens));
}

#[test]
fn a_generated_record_names_its_version_and_starts_with_zero() {
    let circuit = BiometricCircuit::new(4, 1000);
    let proof = circuit.generate_proof(&[1, 2, 3, 4], &[1, 2, 3, 5]).unwrap();
    assert_eq!(proof.metadata.version, zkp_circuit::config::PROOF_VERSION);
    assert_eq!(proof.proof[0], 0);
    assert_eq!(circuit.verify_proof(&proof), Ok(true));
    // any other first byte of the proof is refused
    for first in [1u8, 2, 128] {
        let mut changed = proof.clone();
        changed.proof[0] = first;
        assert_eq!(circuit.verify_proof(&changed), Ok(false));
    }
    // and so is a change further on
    for at in [1usize, 33, 400, 800] {
        let mut changed = proof.clone();
        changed.proof[at] ^= 1;
        assert_eq!(circuit.verify_proof(&changed), Ok(false));
    }
}

#[test]
fn the_shape_of_a_float_array() {
    assert_eq!(ValidationUtils::float_array_shape(1, 1), Ok(()));
    assert_eq!(ValidationUtils::float_array_shape(512, 1000), Ok(()));
    assert!(matches!(
        ValidationUtils::float_array_shape(0, 1000),
        Err(CircuitError::InvalidEmbedding(_))
    ));
    assert!(matches!(
        ValidationUtils::float_array_shape(513, 1000),
        Err(CircuitError::InvalidEmbedding(_))
    ));
    assert!(matches!(
        ValidationUtils::float_array_shape(4, 0),
        Err(CircuitError::InvalidParameter(_))
    ));
    assert!(matches!(
        ValidationUtils::float_array_shape(4, -1000),
        Err(CircuitError::InvalidParameter(_))
    ));
    // a wrong length is named before a wrong factor
    assert!(matches!(
        ValidationUtils::float_array_shape(0, 0),
        Err(CircuitError::InvalidEmbedding(_))
    ));
}
