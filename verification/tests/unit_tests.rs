use zkp_circuit::circuit::BiometricCircuit;
use zkp_circuit::circuit::BiometricConstraints;
use zkp_circuit::circuit::ConstraintSystem;
use zkp_circuit::circuit::ProofGenerators;
use zkp_circuit::crypto::BatchFieldOps;
use zkp_circuit::crypto::CircuitHash;
use zkp_circuit::crypto::Commitment;
use zkp_circuit::crypto::CommitmentScheme;
use zkp_circuit::crypto::FieldElement;
use zkp_circuit::crypto::FieldUtils;
use zkp_circuit::crypto::HashUtils;
use zkp_circuit::types::BiometricEmbedding;
use zkp_circuit::types::BiometricProof;
use zkp_circuit::utils::BinarySerializer;
use zkp_circuit::utils::SerializationUtils;
use zkp_circuit::utils::ValidationUtils;
use zkp_circuit::mobile::MobilePlatform;
use zkp_circuit::mobile::MobileUtils;
use zkp_circuit::ZKPCircuit;

#[test]
fn biometric_circuit_test_circuit_creation() {
    let circuit = BiometricCircuit::new(128, 1000);
    assert_eq!(circuit.embedding_size, 128);
    assert_eq!(circuit.threshold, 1000);
}

#[test]
fn biometric_circuit_test_proof_generation() {
    let circuit = BiometricCircuit::new(4, 100);
    let current: Vec<i64> = vec![1, 2, 3, 4];
    let reference: Vec<i64> = vec![2, 3, 4, 5];

    let result = circuit.generate_proof(&current, &reference);
    assert!(result.is_ok());
}

#[test]
fn test_constraint_system() {
    let pc_gens = ProofGenerators::new(8);
    let mut prover = ConstraintSystem::for_prover(&pc_gens);

    // Test basic constraint addition
    let zero = FieldElement::zero();
    let (_, var_a) = prover.commit_value(&FieldElement::from_u64(5), &zero).unwrap();
    let (_, var_b) = prover.commit_value(&FieldElement::from_u64(3), &zero).unwrap();
    let (_, var_c) = prover.commit_value(&FieldElement::from_u64(4), &zero).unwrap(); // (5-3)² = 4

    let added = BiometricConstraints::add_squared_difference_constraint(
        &mut prover,
        var_a,
        var_b,
        var_c,
        Some(FieldElement::from_u64(2)),
    );

    // If we reach here without panic, the constraint was added successfully
    assert!(added.is_ok());
    assert!(true);
}

#[test]
fn commitments_test_commitment_scheme() {
    let scheme = CommitmentScheme::new();
    let value = FieldElement::from_u64(42);
    let blinding = FieldElement::from_u64(123);

    let commitment = scheme.commit(&value, &blinding);
    assert!(scheme.verify(&commitment, &value, &blinding));

    // Should fail with wrong value
    let wrong_value = FieldElement::from_u64(43);
    assert!(!scheme.verify(&commitment, &wrong_value, &blinding));
}

#[test]
fn test_commitment_struct() {
    let scheme = CommitmentScheme::new();
    let value = FieldElement::from_u64(100);

    let commitment = Commitment::new(&value, &scheme);
    assert!(commitment.verify(&value, &scheme));

    // Should fail with wrong value
    let wrong_value = FieldElement::from_u64(101);
    assert!(!commitment.verify(&wrong_value, &scheme));
}

#[test]
fn test_i64_to_scalar_conversion() {
    let positive = 42i64;
    let scalar_pos = FieldUtils::i64_to_scalar(positive).unwrap();
    assert_eq!(FieldUtils::scalar_to_u64(&scalar_pos).unwrap(), 42u64);

    let negative = -42i64;
    let scalar_neg = FieldUtils::i64_to_scalar(negative).unwrap();
    assert_ne!(scalar_pos, scalar_neg);
}

#[test]
fn test_embedding_to_scalars() {
    let embedding = vec![1, -2, 3, -4, 5];
    let scalars = FieldUtils::embedding_to_scalars(&embedding).unwrap();
    assert_eq!(scalars.len(), 5);
}

#[test]
fn test_scalar_distance() {
    let a = vec![FieldElement::one(), FieldElement::from_u64(2), FieldElement::from_u64(3)];
    let b = vec![
        FieldElement::from_u64(4),
        FieldElement::from_u64(5),
        FieldElement::from_u64(6),
    ];

    let distance_sq = FieldUtils::scalar_distance_squared(&a, &b).unwrap();

    // Distance should be sqrt((4-1)² + (5-2)² + (6-3)²) = sqrt(9 + 9 + 9) = sqrt(27)
    // So distance² should be 27
    assert_eq!(FieldUtils::scalar_to_u64(&distance_sq).unwrap(), 27);
}

#[test]
fn test_batch_operations() {
    let scalars = vec![FieldElement::one(), FieldElement::from_u64(2), FieldElement::from_u64(3)];

    let sum = BatchFieldOps::sum_scalars(&scalars);
    assert_eq!(FieldUtils::scalar_to_u64(&sum).unwrap(), 6);

    let product = BatchFieldOps::product_scalars(&scalars);
    assert_eq!(FieldUtils::scalar_to_u64(&product).unwrap(), 6);
}

#[test]
fn test_blake3_hash() {
    let data = b"test data";
    let hash1 = HashUtils::blake3_hash(data);
    let hash2 = HashUtils::blake3_hash(data);

    assert_eq!(hash1, hash2);
    assert_eq!(hash1.len(), 32);
}

#[test]
fn test_embedding_hash() {
    let embedding = vec![1, 2, 3, 4, 5];
    let hash1 = HashUtils::hash_embedding(&embedding);
    let hash2 = HashUtils::hash_embedding(&embedding);

    assert_eq!(hash1, hash2);
    assert_eq!(hash1.len(), 32);

    // Different embedding should produce different hash
    let embedding2 = vec![1, 2, 3, 4, 6];
    let hash3 = HashUtils::hash_embedding(&embedding2);
    assert_ne!(hash1, hash3);
}

#[test]
fn test_verify_hash() {
    let data = b"test";
    let hash = HashUtils::blake3_hash(data);

    assert!(HashUtils::verify_hash(&hash, &hash));

    let wrong_hash = HashUtils::blake3_hash(b"wrong");
    assert!(!HashUtils::verify_hash(&hash, &wrong_hash));
}

#[test]
fn test_circuit_hash() {
    let inputs = vec![1, 2, 3, 4];
    let hash1 = CircuitHash::poseidon_simulate(&inputs).unwrap();
    let hash2 = CircuitHash::poseidon_simulate(&inputs).unwrap();

    assert_eq!(hash1, hash2);

    let different_inputs = vec![1, 2, 3, 5];
    let hash3 = CircuitHash::poseidon_simulate(&different_inputs).unwrap();
    assert_ne!(hash1, hash3);
}

#[test]
fn test_zkp_circuit_creation() {
    let circuit = ZKPCircuit::new();
    assert_eq!(circuit.embedding_size, 128);
    assert_eq!(circuit.threshold, 1000);
}

#[test]
fn test_hex_serialization() {
    let proof = BiometricProof::new(
        vec![1, 2, 3, 4, 5],
        vec![vec![1, 2], vec![3, 4]],
        1000,
        128,
        vec![0; 32],
    );

    // Test hex serialization
    let hex_string = SerializationUtils::proof_to_hex(&proof).unwrap();
    let deserialized = SerializationUtils::proof_from_hex(&hex_string).unwrap();

    assert_eq!(proof.proof, deserialized.proof);
}

#[test]
fn test_binary_serialization() {
    let proof = BiometricProof::new(
        vec![1, 2, 3, 4, 5],
        vec![vec![1, 2], vec![3, 4]],
        1000,
        128,
        vec![0; 32],
    );

    // Test binary serialization
    let binary = BinarySerializer::serialize_proof_binary(&proof).unwrap();
    let deserialized = BinarySerializer::deserialize_proof_binary(&binary).unwrap();

    assert_eq!(proof.proof, deserialized.proof);
    assert_eq!(proof.commitments, deserialized.commitments);
}

#[test]
fn test_embedding_validation() {
    // Valid embedding
    let embedding = BiometricEmbedding::new(vec![1, 2, 3, 4, 5]).unwrap();
    assert!(ValidationUtils::validate_embedding(&embedding).is_ok());

    // Too large values
    let large_embedding = BiometricEmbedding::new(vec![2_000_000]).unwrap();
    assert!(ValidationUtils::validate_embedding(&large_embedding).is_err());
}

#[test]
fn test_threshold_validation() {
    assert!(ValidationUtils::validate_threshold(1000).is_ok());
    assert!(ValidationUtils::validate_threshold(50).is_err()); // Below minimum
    assert!(ValidationUtils::validate_threshold(20000).is_err()); // Above maximum
}

#[test]
fn validation_test_embedding_size_validation() {
    assert!(ValidationUtils::validate_embedding_size(128).is_ok()); // Common size
    assert!(ValidationUtils::validate_embedding_size(64).is_ok()); // Power of 2
    assert!(ValidationUtils::validate_embedding_size(0).is_err()); // Zero
    assert!(ValidationUtils::validate_embedding_size(1000).is_err()); // Too large
}

#[test]
fn test_embedding_compatibility() {
    let embedding1 = BiometricEmbedding::new(vec![1, 2, 3]).unwrap();
    let embedding2 = BiometricEmbedding::new(vec![4, 5, 6]).unwrap();
    let embedding3 = BiometricEmbedding::new(vec![7, 8]).unwrap();

    // Compatible embeddings
    assert!(ValidationUtils::validate_embedding_compatibility(&embedding1, &embedding2).is_ok());

    // Incompatible embeddings (different sizes)
    assert!(ValidationUtils::validate_embedding_compatibility(&embedding1, &embedding3).is_err());
}

#[test]
fn test_sanitize_embedding() {
    let mut embedding = BiometricEmbedding::new(vec![1, 2, 200_000, 4, 5]).unwrap();
    ValidationUtils::sanitize_embedding(&mut embedding).unwrap();

    // The outlier should be clamped
    assert!(embedding.data.iter().all(|&x| x.abs() <= 100_000));
}

#[test]
fn test_mobile_config() {
    let config = MobileUtils::get_platform_config(MobilePlatform::Other);
    assert!(!config.platform.is_empty());
    assert!(config.security_level >= 1 && config.security_level <= 5);
}

#[test]
fn test_hardware_security() {
    // Test that the function returns a boolean
    let _supports = MobileUtils::supports_hardware_security(MobilePlatform::Other);
}

#[test]
fn test_android_interface() {
    // Basic test to ensure the module compiles
    assert!(true);
}
