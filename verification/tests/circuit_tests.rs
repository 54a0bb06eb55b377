use zkp_circuit::circuit::BiometricCircuit;
use zkp_circuit::crypto::CommitmentScheme;
use zkp_circuit::crypto::FieldElement;

#[test]
fn test_circuit_basic_functionality() {
    let circuit = BiometricCircuit::new(4, 1000);
    assert_eq!(circuit.embedding_size, 4);
    assert_eq!(circuit.threshold, 1000);
}

#[test]
fn circuit_tests_test_commitment_scheme() {
    let scheme = CommitmentScheme::new();
    let value = FieldElement::from_u64(42);

    let (commitment, _) = scheme.commit_with_random_blinding(&value);
    assert_ne!(commitment.to_bytes(), [0u8; 32]);
}

#[test]
fn circuit_tests_test_embedding_size_validation() {
    let circuit = BiometricCircuit::new(4, 1000);

    // Valid size
    let valid_embedding: Vec<i64> = vec![1, 2, 3, 4];
    let reference_embedding: Vec<i64> = vec![1, 2, 3, 5];

    let result = circuit.generate_proof(&valid_embedding, &reference_embedding);
    assert!(result.is_ok());

    // Invalid size
    let invalid_embedding: Vec<i64> = vec![1, 2, 3];

    let result = circuit.generate_proof(&invalid_embedding, &reference_embedding);
    assert!(result.is_err());
}
