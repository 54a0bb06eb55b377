use zkp_circuit::circuit::BiometricCircuit;
use zkp_circuit::types::BiometricProof;

#[test]
fn integration_tests_test_circuit_creation() {
    let circuit = BiometricCircuit::new(4, 1000);
    assert_eq!(circuit.embedding_size, 4);
    assert_eq!(circuit.threshold, 1000);
}

#[test]
fn integration_tests_test_proof_generation() {
    let circuit = BiometricCircuit::new(4, 1000);

    let current_embedding: Vec<i64> = vec![1, 2, 3, 4];
    let reference_embedding: Vec<i64> = vec![1, 2, 3, 5];

    let result = circuit.generate_proof(&current_embedding, &reference_embedding);
    assert!(result.is_ok());

    if let Ok(proof) = result {
        assert!(!proof.proof.is_empty());
    }
}

#[test]
fn test_proof_verification() {
    let circuit = BiometricCircuit::new(4, 1000);

    let dummy_proof = vec![0u8; 32]; // Dummy proof bytes
    let dummy_commitments = vec![];
    let record = BiometricProof::new(dummy_proof, dummy_commitments, 1000, 4, vec![0u8; 32]);

    let result = circuit.verify_proof(&record);
    assert!(result.is_ok());
}
