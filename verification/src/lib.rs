//! Zero-knowledge proofs that two biometric embeddings lie within a bounded
//! squared distance of each other, without revealing either embedding.
//!
//! The prover commits to every coordinate of both embeddings, builds a
//! rank-1 constraint system that states that the squared distance of the
//! committed embeddings is at most a threshold, and proves it.  The
//! verifier rebuilds the same constraint system from the commitments alone
//! and checks the proof against it.

use vstd::prelude::*;

pub mod circuit;
pub mod config;
pub mod crypto;
pub mod mobile;
pub mod types;
pub mod utils;

pub use circuit::BiometricCircuit;
pub use circuit::BiometricConstraints;
pub use circuit::BiometricGadgets;
pub use circuit::ConstraintSystem;
pub use circuit::LinearCombination;
pub use circuit::ProofGenerators;
pub use circuit::Variable;
pub use circuit::VerificationConstraints;
pub use circuit::VerificationGadgets;
pub use config::CircuitConfig;
pub use crypto::BatchFieldOps;
pub use crypto::CircuitHash;
pub use crypto::Commitment;
pub use crypto::CommitmentPoint;
pub use crypto::CommitmentScheme;
pub use crypto::FieldElement;
pub use crypto::FieldUtils;
pub use crypto::HashUtils;
pub use mobile::MobileConfig;
pub use mobile::MobilePlatform;
pub use mobile::MobileUtils;
pub use types::BiometricCommitment;
pub use types::BiometricEmbedding;
pub use types::BiometricProof;
pub use types::CircuitError;
pub use types::CircuitParams;
pub use types::CircuitResult;
pub use types::ProofMetadata;
pub use types::ProofPublicInputs;
pub use types::ProofWitness;
pub use utils::BinarySerializer;
pub use utils::ScalarUtils;
pub use utils::SerializationUtils;
pub use utils::ValidationUtils;

verus! {

/// The entry point of the library: circuits with the default or with
/// chosen parameters.
pub struct ZKPCircuit;

impl ZKPCircuit {
    /// The circuit with the default dimension and threshold.
    pub fn new() -> (circuit: BiometricCircuit)
        ensures
            circuit.well_formed(),
            circuit.embedding_size == config::DEFAULT_EMBEDDING_SIZE,
            circuit.threshold == config::DEFAULT_THRESHOLD,
    {
        BiometricCircuit::new(config::DEFAULT_EMBEDDING_SIZE, config::DEFAULT_THRESHOLD)
    }

    /// The circuit for embeddings of `embedding_size` coordinates and the
    /// given threshold.
    pub fn with_params(embedding_size: usize, threshold: u64) -> (circuit: BiometricCircuit)
        requires
            config::embedding_size_in_range(embedding_size),
            circuit::biometric_circuit::threshold_fits_range(threshold),
        ensures
            circuit.well_formed(),
            circuit.embedding_size == embedding_size,
            circuit.threshold == threshold,
    {
        BiometricCircuit::new(embedding_size, threshold)
    }
}

} // verus!
