//! The data model: embeddings, errors and the proof record.

pub mod embedding;
pub mod proof_data;

pub use embedding::BiometricCommitment;
pub use embedding::BiometricEmbedding;
pub use embedding::CircuitError;
pub use embedding::CircuitResult;
pub use proof_data::BiometricProof;
pub use proof_data::CircuitParams;
pub use proof_data::ProofMetadata;
pub use proof_data::ProofPublicInputs;
pub use proof_data::ProofWitness;
