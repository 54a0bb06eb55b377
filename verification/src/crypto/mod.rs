//! Field arithmetic, commitments and hashing.

pub mod commitments;
pub mod field;
pub mod field_utils;
pub mod hash;

pub use commitments::Commitment;
pub use commitments::CommitmentPoint;
pub use commitments::CommitmentScheme;
pub use field::FieldElement;
pub use field_utils::BatchFieldOps;
pub use field_utils::FieldUtils;
pub use hash::CircuitHash;
pub use hash::HashUtils;
