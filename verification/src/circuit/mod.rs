//! The proof circuit: the constraint system, its gadgets, and the prover
//! and verifier built on them.

pub mod biometric_circuit;
pub mod constraint_system;
pub mod constraints;
pub mod gadgets;
pub mod semantics;

pub use biometric_circuit::BiometricCircuit;
pub use constraint_system::ConstraintSystem;
pub use constraint_system::LinearCombination;
pub use constraint_system::ProofGenerators;
pub use constraint_system::Variable;
pub use constraints::BiometricConstraints;
pub use constraints::VerificationConstraints;
pub use gadgets::BiometricGadgets;
pub use gadgets::VerificationGadgets;
