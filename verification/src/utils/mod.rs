//! Serialization, validation and helpers for field elements.

pub mod scalar_utils;
pub mod serialization;
pub mod validation;

pub use scalar_utils::ScalarUtils;
pub use serialization::BinarySerializer;
pub use serialization::SerializationUtils;
pub use validation::ValidationUtils;
