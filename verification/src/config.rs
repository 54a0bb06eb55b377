//! Circuit-wide constants and the validated configuration record.

use vstd::prelude::*;
use crate::types::embedding::CircuitError;
use crate::types::embedding::reason;

verus! {

/// Embedding dimension used when nothing else is asked for.
pub const DEFAULT_EMBEDDING_SIZE: usize = 128;

/// Squared-distance threshold used when nothing else is asked for.
pub const DEFAULT_THRESHOLD: u64 = 1000;

/// Largest embedding dimension a circuit accepts.
pub const MAX_EMBEDDING_SIZE: usize = 512;

/// Smallest threshold a validated configuration accepts.
pub const MIN_THRESHOLD: u64 = 100;

/// Largest threshold a validated configuration accepts.
pub const MAX_THRESHOLD: u64 = 10000;

/// Largest magnitude of an embedding coordinate.  With at most
/// `MAX_EMBEDDING_SIZE` coordinates this keeps every squared distance far
/// below both `u64::MAX` and the order of the scalar field.
pub const MAX_COORDINATE: i64 = 1_000_000;

/// Domain-separation label of the proof transcript.
pub const TRANSCRIPT_LABEL: &'static str = "PayNetZKPBiometric";

/// Domain-separation label for commitment digests.
pub const COMMITMENT_LABEL: &'static str = "BiometricCommitment";

/// Domain-separation label for proof digests.
pub const PROOF_LABEL: &'static str = "BiometricProof";

/// Version tag written into the metadata of every proof.
pub const PROOF_VERSION: &'static str = "0.1.0";

/// Width, in bits, of the range that the threshold slack is confined to.
pub const RANGE_BITS: usize = 32;

/// Number of range statements aggregated into one proof.
pub const AGGREGATION_SIZE: usize = 1;

/// Length of every digest the library produces.
pub const HASH_OUTPUT_SIZE: usize = 32;

/// Largest accepted length of the serialized protocol proof.
pub const MAX_PROOF_SIZE: usize = 5000;

/// Largest accepted length of one serialized commitment.
pub const MAX_COMMITMENT_SIZE: usize = 1000;

/// The parameters that prover and verifier have to agree on.
#[derive(Debug, Clone)]
pub struct CircuitConfig {
    pub embedding_size: usize,
    pub threshold: u64,
    pub range_bits: usize,
    pub aggregation_size: usize,
}

/// Whether `embedding_size` is a dimension a circuit can be built for.
pub open spec fn embedding_size_in_range(embedding_size: usize) -> bool {
    0 < embedding_size <= MAX_EMBEDDING_SIZE
}

/// Whether `threshold` lies in the window of a validated configuration.
pub open spec fn threshold_in_range(threshold: u64) -> bool {
    MIN_THRESHOLD <= threshold <= MAX_THRESHOLD
}

impl CircuitConfig {
    /// The invariant of a configuration: dimension and threshold in range,
    /// and the library's fixed circuit parameters.
    pub open spec fn well_formed(&self) -> bool {
        &&& embedding_size_in_range(self.embedding_size)
        &&& threshold_in_range(self.threshold)
        &&& self.range_bits == RANGE_BITS
        &&& self.aggregation_size == AGGREGATION_SIZE
    }

    /// Builds a configuration, rejecting a dimension of zero or above
    /// `MAX_EMBEDDING_SIZE` and a threshold outside
    /// `[MIN_THRESHOLD, MAX_THRESHOLD]`.
    pub fn new(embedding_size: usize, threshold: u64) -> (res: Result<Self, CircuitError>)
        ensures
            res is Ok <==> embedding_size_in_range(embedding_size) && threshold_in_range(threshold),
            res matches Ok(c) ==> c.well_formed() && c.embedding_size == embedding_size
                && c.threshold == threshold,
            res matches Err(e) ==> e is InvalidParameter,
    {
        if embedding_size == 0 {
            return Err(CircuitError::InvalidParameter(reason("Embedding size cannot be zero")));
        }
        if embedding_size > MAX_EMBEDDING_SIZE {
            return Err(CircuitError::InvalidParameter(reason("Embedding size exceeds maximum")));
        }
        if threshold < MIN_THRESHOLD || threshold > MAX_THRESHOLD {
            return Err(
                CircuitError::InvalidParameter(reason("Threshold outside the permitted window")),
            );
        }
        Ok(
            CircuitConfig {
                embedding_size,
                threshold,
                range_bits: RANGE_BITS,
                aggregation_size: AGGREGATION_SIZE,
            },
        )
    }

    /// Re-checks a configuration whose fields may have been edited: fails
    /// exactly when the dimension or the threshold is zero.
    pub fn validate(&self) -> (res: Result<(), CircuitError>)
        ensures
            res is Ok <==> self.embedding_size != 0 && self.threshold != 0,
            res matches Err(e) ==> e is InvalidParameter,
    {
        if self.embedding_size == 0 {
            return Err(CircuitError::InvalidParameter(reason("Embedding size cannot be zero")));
        }
        if self.threshold == 0 {
            return Err(CircuitError::InvalidParameter(reason("Threshold cannot be zero")));
        }
        Ok(())
    }
}

impl Default for CircuitConfig {
    fn default() -> (c: Self)
        ensures
            c.well_formed(),
            c.embedding_size == DEFAULT_EMBEDDING_SIZE,
            c.threshold == DEFAULT_THRESHOLD,
    {
        CircuitConfig {
            embedding_size: DEFAULT_EMBEDDING_SIZE,
            threshold: DEFAULT_THRESHOLD,
            range_bits: RANGE_BITS,
            aggregation_size: AGGREGATION_SIZE,
        }
    }
}

} // verus!
