//! The proof record, as it is stored and sent, and the prover's witness.

use vstd::prelude::*;
use crate::config::AGGREGATION_SIZE;
use crate::config::MAX_COORDINATE;
use crate::config::MAX_EMBEDDING_SIZE;
use crate::config::MAX_PROOF_SIZE;
use crate::config::PROOF_VERSION;
use crate::config::RANGE_BITS;
use crate::config::TRANSCRIPT_LABEL;
use crate::types::embedding::CircuitError;
use crate::types::embedding::CircuitResult;
use crate::types::embedding::coordinates_bounded;
use crate::types::embedding::reason;
use crate::types::embedding::spec_squared_distance;
use crate::types::embedding::squared_distance;

verus! {

/// The in-memory footprint of the public inputs that `size` accounts for.
pub const PUBLIC_INPUTS_FOOTPRINT: usize = 40;

/// The in-memory footprint of the metadata that `size` accounts for.
pub const METADATA_FOOTPRINT: usize = 72;

/// What a verifier has to know besides the proof and the commitments.
#[derive(Debug, Clone)]
pub struct ProofPublicInputs {
    pub threshold: u64,
    pub embedding_size: usize,
    pub commitment_hash: Vec<u8>,
}

/// The parameters of the circuit that a proof was made with.
#[derive(Debug, Clone)]
pub struct CircuitParams {
    pub range_bits: usize,
    pub aggregation_size: usize,
    pub transcript_label: String,
}

/// When and by what a proof was made.
#[derive(Debug, Clone)]
pub struct ProofMetadata {
    pub timestamp: u64,
    pub version: String,
    pub circuit_params: CircuitParams,
}

/// A proof that two committed embeddings are within the threshold.
#[derive(Debug, Clone)]
pub struct BiometricProof {
    /// The serialized proof of the underlying protocol.
    pub proof: Vec<u8>,
    /// The commitments to the coordinates: first those of the current
    /// embedding, then those of the reference embedding.
    pub commitments: Vec<Vec<u8>>,
    pub public_inputs: ProofPublicInputs,
    pub metadata: ProofMetadata,
}

/// The content of a proof record as mathematical values.
pub struct ProofContent {
    pub proof: Seq<u8>,
    pub commitments: Seq<Seq<u8>>,
    pub threshold: u64,
    pub embedding_size: usize,
    pub commitment_hash: Seq<u8>,
    pub timestamp: u64,
    pub version: Seq<char>,
    pub range_bits: usize,
    pub aggregation_size: usize,
    pub transcript_label: Seq<char>,
}

/// The sum of the lengths of `parts`.
pub open spec fn total_length(parts: Seq<Seq<u8>>) -> nat
    decreases parts.len(),
{
    if parts.len() == 0 {
        0
    } else {
        total_length(parts.drop_last()) + parts.last().len()
    }
}

impl ProofContent {
    /// Whether the circuit parameters are the ones this library proves
    /// with.  Only such records survive the binary encoding, which does not
    /// carry the parameters.
    pub open spec fn has_standard_params(self) -> bool {
        &&& self.range_bits == RANGE_BITS
        &&& self.aggregation_size == AGGREGATION_SIZE
        &&& self.transcript_label == TRANSCRIPT_LABEL@
    }
}

impl View for BiometricProof {
    type V = ProofContent;

    open spec fn view(&self) -> ProofContent {
        ProofContent {
            proof: self.proof@,
            commitments: self.commitments@.map_values(|c: Vec<u8>| c@),
            threshold: self.public_inputs.threshold,
            embedding_size: self.public_inputs.embedding_size,
            commitment_hash: self.public_inputs.commitment_hash@,
            timestamp: self.metadata.timestamp,
            version: self.metadata.version@,
            range_bits: self.metadata.circuit_params.range_bits,
            aggregation_size: self.metadata.circuit_params.aggregation_size,
            transcript_label: self.metadata.circuit_params.transcript_label@,
        }
    }
}

/// The seconds since the Unix epoch, by `SystemTime::now` and
/// `duration_since`; zero where the clock stands before the epoch.  Nothing
/// is promised of the outcome.
#[verifier::external_body]
pub(crate) fn unix_time_now() -> (seconds: u64) {
    std::time::SystemTime::now().duration_since(std::time::UNIX_EPOCH).map(|d| d.as_secs())
        .unwrap_or(0)
}

impl BiometricProof {
    /// The record made of the given parts at the given time, with this
    /// library's version and circuit parameters.
    pub fn with_timestamp(
        proof: Vec<u8>,
        commitments: Vec<Vec<u8>>,
        threshold: u64,
        embedding_size: usize,
        commitment_hash: Vec<u8>,
        timestamp: u64,
    ) -> (record: Self)
        ensures
            record@.proof == proof@,
            record@.commitments == commitments@.map_values(|c: Vec<u8>| c@),
            record.commitments == commitments,
            record@.threshold == threshold,
            record@.embedding_size == embedding_size,
            record@.commitment_hash == commitment_hash@,
            record@.timestamp == timestamp,
            record@.version == PROOF_VERSION@,
            record@.has_standard_params(),
    {
        let public_inputs = ProofPublicInputs { threshold, embedding_size, commitment_hash };
        let metadata = ProofMetadata {
            timestamp,
            version: reason(PROOF_VERSION),
            circuit_params: CircuitParams {
                range_bits: RANGE_BITS,
                aggregation_size: AGGREGATION_SIZE,
                transcript_label: reason(TRANSCRIPT_LABEL),
            },
        };
        BiometricProof { proof, commitments, public_inputs, metadata }
    }

    /// The record made of the given parts now: as `with_timestamp`, at the
    /// time the system clock gives.
    pub fn new(
        proof: Vec<u8>,
        commitments: Vec<Vec<u8>>,
        threshold: u64,
        embedding_size: usize,
        commitment_hash: Vec<u8>,
    ) -> (record: Self)
        ensures
            record@.proof == proof@,
            record@.commitments == commitments@.map_values(|c: Vec<u8>| c@),
            record.commitments == commitments,
            record@.threshold == threshold,
            record@.embedding_size == embedding_size,
            record@.commitment_hash == commitment_hash@,
            record@.version == PROOF_VERSION@,
            record@.has_standard_params(),
    {
        let timestamp: u64 = unix_time_now();
        BiometricProof::with_timestamp(
            proof,
            commitments,
            threshold,
            embedding_size,
            commitment_hash,
            timestamp,
        )
    }

    /// The size that `size` computes: the proof bytes, the commitment bytes
    /// and the two fixed footprints.
    pub open spec fn spec_size(&self) -> nat {
        self@.proof.len() + total_length(self@.commitments) + PUBLIC_INPUTS_FOOTPRINT as nat
            + METADATA_FOOTPRINT as nat
    }

    /// The number of bytes the record takes: the proof, the commitments,
    /// and a fixed footprint for public inputs and metadata; `usize::MAX`
    /// where the number is larger than that.
    pub fn size(&self) -> (bytes: usize)
        ensures
            bytes == (if self.spec_size() <= usize::MAX {
                self.spec_size()
            } else {
                usize::MAX as nat
            }),
    {
        let ghost parts = self@.commitments;
        let n: usize = self.commitments.len();
        let mut total: usize = self.proof.len();
        let mut i: usize = 0;
        while i < n
            invariant
                n == self.commitments@.len(),
                parts == self.commitments@.map_values(|c: Vec<u8>| c@),
                0 <= i <= n,
                total == self@.proof.len() + total_length(parts.take(i as int)),
            decreases n - i,
        {
            proof {
                assert(parts.take(i + 1).drop_last() =~= parts.take(i as int));
                lemma_total_length_monotone(parts, i + 1);
            }
            let length: usize = self.commitments[i].len();
            if length > usize::MAX - total {
                return usize::MAX;
            }
            total = total + length;
            i = i + 1;
        }
        proof {
            assert(parts.take(n as int) =~= parts);
        }
        if total > usize::MAX - PUBLIC_INPUTS_FOOTPRINT - METADATA_FOOTPRINT {
            return usize::MAX;
        }
        total + PUBLIC_INPUTS_FOOTPRINT + METADATA_FOOTPRINT
    }

    /// Fails exactly when the serialized proof is longer than
    /// `MAX_PROOF_SIZE`.
    pub fn validate_size(&self) -> (res: CircuitResult<()>)
        ensures
            res is Ok <==> self@.proof.len() <= MAX_PROOF_SIZE,
            res matches Err(e) ==> e is ProofVerificationFailed,
    {
        if self.proof.len() > MAX_PROOF_SIZE {
            return Err(
                CircuitError::ProofVerificationFailed(reason("Proof size exceeds maximum")),
            );
        }
        Ok(())
    }

    /// Checks the public inputs: a zero threshold or dimension is an
    /// invalid parameter, an empty commitment digest an invalid commitment.
    pub fn validate_params(&self) -> (res: CircuitResult<()>)
        ensures
            res is Ok <==> self@.threshold != 0 && self@.embedding_size != 0
                && self@.commitment_hash.len() != 0,
            res matches Err(e) ==> (if self@.threshold == 0 || self@.embedding_size == 0 {
                e is InvalidParameter
            } else {
                e is InvalidCommitment
            }),
    {
        if self.public_inputs.threshold == 0 {
            return Err(CircuitError::InvalidParameter(reason("Threshold cannot be zero")));
        }
        if self.public_inputs.embedding_size == 0 {
            return Err(CircuitError::InvalidParameter(reason("Embedding size cannot be zero")));
        }
        if self.public_inputs.commitment_hash.len() == 0 {
            return Err(
                CircuitError::InvalidCommitment(reason("Commitment hash cannot be empty")),
            );
        }
        Ok(())
    }
}

/// The total length of a prefix is at most that of the whole.
pub proof fn lemma_total_length_monotone(parts: Seq<Seq<u8>>, k: int)
    requires
        0 <= k <= parts.len(),
    ensures
        total_length(parts.take(k)) <= total_length(parts),
    decreases parts.len() - k,
{
    if k < parts.len() {
        lemma_total_length_monotone(parts, k + 1);
        assert(parts.take(k + 1).drop_last() =~= parts.take(k));
    } else {
        assert(parts.take(k) =~= parts);
    }
}

/// Whether every coordinate of `data` lies in
/// `[-MAX_COORDINATE, MAX_COORDINATE]`.
pub fn within_coordinate_bound(data: &[i64]) -> (bounded: bool)
    ensures
        bounded == coordinates_bounded(data@),
{
    let n: usize = data.len();
    let mut i: usize = 0;
    while i < n
        invariant
            n == data@.len(),
            0 <= i <= n,
            forall|k: int| 0 <= k < i ==> -MAX_COORDINATE <= #[trigger] data@[k] <= MAX_COORDINATE,
        decreases n - i,
    {
        if data[i] < -MAX_COORDINATE || data[i] > MAX_COORDINATE {
            return false;
        }
        i = i + 1;
    }
    true
}

/// What the prover alone knows: the two embeddings, the blinding factors,
/// and the squared distance.  It never leaves the prover.
#[derive(Debug, Clone)]
pub struct ProofWitness {
    pub current_embedding: Vec<i64>,
    pub reference_embedding: Vec<i64>,
    pub blinding_factors: Vec<u8>,
    pub distance_squared: u64,
}

impl ProofWitness {
    /// The invariant of a witness: two embeddings of one length, at most
    /// `MAX_EMBEDDING_SIZE`, with bounded coordinates, and their squared
    /// distance.
    pub open spec fn well_formed(&self) -> bool {
        &&& self.current_embedding@.len() == self.reference_embedding@.len()
        &&& self.current_embedding@.len() <= MAX_EMBEDDING_SIZE
        &&& coordinates_bounded(self.current_embedding@)
        &&& coordinates_bounded(self.reference_embedding@)
        &&& self.distance_squared == spec_squared_distance(
            self.current_embedding@,
            self.reference_embedding@,
        )
    }

    /// Whether `new` accepts the two embeddings.
    pub open spec fn acceptable(current: Seq<i64>, reference: Seq<i64>) -> bool {
        &&& current.len() == reference.len()
        &&& current.len() <= MAX_EMBEDDING_SIZE
        &&& coordinates_bounded(current)
        &&& coordinates_bounded(reference)
    }

    /// The witness of two embeddings, with their squared distance.  Fails
    /// when the embeddings differ in length, are longer than
    /// `MAX_EMBEDDING_SIZE`, or hold a coordinate of magnitude above
    /// `MAX_COORDINATE`.
    pub fn new(
        current_embedding: Vec<i64>,
        reference_embedding: Vec<i64>,
        blinding_factors: Vec<u8>,
    ) -> (res: CircuitResult<Self>)
        ensures
            res is Ok <==> ProofWitness::acceptable(current_embedding@, reference_embedding@),
            res matches Ok(w) ==> {
                &&& w.well_formed()
                &&& w.current_embedding@ == current_embedding@
                &&& w.reference_embedding@ == reference_embedding@
                &&& w.blinding_factors@ == blinding_factors@
            },
            res matches Err(e) ==> e is InvalidEmbedding,
    {
        if current_embedding.len() != reference_embedding.len() {
            return Err(CircuitError::InvalidEmbedding(reason("Embedding size mismatch")));
        }
        if current_embedding.len() > MAX_EMBEDDING_SIZE {
            return Err(CircuitError::InvalidEmbedding(reason("Embedding size exceeds maximum")));
        }
        if !within_coordinate_bound(current_embedding.as_slice()) || !within_coordinate_bound(
            reference_embedding.as_slice(),
        ) {
            return Err(CircuitError::InvalidEmbedding(reason("Embedding value is too large")));
        }
        let distance_squared: u64 = squared_distance(
            current_embedding.as_slice(),
            reference_embedding.as_slice(),
        );
        Ok(ProofWitness { current_embedding, reference_embedding, blinding_factors, distance_squared })
    }

    /// Fails, reporting both numbers, exactly when the squared distance is
    /// above `threshold`.
    pub fn validate_threshold(&self, threshold: u64) -> (res: CircuitResult<()>)
        ensures
            res is Ok <==> self.distance_squared <= threshold,
            res matches Err(e) ==> e == (CircuitError::ThresholdExceeded {
                expected: threshold,
                actual: self.distance_squared,
            }),
    {
        if self.distance_squared > threshold {
            return Err(
                CircuitError::ThresholdExceeded {
                    expected: threshold,
                    actual: self.distance_squared,
                },
            );
        }
        Ok(())
    }
}

} // verus!
