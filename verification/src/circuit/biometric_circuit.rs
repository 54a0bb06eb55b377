//! The prover and the verifier of the biometric statement.

use vstd::prelude::*;
use vstd::arithmetic::power2::lemma2_to64;
use vstd::slice::slice_to_vec;
use crate::circuit::constraint_system::ConstraintSystem;
use crate::circuit::constraint_system::Variable;
use crate::circuit::constraint_system::empty_state;
use crate::circuit::constraint_system::empty_witness;
use crate::circuit::constraint_system::ProofGenerators;
use crate::circuit::constraint_system::SessionRecord;
use crate::circuit::constraint_system::accepted_on_every_draw;
use crate::circuit::constraint_system::accepted_on_some_draw;
use crate::circuit::constraint_system::framed_for;
use crate::circuit::constraint_system::least_multiple_from;
use crate::circuit::constraint_system::lemma_proof_length_bounded;
use crate::circuit::constraint_system::padded_gates;
use crate::circuit::constraint_system::produced_on_some_draw;
use crate::circuit::constraint_system::proof_length;
use crate::circuit::constraint_system::small_power_of_two;
use crate::circuit::constraints::encodings;
use crate::config::TRANSCRIPT_LABEL;
use crate::circuit::constraints::BiometricConstraints;
use crate::circuit::constraints::VerificationConstraints;
use crate::circuit::constraints::after_commitments;
use crate::circuit::constraints::committed_variables;
use crate::circuit::constraints::statement_state;
use crate::circuit::semantics::images;
use crate::circuit::semantics::lemma_honest_witness_satisfies;
use crate::circuit::semantics::satisfies;
use crate::circuit::semantics::statement_witness;
use crate::config::CircuitConfig;
use crate::config::MAX_EMBEDDING_SIZE;
use crate::config::MAX_PROOF_SIZE;
use crate::config::RANGE_BITS;
use crate::config::embedding_size_in_range;
use crate::crypto::commitments::CommitmentPoint;
use crate::crypto::commitments::CommitmentScheme;
use crate::crypto::commitments::is_commitment_to;
use crate::crypto::field::field_image;
use crate::crypto::field_utils::FieldUtils;
use crate::crypto::field_utils::lemma_canonical_view;
use crate::crypto::hash::HashUtils;
use crate::crypto::hash::blake3_digest;
use crate::crypto::hash::concat_all;
use crate::types::embedding::CircuitError;
use crate::types::embedding::CircuitResult;
use crate::types::embedding::coordinates_bounded;
use crate::types::embedding::lemma_squared_distance_bounded;
use crate::types::embedding::reason;
use crate::types::embedding::spec_squared_distance;
use crate::types::proof_data::BiometricProof;
use crate::types::proof_data::ProofContent;
use crate::types::proof_data::ProofWitness;
use crate::utils::validation::spec_is_power_of_two;

verus! {

/// Whether `content` has the shape of a proof for embeddings of
/// `embedding_size` coordinates: a proof of admissible length, and two
/// 32-byte commitments per coordinate.
pub open spec fn shaped_for(content: ProofContent, embedding_size: usize) -> bool {
    &&& 0 < content.proof.len() <= MAX_PROOF_SIZE
    &&& content.commitments.len() == 2 * embedding_size
    &&& forall|i: int|
        0 <= i < content.commitments.len() ==> (#[trigger] content.commitments[i]).len() == 32
}

/// Whether the public inputs of `content` name the given dimension and
/// threshold.
pub open spec fn inputs_match(content: ProofContent, embedding_size: usize, threshold: u64) -> bool {
    content.embedding_size == embedding_size && content.threshold == threshold
}

/// Whether the commitments of `content` are commitments to the field
/// images of the coordinates of `current` and then of `reference`.
pub open spec fn commits_to(content: ProofContent, current: Seq<i64>, reference: Seq<i64>) -> bool {
    &&& content.commitments.len() == current.len() + reference.len()
    &&& forall|i: int|
        0 <= i < current.len() ==> is_commitment_to(
            #[trigger] content.commitments[i],
            field_image(current[i] as int),
        )
    &&& forall|i: int|
        0 <= i < reference.len() ==> is_commitment_to(
            #[trigger] content.commitments[current.len() + i],
            field_image(reference[i] as int),
        )
}

/// Whether the commitment digest of `content` is the BLAKE3 digest of its
/// commitments, one after the other.
pub open spec fn digest_matches(content: ProofContent) -> bool {
    content.commitment_hash == blake3_digest(concat_all(content.commitments))
}

/// Whether `threshold` fits the `RANGE_BITS` bits of the range gadget.
pub open spec fn threshold_fits_range(threshold: u64) -> bool {
    threshold < 0x1_0000_0000
}

/// The number of gates of the statement for embeddings of `embedding_size`
/// coordinates: one per coordinate, one for the distance, and the bits of
/// the range gadget.
pub open spec fn statement_gates(embedding_size: usize) -> nat {
    (embedding_size + 1 + RANGE_BITS) as nat
}

/// The record of the session that checks `content`: opened under the
/// library's label and handed the commitments of `content`.
pub open spec fn session_of(content: ProofContent) -> SessionRecord {
    SessionRecord { label: TRANSCRIPT_LABEL@, points: content.commitments }
}

/// The verdict on a proof: it is accepted only if its public inputs are
/// the verifier's own, its commitment digest is that of its commitments,
/// and the underlying protocol accepts it.
pub fn verdict(inputs_agree: bool, digest_agrees: bool, protocol_accepts: bool) -> (accepted: bool)
    ensures
        accepted == (inputs_agree && digest_agrees && protocol_accepts),
{
    inputs_agree && digest_agrees && protocol_accepts
}

/// The least power of two that is at least `gates`.
pub fn generator_capacity(gates: usize) -> (capacity: usize)
    requires
        gates <= 1024,
    ensures
        capacity == padded_gates(gates as nat),
        gates <= capacity <= 1024,
        spec_is_power_of_two(capacity as nat),
        capacity == 1 || capacity / 2 < gates,
{
    let mut capacity: usize = 1;
    while capacity < gates
        invariant
            1 <= capacity <= 1024,
            gates <= 1024,
            small_power_of_two(capacity as nat),
            least_multiple_from(capacity as nat, gates as nat) == padded_gates(gates as nat),
            capacity == 1 || capacity / 2 < gates,
        decreases 1024 - capacity,
    {
        capacity = capacity * 2;
    }
    proof {
        reveal_with_fuel(spec_is_power_of_two, 12);
    }
    capacity
}

/// The 32 bytes of a commitment as a group element; `None` for any other
/// length.
pub fn point_of(bytes: &[u8]) -> (point: Option<CommitmentPoint>)
    ensures
        point is Some <==> bytes@.len() == 32,
        point matches Some(p) ==> p@ == bytes@,
{
    if bytes.len() != 32 {
        return None;
    }
    let mut buffer: [u8; 32] = [0u8; 32];
    let mut i: usize = 0;
    while i < 32
        invariant
            0 <= i <= 32,
            bytes@.len() == 32,
            forall|k: int| 0 <= k < i ==> buffer@[k] == bytes@[k],
        decreases 32 - i,
    {
        buffer[i] = bytes[i];
        i = i + 1;
    }
    Some(CommitmentPoint { bytes: buffer })
}

/// A circuit configured for one dimension and one threshold.  Prover and
/// verifier have to be configured alike.
pub struct BiometricCircuit {
    pub embedding_size: usize,
    pub threshold: u64,
    pub generators: ProofGenerators,
    pub commitment_scheme: CommitmentScheme,
}

impl BiometricCircuit {
    /// The invariant of a circuit: a dimension between one and
    /// `MAX_EMBEDDING_SIZE`; a threshold that fits the `RANGE_BITS` bits of
    /// the range gadget, so that the threshold minus any distance below it
    /// fits as well; and generators for the gates of the statement, padded
    /// to a power of two.
    pub open spec fn well_formed(&self) -> bool {
        &&& embedding_size_in_range(self.embedding_size)
        &&& threshold_fits_range(self.threshold)
        &&& self.generators.gates() >= padded_gates(statement_gates(self.embedding_size))
    }

    /// The circuit for embeddings of `embedding_size` coordinates and the
    /// given threshold on their squared distance.
    pub fn new(embedding_size: usize, threshold: u64) -> (circuit: Self)
        requires
            embedding_size_in_range(embedding_size),
            threshold_fits_range(threshold),
        ensures
            circuit.well_formed(),
            circuit.embedding_size == embedding_size,
            circuit.threshold == threshold,
    {
        let capacity: usize = generator_capacity(embedding_size + 1 + RANGE_BITS);
        BiometricCircuit {
            embedding_size,
            threshold,
            generators: ProofGenerators::new(capacity),
            commitment_scheme: CommitmentScheme::new(),
        }
    }

    /// Whether the fields satisfy the invariant of a circuit.
    pub fn is_well_formed(&self) -> (well_formed: bool)
        ensures
            well_formed == self.well_formed(),
    {
        if self.embedding_size == 0 || self.embedding_size > MAX_EMBEDDING_SIZE || self.threshold
            >= 0x1_0000_0000 {
            return false;
        }
        self.generators.capacity() >= generator_capacity(self.embedding_size + 1 + RANGE_BITS)
    }

    /// The circuit of a validated configuration.
    pub fn from_config(config: &CircuitConfig) -> (circuit: Self)
        requires
            config.well_formed(),
        ensures
            circuit.well_formed(),
            circuit.embedding_size == config.embedding_size,
            circuit.threshold == config.threshold,
    {
        BiometricCircuit::new(config.embedding_size, config.threshold)
    }

    /// Configures a circuit.  A dimension of zero or above
    /// `MAX_EMBEDDING_SIZE`, or a threshold outside
    /// `[MIN_THRESHOLD, MAX_THRESHOLD]`, is rejected as an invalid
    /// parameter.
    pub fn configure(embedding_size: usize, threshold: u64) -> (res: CircuitResult<Self>)
        ensures
            res is Ok <==> embedding_size_in_range(embedding_size)
                && crate::config::threshold_in_range(threshold),
            res matches Ok(circuit) ==> circuit.well_formed() && circuit.embedding_size
                == embedding_size && circuit.threshold == threshold,
            res matches Err(e) ==> e is InvalidParameter,
    {
        match CircuitConfig::new(embedding_size, threshold) {
            Ok(config) => Ok(BiometricCircuit::from_config(&config)),
            Err(error) => Err(error),
        }
    }

    /// Whether `content` passes every check that `verify_proof` makes
    /// before it asks the protocol: the circuit is within its invariant,
    /// the record has the shape of a proof for it, its public inputs name
    /// the circuit's dimension and threshold, and its commitment digest is
    /// that of its commitments.
    pub open spec fn admits(&self, content: ProofContent) -> bool {
        &&& self.well_formed()
        &&& shaped_for(content, self.embedding_size)
        &&& inputs_match(content, self.embedding_size, self.threshold)
        &&& digest_matches(content)
    }

    /// Whether the protocol accepts the proof of `content`, whatever the
    /// verifier draws, against the statement of this circuit rebuilt from
    /// the commitments of `content`.
    pub open spec fn protocol_accepts(&self, content: ProofContent) -> bool {
        accepted_on_every_draw(
            session_of(content),
            statement_state(self.embedding_size as nat, self.threshold),
            content.proof,
            self.generators.gates(),
        )
    }

    /// Whether the protocol accepts the proof of `content` for some weight
    /// that the verifier draws, against the statement of this circuit
    /// rebuilt from the commitments of `content`; the proof then has the
    /// frame of a proof for the gates of the statement.
    pub open spec fn protocol_may_accept(&self, content: ProofContent) -> bool {
        &&& framed_for(content.proof, statement_gates(self.embedding_size))
        &&& accepted_on_some_draw(
            session_of(content),
            statement_state(self.embedding_size as nat, self.threshold),
            content.proof,
            self.generators.gates(),
        )
    }

    /// Whether the proof of `content` is one that the protocol's prover
    /// returns, for some randomness that it draws, for the statement of
    /// this circuit on the commitments of `content`, with the witness of
    /// the honest prover for the two embeddings.
    pub open spec fn proves(
        &self,
        current: Seq<i64>,
        reference: Seq<i64>,
        content: ProofContent,
    ) -> bool {
        produced_on_some_draw(
            session_of(content),
            statement_state(self.embedding_size as nat, self.threshold),
            statement_witness(current, reference, self.threshold),
            self.generators.gates(),
            content.proof,
        )
    }

    /// Whether `generate_proof` takes the two embeddings: each has as many
    /// coordinates as the circuit has dimensions, none of magnitude above
    /// `MAX_COORDINATE`.
    pub open spec fn takes(&self, current: Seq<i64>, reference: Seq<i64>) -> bool {
        &&& current.len() == self.embedding_size
        &&& reference.len() == self.embedding_size
        &&& coordinates_bounded(current)
        &&& coordinates_bounded(reference)
    }

    /// Commits to every coordinate of `values`, each under a fresh
    /// blinding factor, hands the openings to the prover, and returns the
    /// commitments and the variables, in order.  The commitments returned
    /// are the ones that the prover holds.
    pub fn commit_coordinates(
        &self,
        cs: &mut ConstraintSystem<'_>,
        values: &[i64],
    ) -> (res: CircuitResult<(Vec<Vec<u8>>, Vec<Variable>)>)
        requires
            old(cs).state().in_range(),
            old(cs).is_proving(),
        ensures
            final(cs).is_proving(),
            res is Ok,
            res matches Ok(pair) ==> {
                &&& final(cs).record().label == old(cs).record().label
                &&& final(cs).points() == old(cs).points() + pair.0@.map_values(|c: Vec<u8>| c@)
                &&& final(cs).state() == after_commitments(old(cs).state(), values@.len())
                &&& final(cs).state().in_range()
                &&& pair.0@.len() == values@.len()
                &&& forall|i: int| 0 <= i < pair.0@.len() ==> (#[trigger] pair.0@[i])@.len() == 32
                &&& forall|i: int|
                    0 <= i < pair.0@.len() ==> is_commitment_to(
                        (#[trigger] pair.0@[i])@,
                        field_image(values@[i] as int),
                    )
                &&& pair.1@ == committed_variables(old(cs).state().committed, values@.len())
                &&& final(cs).witness() == old(cs).witness().with_values(images(values@))
            },
    {
        let n: usize = values.len();
        let ghost start = old(cs).state();
        let ghost known = old(cs).witness();
        let mut commitments: Vec<Vec<u8>> = Vec::new();
        let mut variables: Vec<Variable> = Vec::new();
        let mut i: usize = 0;
        while i < n
            invariant
                n == values@.len(),
                0 <= i <= n,
                cs.is_proving(),
                cs.record().label == old(cs).record().label,
                cs.points() == old(cs).points() + commitments@.map_values(|c: Vec<u8>| c@),
                start == old(cs).state(),
                known == old(cs).witness(),
                cs.witness() == known.with_values(images(values@).take(i as int)),
                cs.state() == after_commitments(start, i as nat),
                cs.state().in_range(),
                commitments@.len() == i,
                forall|k: int| 0 <= k < i ==> (#[trigger] commitments@[k])@.len() == 32,
                forall|k: int|
                    0 <= k < i ==> is_commitment_to(
                        (#[trigger] commitments@[k])@,
                        field_image(values@[k] as int),
                    ),
                variables@ == committed_variables(start.committed, i as nat),
            decreases n - i,
        {
            let value = match FieldUtils::i64_to_scalar(values[i]) {
                Ok(value) => value,
                Err(_) => {
                    return Err(
                        CircuitError::ProofGenerationFailed(reason("Coordinate not in the field")),
                    );
                },
            };
            proof {
                lemma_canonical_view(value);
            }
            let (point, blinding) = self.commitment_scheme.commit_with_random_blinding(&value);
            let variable = match cs.commit_value(&value, &blinding) {
                Ok(pair) => pair.1,
                Err(_) => {
                    return Err(
                        CircuitError::ProofGenerationFailed(reason("Commitment refused")),
                    );
                },
            };
            let ghost published = commitments@;
            commitments.push(point.to_vec());
            variables.push(variable);
            proof {
                assert(commitments@.map_values(|c: Vec<u8>| c@) =~= published.map_values(
                    |c: Vec<u8>| c@,
                ).push(point@));
                assert(images(values@).take(i + 1) =~= images(values@).take(i as int).push(
                    value@,
                ));
            }
            i = i + 1;
        }
        proof {
            assert(images(values@).take(n as int) =~= images(values@));
        }
        Ok((commitments, variables))
    }

    /// Builds the biometric statement on the prover's side: commits to the
    /// coordinates of the current and then of the reference embedding, and
    /// adds the constraints.  Returns the commitments.  The prover ends up
    /// with the witness of the honest prover, which satisfies the statement.
    pub fn build_statement(
        &self,
        cs: &mut ConstraintSystem<'_>,
        witness: &ProofWitness,
    ) -> (res: CircuitResult<Vec<Vec<u8>>>)
        requires
            self.well_formed(),
            old(cs).is_proving(),
            old(cs).state() == empty_state(),
            old(cs).witness() == empty_witness(),
            witness.well_formed(),
            witness.current_embedding@.len() == self.embedding_size,
        ensures
            final(cs).is_proving(),
            res is Ok <==> witness.distance_squared <= self.threshold,
            res matches Ok(commitments) ==> {
                &&& final(cs).record().label == old(cs).record().label
                &&& final(cs).points() == old(cs).points() + commitments@.map_values(
                    |c: Vec<u8>| c@,
                )
                &&& final(cs).state().multipliers == statement_gates(self.embedding_size)
                &&& final(cs).state() == statement_state(self.embedding_size as nat, self.threshold)
                &&& final(cs).state().in_range()
                &&& final(cs).witness() == statement_witness(
                    witness.current_embedding@,
                    witness.reference_embedding@,
                    self.threshold,
                )
                &&& satisfies(final(cs).state(), final(cs).witness())
                &&& commitments@.len() == 2 * self.embedding_size
                &&& forall|i: int|
                    0 <= i < commitments@.len() ==> (#[trigger] commitments@[i])@.len() == 32
                &&& forall|i: int|
                    0 <= i < self.embedding_size ==> is_commitment_to(
                        (#[trigger] commitments@[i])@,
                        field_image(witness.current_embedding@[i] as int),
                    )
                &&& forall|i: int|
                    0 <= i < self.embedding_size ==> is_commitment_to(
                        (#[trigger] commitments@[self.embedding_size + i])@,
                        field_image(witness.reference_embedding@[i] as int),
                    )
            },
            res matches Err(e) ==> e == (CircuitError::ThresholdExceeded {
                expected: self.threshold,
                actual: witness.distance_squared,
            }),
    {
        if witness.distance_squared > self.threshold {
            return Err(
                CircuitError::ThresholdExceeded {
                    expected: self.threshold,
                    actual: witness.distance_squared,
                },
            );
        }
        let (mut commitments, current) = match self.commit_coordinates(
            cs,
            witness.current_embedding.as_slice(),
        ) {
            Ok(pair) => pair,
            Err(error) => {
                return Err(error);
            },
        };
        let (mut more, reference) = match self.commit_coordinates(
            cs,
            witness.reference_embedding.as_slice(),
        ) {
            Ok(pair) => pair,
            Err(error) => {
                return Err(error);
            },
        };
        let ghost first = commitments@;
        let ghost second = more@;
        commitments.append(&mut more);
        proof {
            assert(commitments@.map_values(|c: Vec<u8>| c@) =~= first.map_values(|c: Vec<u8>| c@)
                + second.map_values(|c: Vec<u8>| c@));
            lemma2_to64();
            lemma_honest_witness_satisfies(
                witness.current_embedding@,
                witness.reference_embedding@,
                self.threshold,
            );
        }
        match BiometricConstraints::add_biometric_similarity_constraint(
            cs,
            current.as_slice(),
            reference.as_slice(),
            self.threshold,
            Some(witness),
        ) {
            Ok(_) => Ok(commitments),
            Err(_) => Err(
                CircuitError::ThresholdExceeded {
                    expected: self.threshold,
                    actual: witness.distance_squared,
                },
            ),
        }
    }

    /// The proof record for what the underlying protocol returned: with
    /// proof bytes of admissible length the record is made of them, the
    /// commitments and their digest; otherwise proof generation has failed.
    pub fn assemble(
        &self,
        produced: Option<Vec<u8>>,
        commitments: Vec<Vec<u8>>,
    ) -> (res: CircuitResult<BiometricProof>)
        ensures
            res is Ok <==> (produced matches Some(bytes) && 0 < bytes@.len() <= MAX_PROOF_SIZE),
            res matches Ok(record) ==> {
                &&& produced matches Some(bytes)
                &&& record@.proof == bytes@
                &&& record@.commitments == commitments@.map_values(|c: Vec<u8>| c@)
                &&& inputs_match(record@, self.embedding_size, self.threshold)
                &&& digest_matches(record@)
                &&& record@.commitment_hash.len() == 32
                &&& record@.has_standard_params()
                &&& record@.version == crate::config::PROOF_VERSION@
            },
            res matches Err(e) ==> e is ProofGenerationFailed,
    {
        match produced {
            Some(bytes) => {
                if bytes.len() == 0 || bytes.len() > MAX_PROOF_SIZE {
                    return Err(
                        CircuitError::ProofGenerationFailed(reason("Proof of inadmissible length")),
                    );
                }
                let digest = HashUtils::commitments_digest(&commitments);
                Ok(
                    BiometricProof::new(
                        bytes,
                        commitments,
                        self.threshold,
                        self.embedding_size,
                        digest,
                    ),
                )
            },
            None => Err(CircuitError::ProofGenerationFailed(reason("Failed to generate proof"))),
        }
    }

    /// Proves that the squared distance of `current_embedding` and
    /// `reference_embedding` is at most the threshold, without revealing
    /// either.  Embeddings that the circuit does not take, and a circuit
    /// whose fields were set to values outside its invariant, are an
    /// invalid parameter.  Embeddings further apart than the threshold have no
    /// proof: the call fails with `ThresholdExceeded`, naming the threshold
    /// and the distance.  Otherwise the call returns a proof record, whose
    /// proof has the length that the gates of the statement give.
    pub fn generate_proof(&self, current_embedding: &[i64], reference_embedding: &[i64]) -> (res:
        CircuitResult<BiometricProof>)
        ensures
            res is Ok <==> self.well_formed() && self.takes(
                current_embedding@,
                reference_embedding@,
            ) && spec_squared_distance(current_embedding@, reference_embedding@)
                <= self.threshold,
            !(self.well_formed() && self.takes(current_embedding@, reference_embedding@)) <==> (
            res matches Err(e) && e is InvalidParameter),
            (self.well_formed() && self.takes(current_embedding@, reference_embedding@)
                && spec_squared_distance(current_embedding@, reference_embedding@)
                > self.threshold) <==> (res matches Err(e) && e is ThresholdExceeded),
            res matches Err(e) ==> {
                if e is ThresholdExceeded {
                    e == (CircuitError::ThresholdExceeded {
                        expected: self.threshold,
                        actual: spec_squared_distance(
                            current_embedding@,
                            reference_embedding@,
                        ) as u64,
                    })
                } else {
                    e is InvalidParameter
                }
            },
            res matches Ok(record) ==> {
                &&& record@.proof.len() == proof_length(statement_gates(self.embedding_size))
                &&& record@.proof[0] == 0
                &&& record@.version == crate::config::PROOF_VERSION@
                &&& self.proves(current_embedding@, reference_embedding@, record@)
                &&& self.admits(record@)
                &&& shaped_for(record@, self.embedding_size)
                &&& commits_to(record@, current_embedding@, reference_embedding@)
                &&& inputs_match(record@, self.embedding_size, self.threshold)
                &&& digest_matches(record@)
                &&& record@.commitment_hash.len() == 32
                &&& record@.has_standard_params()
            },
    {
        if !self.is_well_formed() {
            return Err(CircuitError::InvalidParameter(reason("Circuit is not configured")));
        }
        if current_embedding.len() != self.embedding_size || reference_embedding.len()
            != self.embedding_size {
            return Err(CircuitError::InvalidParameter(reason("Invalid embedding size")));
        }
        let witness = match ProofWitness::new(
            slice_to_vec(current_embedding),
            slice_to_vec(reference_embedding),
            Vec::new(),
        ) {
            Ok(witness) => witness,
            Err(_) => {
                return Err(CircuitError::InvalidParameter(reason("Embedding value is too large")));
            },
        };
        let mut cs = ConstraintSystem::for_prover(&self.generators);
        let commitments = match self.build_statement(&mut cs, &witness) {
            Ok(commitments) => commitments,
            Err(error) => {
                return Err(error);
            },
        };
        let produced = cs.prove(&self.generators);
        proof {
            lemma_proof_length_bounded(statement_gates(self.embedding_size));
        }
        self.assemble(produced, commitments)
    }

    /// The commitments of `proof` as group elements, where each has 32
    /// bytes.
    pub fn commitment_points(proof: &BiometricProof) -> (points: Option<Vec<CommitmentPoint>>)
        ensures
            points is Some <==> (forall|i: int|
                0 <= i < proof@.commitments.len() ==> (#[trigger] proof@.commitments[i]).len()
                    == 32),
            points matches Some(list) ==> encodings(list@) == proof@.commitments,
    {
        let n: usize = proof.commitments.len();
        let mut points: Vec<CommitmentPoint> = Vec::new();
        let mut i: usize = 0;
        while i < n
            invariant
                n == proof.commitments@.len(),
                0 <= i <= n,
                points@.len() == i,
                forall|k: int| 0 <= k < i ==> (#[trigger] points@[k])@ == proof@.commitments[k],
                forall|k: int| 0 <= k < i ==> (#[trigger] proof@.commitments[k]).len() == 32,
            decreases n - i,
        {
            match point_of(proof.commitments[i].as_slice()) {
                Some(point) => {
                    proof {
                        assert(proof@.commitments[i as int] == proof.commitments@[i as int]@);
                    }
                    points.push(point);
                },
                None => {
                    proof {
                        assert(proof@.commitments[i as int] == proof.commitments@[i as int]@);
                    }
                    return None;
                },
            }
            i = i + 1;
        }
        proof {
            assert(encodings(points@) =~= proof@.commitments);
        }
        Some(points)
    }

    /// Whether `proof` has the shape of a proof for this circuit.
    pub fn has_shape(&self, proof: &BiometricProof) -> (shaped: bool)
        ensures
            shaped == shaped_for(proof@, self.embedding_size),
    {
        if proof.proof.len() == 0 || proof.proof.len() > MAX_PROOF_SIZE {
            return false;
        }
        if proof.commitments.len() % 2 != 0 || proof.commitments.len() / 2
            != self.embedding_size {
            return false;
        }
        crate::utils::validation::ValidationUtils::commitments_have_size(proof)
    }

    /// Checks `proof` against this circuit.  The answer is `true` only if
    /// the record has the shape of a proof for this circuit, its public
    /// inputs name this circuit's dimension and threshold, its commitment
    /// digest is that of its commitments, and the underlying protocol
    /// accepts the proof against the constraint system rebuilt from the
    /// commitments alone.  Where shape, public inputs or digest are wrong,
    /// or the fields of the circuit were set to values outside its
    /// invariant, the answer is `false`.  Where all of these are right, the
    /// answer is that of the protocol, which draws a weight: `true` for a
    /// proof that passes whatever is drawn, and `true` only for a proof
    /// with the frame of one for this statement that passes on some draw.
    /// The call never fails.
    pub fn verify_proof(&self, proof: &BiometricProof) -> (res: CircuitResult<bool>)
        ensures
            res is Ok,
            self.admits(proof@) && self.protocol_accepts(proof@) ==> res == Ok::<
                bool,
                CircuitError,
            >(true),
            !self.admits(proof@) ==> res == Ok::<bool, CircuitError>(false),
            res == Ok::<bool, CircuitError>(true) ==> self.protocol_may_accept(proof@),
    {
        if !self.is_well_formed() || !self.has_shape(proof) {
            return Ok(false);
        }
        let points = match BiometricCircuit::commitment_points(proof) {
            Some(points) => points,
            None => {
                return Ok(false);
            },
        };
        let inputs_agree: bool = proof.public_inputs.embedding_size == self.embedding_size
            && proof.public_inputs.threshold == self.threshold;
        let digest = HashUtils::commitments_digest(&proof.commitments);
        let digest_agrees: bool = HashUtils::verify_hash(
            proof.public_inputs.commitment_hash.as_slice(),
            digest.as_slice(),
        );
        if !inputs_agree || !digest_agrees {
            return Ok(false);
        }
        let mut cs = ConstraintSystem::for_verifier();
        match VerificationConstraints::add_biometric_verification_constraints(
            &mut cs,
            points.as_slice(),
            self.embedding_size,
            self.threshold,
        ) {
            Ok(()) => {},
            Err(_) => {
                return Err(
                    CircuitError::ProofVerificationFailed(reason("Constraint refused")),
                );
            },
        }
        let protocol_accepts: bool = cs.verify(proof.proof.as_slice(), &self.generators);
        Ok(verdict(inputs_agree, digest_agrees, protocol_accepts))
    }
}

/// Whether `content` is a record that `generate_proof` of `circuit` may
/// return for the two embeddings.
pub open spec fn generated_by(
    circuit: BiometricCircuit,
    current: Seq<i64>,
    reference: Seq<i64>,
    content: ProofContent,
) -> bool {
    &&& circuit.well_formed()
    &&& circuit.takes(current, reference)
    &&& spec_squared_distance(current, reference) <= circuit.threshold
    &&& content.proof.len() == proof_length(statement_gates(circuit.embedding_size))
    &&& content.proof[0] == 0
    &&& content.version == crate::config::PROOF_VERSION@
    &&& circuit.proves(current, reference, content)
    &&& shaped_for(content, circuit.embedding_size)
    &&& commits_to(content, current, reference)
    &&& inputs_match(content, circuit.embedding_size, circuit.threshold)
    &&& digest_matches(content)
}

/// A record that `generate_proof` returns passes every check that
/// `verify_proof` of the same circuit makes itself, and its proof has the
/// frame that the protocol asks for before it draws.
pub proof fn lemma_generated_record_is_admitted(
    circuit: BiometricCircuit,
    current: Seq<i64>,
    reference: Seq<i64>,
    content: ProofContent,
)
    requires
        generated_by(circuit, current, reference, content),
    ensures
        circuit.admits(content),
        framed_for(content.proof, statement_gates(circuit.embedding_size)),
{
}

/// What the completeness of the protocol says of one record: where its
/// proof is one that the prover returns for the statement of `circuit`
/// and the honest witness of the two embeddings, the verifier accepts it
/// whatever it draws.
pub open spec fn complete_for(
    circuit: BiometricCircuit,
    current: Seq<i64>,
    reference: Seq<i64>,
    content: ProofContent,
) -> bool {
    circuit.proves(current, reference, content) ==> circuit.protocol_accepts(content)
}

/// Whether `verify_proof` of `circuit` is bound to return `true` for
/// `content`.
pub open spec fn verified_by(circuit: BiometricCircuit, content: ProofContent) -> bool {
    circuit.admits(content) && circuit.protocol_accepts(content)
}

/// A record that `generate_proof` returns is verified by the same
/// circuit, as far as the protocol is complete for it.  The witness of
/// the honest prover satisfies the statement, so the completeness of the
/// protocol is all that is asked of it.
pub proof fn lemma_generated_record_is_verified(
    circuit: BiometricCircuit,
    current: Seq<i64>,
    reference: Seq<i64>,
    content: ProofContent,
)
    requires
        generated_by(circuit, current, reference, content),
        complete_for(circuit, current, reference, content),
    ensures
        verified_by(circuit, content),
        satisfies(
            statement_state(circuit.embedding_size as nat, circuit.threshold),
            statement_witness(current, reference, circuit.threshold),
        ),
{
    lemma2_to64();
    lemma_squared_distance_bounded(current, reference);
    lemma_honest_witness_satisfies(current, reference, circuit.threshold);
}

/// A record that `generate_proof` returned is not accepted after the
/// first byte of its proof was changed, whatever else was changed with
/// it short of the length: no other first byte goes with that length.
pub proof fn lemma_changed_frame_is_rejected(
    circuit: BiometricCircuit,
    current: Seq<i64>,
    reference: Seq<i64>,
    content: ProofContent,
    changed: ProofContent,
)
    requires
        generated_by(circuit, current, reference, content),
        changed.proof.len() == content.proof.len(),
        changed.proof[0] != content.proof[0],
    ensures
        !circuit.protocol_may_accept(changed),
{
}

/// A record is rejected where its commitments were changed and its
/// commitment digest was left as it was, given that the digest of the
/// changed commitments is another.
pub proof fn lemma_changed_commitments_are_rejected(
    circuit: BiometricCircuit,
    content: ProofContent,
    changed: ProofContent,
)
    requires
        circuit.admits(content),
        changed.commitment_hash == content.commitment_hash,
        blake3_digest(concat_all(changed.commitments)) != blake3_digest(
            concat_all(content.commitments),
        ),
    ensures
        !circuit.admits(changed),
{
}

/// A record is rejected where its public inputs or its commitment digest
/// were changed alone: one that is admitted is no longer admitted with
/// another threshold, another dimension, or another digest.
pub proof fn lemma_changed_inputs_are_rejected(
    circuit: BiometricCircuit,
    content: ProofContent,
    changed: ProofContent,
)
    requires
        circuit.admits(content),
        changed.commitments == content.commitments,
        changed.threshold != content.threshold || changed.embedding_size
            != content.embedding_size || changed.commitment_hash != content.commitment_hash,
    ensures
        !circuit.admits(changed),
{
}

} // verus!
