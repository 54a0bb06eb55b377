//! The rank-1 constraint system that a proof is about: variables, linear
//! combinations, and the two roles (prover and verifier) that build it.

use vstd::prelude::*;
use bulletproofs::BulletproofGens;
use bulletproofs::PedersenGens;
use bulletproofs::r1cs::Prover;
use bulletproofs::r1cs::R1CSProof;
use bulletproofs::r1cs::Verifier;
use curve25519_dalek_ng::ristretto::CompressedRistretto;
use curve25519_dalek_ng::scalar::Scalar;
use merlin::Transcript;
use crate::config::TRANSCRIPT_LABEL;
use crate::crypto::commitments::CommitmentPoint;
use crate::crypto::commitments::pedersen_commitment;
use crate::crypto::field::FieldElement;
use crate::types::embedding::CircuitError;
use crate::types::embedding::CircuitResult;
use crate::types::embedding::reason;

verus! {

/// A variable of the constraint system.
#[derive(Clone, Copy, Debug, PartialEq, Eq, Structural)]
pub enum Variable {
    /// An input given by a commitment, by its position among the commitments.
    Committed(usize),
    /// The left input of a multiplication gate.
    MultiplierLeft(usize),
    /// The right input of a multiplication gate.
    MultiplierRight(usize),
    /// The output of a multiplication gate.
    MultiplierOutput(usize),
    /// The constant one.
    One,
}

/// One term of a linear combination: a variable times a coefficient.
#[derive(Clone, Copy, Debug)]
pub struct Term {
    pub variable: Variable,
    pub coefficient: FieldElement,
}

/// A linear combination of variables.  As a constraint it states that the
/// combination is zero in the field.
#[derive(Debug)]
pub struct LinearCombination {
    pub terms: Vec<Term>,
}

impl View for LinearCombination {
    type V = Seq<(Variable, nat)>;

    /// The terms as pairs of a variable and the value of its coefficient.
    open spec fn view(&self) -> Seq<(Variable, nat)> {
        self.terms@.map_values(|t: Term| (t.variable, t.coefficient@))
    }
}

impl LinearCombination {
    /// The empty combination, which is zero.
    pub fn new() -> (lc: Self)
        ensures
            lc@ == Seq::<(Variable, nat)>::empty(),
    {
        let lc = LinearCombination { terms: Vec::new() };
        lc
    }

    /// Adds the term `coefficient * variable`.
    pub fn push(&mut self, variable: Variable, coefficient: FieldElement)
        ensures
            final(self)@ == old(self)@.push((variable, coefficient@)),
    {
        self.terms.push(Term { variable, coefficient });
    }
}

/// What a constraint system holds: how many variables were committed, how
/// many multiplication gates were allocated, and the constraints in the
/// order in which they were added.
pub struct ConstraintSystemState {
    pub committed: nat,
    pub multipliers: nat,
    pub constraints: Seq<Seq<(Variable, nat)>>,
}

/// The state of a constraint system that nothing was added to.
pub open spec fn empty_state() -> ConstraintSystemState {
    ConstraintSystemState {
        committed: 0,
        multipliers: 0,
        constraints: Seq::<Seq<(Variable, nat)>>::empty(),
    }
}

/// Whether `variable` exists in a system with that many commitments and
/// gates.
pub open spec fn variable_in_range(variable: Variable, committed: nat, multipliers: nat) -> bool {
    match variable {
        Variable::Committed(i) => i < committed,
        Variable::MultiplierLeft(i) => i < multipliers,
        Variable::MultiplierRight(i) => i < multipliers,
        Variable::MultiplierOutput(i) => i < multipliers,
        Variable::One => true,
    }
}

/// Whether all variables of `combination` exist.
pub open spec fn combination_in_range(
    combination: Seq<(Variable, nat)>,
    committed: nat,
    multipliers: nat,
) -> bool {
    forall|j: int|
        0 <= j < combination.len() ==> variable_in_range(
            (#[trigger] combination[j]).0,
            committed,
            multipliers,
        )
}

/// Whether all variables of all `constraints` exist.
pub open spec fn constraints_in_range(
    constraints: Seq<Seq<(Variable, nat)>>,
    committed: nat,
    multipliers: nat,
) -> bool {
    forall|i: int|
        0 <= i < constraints.len() ==> combination_in_range(
            #[trigger] constraints[i],
            committed,
            multipliers,
        )
}

impl ConstraintSystemState {
    /// Whether every constraint speaks of existing variables only.
    pub open spec fn in_range(self) -> bool {
        constraints_in_range(self.constraints, self.committed, self.multipliers)
    }

    /// The state after one more commitment.
    pub open spec fn with_commitment(self) -> ConstraintSystemState {
        ConstraintSystemState { committed: self.committed + 1, ..self }
    }

    /// The state after one more multiplication gate.
    pub open spec fn with_multiplier(self) -> ConstraintSystemState {
        ConstraintSystemState { multipliers: self.multipliers + 1, ..self }
    }

    /// The state after one more constraint.
    pub open spec fn with_constraint(self, combination: Seq<(Variable, nat)>) -> ConstraintSystemState {
        ConstraintSystemState { constraints: self.constraints.push(combination), ..self }
    }
}

/// What the prover knows of the variables: the values it committed to, and
/// the inputs it gave to the multiplication gates, all as field elements.
/// The output of a gate is the product of its inputs.
pub struct WitnessState {
    pub values: Seq<nat>,
    pub left: Seq<nat>,
    pub right: Seq<nat>,
}

/// The witness of a prover that has neither committed nor allocated.
pub open spec fn empty_witness() -> WitnessState {
    WitnessState {
        values: Seq::<nat>::empty(),
        left: Seq::<nat>::empty(),
        right: Seq::<nat>::empty(),
    }
}

impl WitnessState {
    /// The witness after a commitment to `value`.
    pub open spec fn with_value(self, value: nat) -> WitnessState {
        WitnessState { values: self.values.push(value), ..self }
    }

    /// The witness after a gate with the inputs `left` and `right`.
    pub open spec fn with_inputs(self, left: nat, right: nat) -> WitnessState {
        WitnessState { left: self.left.push(left), right: self.right.push(right), ..self }
    }

    /// The witness after commitments to `values`, in order.
    pub open spec fn with_values(self, values: Seq<nat>) -> WitnessState {
        WitnessState { values: self.values + values, ..self }
    }

    /// The witness after gates with the inputs `left[i]` and `right[i]`, in
    /// order.
    pub open spec fn with_gates(self, left: Seq<nat>, right: Seq<nat>) -> WitnessState {
        WitnessState { left: self.left + left, right: self.right + right, ..self }
    }
}

/// Existing variables stay in range when commitments or gates are added.
pub proof fn lemma_in_range_grows(
    state: ConstraintSystemState,
    committed: nat,
    multipliers: nat,
)
    requires
        state.in_range(),
        state.committed <= committed,
        state.multipliers <= multipliers,
    ensures
        constraints_in_range(state.constraints, committed, multipliers),
{
}

/// A constraint within range keeps a state within range.
pub proof fn lemma_in_range_push(state: ConstraintSystemState, combination: Seq<(Variable, nat)>)
    requires
        state.in_range(),
        combination_in_range(combination, state.committed, state.multipliers),
    ensures
        state.with_constraint(combination).in_range(),
{
}

/// The prover's side of a proof in the making: it holds the witness, the
/// transcript and the constraints added so far, in a `Prover` of
/// `bulletproofs`.  Nothing is proved of its inside: contracts speak of
/// what it holds through `prover_state` and `prover_witness`.
#[verifier::external_body]
pub struct ProverSession<'g> {
    inner: Prover<'g, Transcript>,
}

/// The verifier's side of a proof being checked: it holds the commitments,
/// the transcript and the constraints added so far, in a `Verifier` of
/// `bulletproofs`.  Nothing is proved of its inside: contracts speak of
/// what it holds through `verifier_state`.
#[verifier::external_body]
pub struct VerifierSession {
    inner: Verifier<Transcript>,
}

/// The generators of the commitments, as `bulletproofs` has them; opaque.
#[verifier::external_type_specification]
#[verifier::external_body]
pub struct ExPedersenGens(PedersenGens);

/// The generators of the proofs, as `bulletproofs` has them; opaque.
#[verifier::external_type_specification]
#[verifier::external_body]
pub struct ExBulletproofGens(BulletproofGens);

/// What the prover's constraint system holds.
pub uninterp spec fn prover_state(session: ProverSession<'_>) -> ConstraintSystemState;

/// What the verifier's constraint system holds.
pub uninterp spec fn verifier_state(session: VerifierSession) -> ConstraintSystemState;

/// What the prover has assigned to its variables.
pub uninterp spec fn prover_witness(session: ProverSession<'_>) -> WitnessState;

/// What a session was opened under and has been handed since, its
/// constraints apart: the label of its transcript, and the commitments in
/// order, each in its canonical encoding.
pub struct SessionRecord {
    pub label: Seq<char>,
    pub points: Seq<Seq<u8>>,
}

impl SessionRecord {
    /// The record after one more commitment.
    pub open spec fn with_point(self, point: Seq<u8>) -> SessionRecord {
        SessionRecord { points: self.points.push(point), ..self }
    }
}

/// The record of a session that was opened under `label` and handed
/// nothing yet.
pub open spec fn opened_record(label: Seq<char>) -> SessionRecord {
    SessionRecord { label, points: Seq::<Seq<u8>>::empty() }
}

/// The label that the prover was opened under and the commitments that it
/// has made.
pub uninterp spec fn prover_record(session: ProverSession<'_>) -> SessionRecord;

/// The label that the verifier was opened under and the commitments that
/// it was handed.
pub uninterp spec fn verifier_record(session: VerifierSession) -> SessionRecord;

/// Whether `proof` is among the proofs that the prover returns, for some
/// randomness that it draws, from a session of that record, state and
/// witness and on that many generators.
pub uninterp spec fn produced_on_some_draw(
    record: SessionRecord,
    state: ConstraintSystemState,
    witness: WitnessState,
    generators: nat,
    proof: Seq<u8>,
) -> bool;

/// Whether the verifier accepts `proof` for some weight that it draws, for
/// a session of that record and state and on that many generators.
pub uninterp spec fn accepted_on_some_draw(
    record: SessionRecord,
    state: ConstraintSystemState,
    proof: Seq<u8>,
    generators: nat,
) -> bool;

/// Whether `proof` has the frame of a proof about `gates` gates, which the
/// verifier asks for before it draws anything: a first byte that says
/// whether the commitments of a second phase are there, zero for no and
/// one for yes, and the length that goes with it, which is that of a
/// proof in one phase or three group elements more.
pub open spec fn framed_for(proof: Seq<u8>, gates: nat) -> bool {
    &&& proof.len() >= 1
    &&& (proof[0] == 0 && proof.len() == proof_length(gates)) || (proof[0] == 1 && proof.len()
        == proof_length(gates) + 96)
}

/// Whether the verifier accepts `proof` whatever weight it draws, for a
/// session of that record and state and on that many generators: the
/// generators suffice, the bytes parse as a proof, the commitments and the
/// proof's group elements decode, and both equations of the protocol hold.
pub uninterp spec fn accepted_on_every_draw(
    record: SessionRecord,
    state: ConstraintSystemState,
    proof: Seq<u8>,
    generators: nat,
) -> bool;

/// The number of halvings that take the power of two `power` to one.
pub open spec fn halvings(power: nat) -> nat
    decreases power,
{
    if power <= 1 {
        0
    } else {
        1 + halvings(power / 2)
    }
}

/// The length of the serialized proof about `gates` gates: a byte for the
/// version, thirteen group elements and scalars of 32 bytes, and two group
/// elements for every halving of the padded gates.
pub open spec fn proof_length(gates: nat) -> nat {
    1 + 32 * (13 + 2 * halvings(padded_gates(gates)))
}

/// The number of gates that `gens` has a pair of generators for: the
/// capacity it was made with.
pub uninterp spec fn generator_count(gens: BulletproofGens) -> nat;

/// The least of `power`, `2 * power`, `4 * power`, ... that is at least
/// `gates`.
pub open spec fn least_multiple_from(power: nat, gates: nat) -> nat
    decreases
            (if gates > power {
                gates - power
            } else {
                0
            }),
{
    if power == 0 || power >= gates {
        power
    } else {
        least_multiple_from(2 * power, gates)
    }
}

/// The number of gates that a proof about `gates` gates is padded to: the
/// least power of two that is at least `gates`, which is one where there
/// is no gate.
pub open spec fn padded_gates(gates: nat) -> nat {
    least_multiple_from(1, gates)
}

/// Whether `power` is a power of two of at most 1024.
pub open spec fn small_power_of_two(power: nat) -> bool {
    power == 1 || power == 2 || power == 4 || power == 8 || power == 16 || power == 32 || power
        == 64 || power == 128 || power == 256 || power == 512 || power == 1024
}

/// Doubling a small power of two up to at most 1024 gates stays below
/// 1024.
pub proof fn lemma_least_multiple_within(power: nat, gates: nat)
    requires
        gates <= 1024,
        small_power_of_two(power),
    ensures
        small_power_of_two(least_multiple_from(power, gates)),
    decreases
            (if gates > power {
                gates - power
            } else {
                0
            }),
{
    if power < gates {
        lemma_least_multiple_within(2 * power, gates);
    }
}

/// A larger number takes at least as many halvings.
pub proof fn lemma_halvings_increase(power: nat, limit: nat)
    requires
        power <= limit,
    ensures
        halvings(power) <= halvings(limit),
    decreases limit,
{
    if power > 1 {
        lemma_halvings_increase(power / 2, limit / 2);
    }
}

/// A proof about at most 1024 gates has between 417 and 1057 bytes.
pub proof fn lemma_proof_length_bounded(gates: nat)
    requires
        gates <= 1024,
    ensures
        417 <= proof_length(gates) <= 1057,
{
    lemma_least_multiple_within(1, gates);
    lemma_halvings_increase(padded_gates(gates), 1024);
    reveal_with_fuel(halvings, 12);
    assert(halvings(1024) == 10);
}

/// The generators of the commitments.  Calls `PedersenGens::default`.
#[verifier::external_body]
fn pedersen_generators() -> (gens: PedersenGens) {
    PedersenGens::default()
}

/// The generators of the proof for one party.  Calls
/// `BulletproofGens::new`, which precomputes `capacity` pairs of
/// generators.
#[verifier::external_body]
fn bulletproof_generators(capacity: usize) -> (gens: BulletproofGens)
    requires
        capacity <= 1024,
    ensures
        generator_count(gens) == capacity,
{
    BulletproofGens::new(capacity, 1)
}

/// The generators that proofs are made and checked with: the two
/// generators of the commitments, and one pair of generators for every
/// multiplication gate that a proof may be about.  Prover and verifier
/// need generators for the same number of gates, rounded up to a power of
/// two.
pub struct ProofGenerators {
    pedersen: PedersenGens,
    bulletproof: BulletproofGens,
    capacity: usize,
}

impl ProofGenerators {
    /// The invariant: `capacity` is what the generators were made with.
    #[verifier::type_invariant]
    spec fn counted(self) -> bool {
        self.capacity == generator_count(self.bulletproof)
    }

    /// The number of gates there are generators for.
    pub closed spec fn gates(&self) -> nat {
        self.capacity as nat
    }

    /// Generators for `capacity` gates.
    pub fn new(capacity: usize) -> (gens: Self)
        requires
            capacity <= 1024,
        ensures
            gens.gates() == capacity,
    {
        ProofGenerators {
            pedersen: pedersen_generators(),
            bulletproof: bulletproof_generators(capacity),
            capacity,
        }
    }

    /// The number of gates there are generators for.
    pub fn capacity(&self) -> (capacity: usize)
        ensures
            capacity == self.gates(),
    {
        self.capacity
    }
}

/// Opens the prover's side.  Calls `Prover::new` on a fresh transcript
/// under `label`: the new system is empty, and so is the witness.
#[verifier::external_body]
fn prover_open<'g>(gens: &'g ProofGenerators, label: &'static str) -> (session: ProverSession<'g>)
    ensures
        prover_state(session) == empty_state(),
        prover_witness(session) == empty_witness(),
        prover_record(session) == opened_record(label@),
{
    ProverSession { inner: Prover::new(&gens.pedersen, Transcript::new(label.as_bytes())) }
}

/// Commits the prover to `value` under `blinding`.  Calls `Prover::commit`,
/// which records the value, commits to it with `PedersenGens::commit` on
/// the generators it was opened with, which `ProofGenerators` takes from
/// `PedersenGens::default`, and always returns the commitment and the
/// variable `Committed(i)`, `i` being the number of earlier commitments;
/// the index is handed on.
#[verifier::external_body]
fn prover_commit(
    session: &mut ProverSession<'_>,
    value: &FieldElement,
    blinding: &FieldElement,
) -> (res: (CommitmentPoint, Option<usize>))
    ensures
        res.0@ == pedersen_commitment(value@, blinding@),
        res.1 matches Some(index) && index == prover_state(*old(session)).committed,
        prover_state(*final(session)) == prover_state(*old(session)).with_commitment(),
        prover_witness(*final(session)) == prover_witness(*old(session)).with_value(value@),
        prover_record(*final(session)) == prover_record(*old(session)).with_point(res.0@),
{
    let v = Scalar::from_bytes_mod_order(value.bytes);
    let b = Scalar::from_bytes_mod_order(blinding.bytes);
    let (point, variable) = session.inner.commit(v, b);
    let index = match variable {
        bulletproofs::r1cs::Variable::Committed(i) => Some(i),
        _ => None,
    };
    (CommitmentPoint { bytes: point.to_bytes() }, index)
}

/// Allocates a multiplication gate with the inputs `left` and `right`.
/// Calls `allocate_multiplier` of the prover, which, given inputs, always
/// succeeds: it records the two inputs and their product, returns the
/// variables `MultiplierLeft(n)`, `MultiplierRight(n)` and
/// `MultiplierOutput(n)`, `n` being the number of earlier gates, and adds
/// no constraint; the index is handed on.
#[verifier::external_body]
fn prover_allocate_multiplier(
    session: &mut ProverSession<'_>,
    left: &FieldElement,
    right: &FieldElement,
) -> (gate: Option<usize>)
    ensures
        gate matches Some(index) && index == prover_state(*old(session)).multipliers,
        prover_state(*final(session)) == prover_state(*old(session)).with_multiplier(),
        prover_witness(*final(session)) == prover_witness(*old(session)).with_inputs(
            left@,
            right@,
        ),
        prover_record(*final(session)) == prover_record(*old(session)),
{
    let l = Scalar::from_bytes_mod_order(left.bytes);
    let r = Scalar::from_bytes_mod_order(right.bytes);
    let allocated = bulletproofs::r1cs::ConstraintSystem::allocate_multiplier(
        &mut session.inner,
        Some((l, r)),
    );
    match allocated {
        Ok((bulletproofs::r1cs::Variable::MultiplierLeft(i), _, _)) => Some(i),
        _ => None,
    }
}

/// Adds the constraint `combination = 0`.  Calls `constrain` of the prover,
/// which appends the combination to the constraints and leaves the witness
/// alone.
#[verifier::external_body]
fn prover_constrain(session: &mut ProverSession<'_>, combination: &LinearCombination)
    ensures
        prover_state(*final(session)) == prover_state(*old(session)).with_constraint(
            combination@,
        ),
        prover_witness(*final(session)) == prover_witness(*old(session)),
        prover_record(*final(session)) == prover_record(*old(session)),
{
    let terms = combination.terms.iter().map(
        |t| {
            let variable = match t.variable {
                Variable::Committed(i) => bulletproofs::r1cs::Variable::Committed(i),
                Variable::MultiplierLeft(i) => bulletproofs::r1cs::Variable::MultiplierLeft(i),
                Variable::MultiplierRight(i) => bulletproofs::r1cs::Variable::MultiplierRight(i),
                Variable::MultiplierOutput(i) => bulletproofs::r1cs::Variable::MultiplierOutput(i),
                Variable::One => bulletproofs::r1cs::Variable::One(),
            };
            (variable, Scalar::from_bytes_mod_order(t.coefficient.bytes))
        },
    );
    bulletproofs::r1cs::ConstraintSystem::constrain(&mut session.inner, terms.collect());
}

/// Produces the proof.  Calls `Prover::prove` and `R1CSProof::to_bytes`.
/// The call pads the gates to a power of two, fails with too few
/// generators where there are fewer generators than that, and fails on
/// nothing else.  The proof itself depends on fresh randomness, so of its
/// bytes two things are said: that they are a proof that the prover
/// returns for this session on some draw, as they were returned on this
/// one; and their frame, since a session that was given constraints in
/// one phase only, as every session of this library is, serializes to a
/// first byte of zero, eleven group elements and scalars, and the
/// inner-product proof of two group elements per halving and two scalars.
/// Constraints on variables that do not exist make the call panic, so they
/// are ruled out; so would generators for no party, which
/// `ProofGenerators` never holds.  The call draws from the thread-local
/// generator of `rand`, which panics where the operating system has no
/// entropy to seed it with.
#[verifier::external_body]
fn prover_finish(session: ProverSession<'_>, gens: &ProofGenerators) -> (proof: Option<Vec<u8>>)
    requires
        prover_state(session).in_range(),
    ensures
        proof is Some <==> generator_count(gens.bulletproof) >= padded_gates(
            prover_state(session).multipliers,
        ),
        proof matches Some(bytes) ==> bytes@.len() == proof_length(
            prover_state(session).multipliers,
        ) && bytes@[0] == 0,
        proof matches Some(bytes) ==> produced_on_some_draw(
            prover_record(session),
            prover_state(session),
            prover_witness(session),
            generator_count(gens.bulletproof),
            bytes@,
        ),
{
    session.inner.prove(&gens.bulletproof).ok().map(|proof| proof.to_bytes())
}

/// Opens the verifier's side.  Calls `Verifier::new` on a fresh transcript
/// under `label`: the new system is empty.
#[verifier::external_body]
fn verifier_open(label: &'static str) -> (session: VerifierSession)
    ensures
        verifier_state(session) == empty_state(),
        verifier_record(session) == opened_record(label@),
{
    VerifierSession { inner: Verifier::new(Transcript::new(label.as_bytes())) }
}

/// Hands the verifier a commitment.  Calls `Verifier::commit`, which
/// records the commitment and always returns the variable `Committed(i)`,
/// `i` being the number of earlier commitments; the index is handed on.
#[verifier::external_body]
fn verifier_commit(session: &mut VerifierSession, point: &CommitmentPoint) -> (res:
    Option<usize>)
    ensures
        res matches Some(index) && index == verifier_state(*old(session)).committed,
        verifier_state(*final(session)) == verifier_state(*old(session)).with_commitment(),
        verifier_record(*final(session)) == verifier_record(*old(session)).with_point(point@),
{
    match session.inner.commit(CompressedRistretto(point.bytes)) {
        bulletproofs::r1cs::Variable::Committed(i) => Some(i),
        _ => None,
    }
}

/// Allocates a multiplication gate.  Calls `allocate_multiplier` of the
/// verifier, which always succeeds and returns the variables
/// `MultiplierLeft(n)`, `MultiplierRight(n)` and `MultiplierOutput(n)`, `n`
/// being the number of earlier gates, and adds no constraint; the index is
/// handed on.
#[verifier::external_body]
fn verifier_allocate_multiplier(session: &mut VerifierSession) -> (gate: Option<usize>)
    ensures
        gate matches Some(index) && index == verifier_state(*old(session)).multipliers,
        verifier_state(*final(session)) == verifier_state(*old(session)).with_multiplier(),
        verifier_record(*final(session)) == verifier_record(*old(session)),
{
    let allocated = bulletproofs::r1cs::ConstraintSystem::allocate_multiplier(
        &mut session.inner,
        None,
    );
    match allocated {
        Ok((bulletproofs::r1cs::Variable::MultiplierLeft(i), _, _)) => Some(i),
        _ => None,
    }
}

/// Adds the constraint `combination = 0`.  Calls `constrain` of the
/// verifier, which appends the combination to the constraints.
#[verifier::external_body]
fn verifier_constrain(session: &mut VerifierSession, combination: &LinearCombination)
    ensures
        verifier_state(*final(session)) == verifier_state(*old(session)).with_constraint(
            combination@,
        ),
        verifier_record(*final(session)) == verifier_record(*old(session)),
{
    let terms = combination.terms.iter().map(
        |t| {
            let variable = match t.variable {
                Variable::Committed(i) => bulletproofs::r1cs::Variable::Committed(i),
                Variable::MultiplierLeft(i) => bulletproofs::r1cs::Variable::MultiplierLeft(i),
                Variable::MultiplierRight(i) => bulletproofs::r1cs::Variable::MultiplierRight(i),
                Variable::MultiplierOutput(i) => bulletproofs::r1cs::Variable::MultiplierOutput(i),
                Variable::One => bulletproofs::r1cs::Variable::One(),
            };
            (variable, Scalar::from_bytes_mod_order(t.coefficient.bytes))
        },
    );
    bulletproofs::r1cs::ConstraintSystem::constrain(&mut session.inner, terms.collect());
}

/// Checks a proof.  Calls `R1CSProof::from_bytes` and `Verifier::verify`:
/// the answer is whether the bytes parse and the proof verifies.  The
/// verifier draws a random weight to check its two equations as one, so
/// the answer is no function of the arguments.  Of the answer itself two
/// things are said: a proof which passes on every draw has passed on this
/// one, and a proof that has passed on this draw passes on some draw.
/// What is tested before the draw is said in full: `Verifier::verify`
/// refuses generators for fewer than the padded gates, `from_bytes`
/// refuses any first byte but zero and one and any length that is not one
/// byte and whole elements of 32 bytes, eleven or fourteen of them and
/// then pairs and two scalars, and the inner-product check refuses any
/// number of pairs but that of the halvings of the padded gates.
/// Constraints on variables that do not exist make the call panic, so they
/// are ruled out; so would generators for no party, which
/// `ProofGenerators` never holds.  The thread-local generator of `rand`
/// panics where the operating system has no entropy to seed it with.
#[verifier::external_body]
fn verifier_finish(session: VerifierSession, proof: &[u8], gens: &ProofGenerators) -> (accepted:
    bool)
    requires
        verifier_state(session).in_range(),
    ensures
        accepted_on_every_draw(
            verifier_record(session),
            verifier_state(session),
            proof@,
            generator_count(gens.bulletproof),
        ) ==> accepted,
        accepted ==> accepted_on_some_draw(
            verifier_record(session),
            verifier_state(session),
            proof@,
            generator_count(gens.bulletproof),
        ),
        accepted ==> generator_count(gens.bulletproof) >= padded_gates(
            verifier_state(session).multipliers,
        ),
        accepted ==> framed_for(proof@, verifier_state(session).multipliers),
{
    match R1CSProof::from_bytes(proof) {
        Ok(parsed) => session.inner.verify(&parsed, &gens.pedersen, &gens.bulletproof).is_ok(),
        Err(_) => false,
    }
}

/// A constraint system in one of its two roles.  Gadgets are written once,
/// against this type, so that prover and verifier cannot but build the same
/// constraints.
pub enum ConstraintSystem<'g> {
    /// The prover's side, which knows the witness.
    Proving(ProverSession<'g>),
    /// The verifier's side, which knows the commitments only.
    Verifying(VerifierSession),
}

impl<'g> ConstraintSystem<'g> {
    /// What the system holds.
    pub open spec fn state(&self) -> ConstraintSystemState {
        match *self {
            ConstraintSystem::Proving(session) => prover_state(session),
            ConstraintSystem::Verifying(session) => verifier_state(session),
        }
    }

    /// Whether this is the prover's side.
    pub open spec fn is_proving(&self) -> bool {
        *self is Proving
    }

    /// What the prover has assigned to its variables; empty on the
    /// verifier's side, which knows no witness.
    pub open spec fn witness(&self) -> WitnessState {
        match *self {
            ConstraintSystem::Proving(session) => prover_witness(session),
            ConstraintSystem::Verifying(_) => empty_witness(),
        }
    }

    /// The label that the system was opened under, and the commitments
    /// that it holds: those the prover has made, or those the verifier was
    /// handed.
    pub open spec fn record(&self) -> SessionRecord {
        match *self {
            ConstraintSystem::Proving(session) => prover_record(session),
            ConstraintSystem::Verifying(session) => verifier_record(session),
        }
    }

    /// The commitments that the system holds, in order.
    pub open spec fn points(&self) -> Seq<Seq<u8>> {
        self.record().points
    }

    /// A fresh constraint system on the prover's side, which commits on
    /// `gens`.
    pub fn for_prover(gens: &'g ProofGenerators) -> (cs: Self)
        ensures
            cs.is_proving(),
            cs.state() == empty_state(),
            cs.witness() == empty_witness(),
            cs.record() == opened_record(TRANSCRIPT_LABEL@),
    {
        ConstraintSystem::Proving(prover_open(gens, TRANSCRIPT_LABEL))
    }

    /// A fresh constraint system on the verifier's side.
    pub fn for_verifier() -> (cs: Self)
        ensures
            !cs.is_proving(),
            cs.state() == empty_state(),
            cs.record() == opened_record(TRANSCRIPT_LABEL@),
    {
        ConstraintSystem::Verifying(verifier_open(TRANSCRIPT_LABEL))
    }

    /// The proof that the constraints hold of the prover's witness, as the
    /// underlying protocol serializes it.  There is a proof exactly on the
    /// prover's side with generators for at least as many gates as the
    /// system has, rounded up to a power of two; it is one that the
    /// protocol's prover returns for what the system holds.
    pub fn prove(self, gens: &ProofGenerators) -> (proof: Option<Vec<u8>>)
        requires
            self.state().in_range(),
        ensures
            proof is Some <==> self.is_proving() && gens.gates() >= padded_gates(
                self.state().multipliers,
            ),
            proof matches Some(bytes) ==> framed_for(bytes@, self.state().multipliers) && bytes@[0]
                == 0,
            proof matches Some(bytes) ==> produced_on_some_draw(
                self.record(),
                self.state(),
                self.witness(),
                gens.gates(),
                bytes@,
            ),
    {
        proof {
            use_type_invariant(gens);
        }
        match self {
            ConstraintSystem::Proving(session) => prover_finish(session, gens),
            ConstraintSystem::Verifying(_) => None,
        }
    }

    /// Whether the underlying protocol accepts `proof` for the constraints
    /// and the commitments handed to the verifier; `false` on the prover's
    /// side.  The protocol accepts only a proof that has the frame of one
    /// for the gates of the system, on generators for the padded gates.
    pub fn verify(self, proof: &[u8], gens: &ProofGenerators) -> (accepted: bool)
        requires
            self.state().in_range(),
        ensures
            self.is_proving() ==> !accepted,
            !self.is_proving() && accepted_on_every_draw(
                self.record(),
                self.state(),
                proof@,
                gens.gates(),
            ) ==> accepted,
            accepted ==> accepted_on_some_draw(self.record(), self.state(), proof@, gens.gates()),
            accepted ==> gens.gates() >= padded_gates(self.state().multipliers),
            accepted ==> framed_for(proof@, self.state().multipliers),
    {
        proof {
            use_type_invariant(gens);
        }
        match self {
            ConstraintSystem::Proving(_) => false,
            ConstraintSystem::Verifying(session) => verifier_finish(session, proof, gens),
        }
    }

    /// Whether this is the prover's side.
    pub fn proving(&self) -> (proving: bool)
        ensures
            proving == self.is_proving(),
    {
        match self {
            ConstraintSystem::Proving(_) => true,
            ConstraintSystem::Verifying(_) => false,
        }
    }

    /// Commits the prover to `value` under `blinding`, and returns the
    /// commitment and the variable that stands for the value.  Fails with
    /// `InvalidParameter`, changing nothing, on the verifier's side.
    pub fn commit_value(&mut self, value: &FieldElement, blinding: &FieldElement) -> (res:
        CircuitResult<(CommitmentPoint, Variable)>)
        requires
            old(self).state().in_range(),
        ensures
            final(self).is_proving() == old(self).is_proving(),
            res is Ok <==> old(self).is_proving(),
            res matches Ok(pair) ==> {
                &&& pair.0@ == pedersen_commitment(value@, blinding@)
                &&& pair.1 == Variable::Committed(old(self).state().committed as usize)
                &&& old(self).state().committed <= usize::MAX
                &&& final(self).state() == old(self).state().with_commitment()
                &&& final(self).state().in_range()
                &&& final(self).witness() == old(self).witness().with_value(value@)
                &&& final(self).record() == old(self).record().with_point(pair.0@)
            },
            res matches Err(e) ==> {
                &&& e is InvalidParameter
                &&& final(self).state() == old(self).state()
                &&& final(self).witness() == old(self).witness()
                &&& final(self).record() == old(self).record()
            },
    {
        match self {
            ConstraintSystem::Proving(session) => {
                let ghost before = prover_state(*session);
                let (point, index) = prover_commit(session, value, blinding);
                proof {
                    lemma_in_range_grows(before, before.committed + 1, before.multipliers);
                }
                match index {
                    Some(i) => Ok((point, Variable::Committed(i))),
                    None => Err(CircuitError::InvalidParameter(reason("No variable committed"))),
                }
            },
            ConstraintSystem::Verifying(_) => Err(
                CircuitError::InvalidParameter(reason("Only the prover commits to values")),
            ),
        }
    }

    /// Hands the verifier the commitment `point`, and returns the variable
    /// that stands for the committed value.  Fails with `InvalidParameter`,
    /// changing nothing, on the prover's side.
    pub fn commit_point(&mut self, point: &CommitmentPoint) -> (res: CircuitResult<Variable>)
        requires
            old(self).state().in_range(),
        ensures
            final(self).is_proving() == old(self).is_proving(),
            res is Ok <==> !old(self).is_proving(),
            res matches Ok(variable) ==> {
                &&& variable == Variable::Committed(old(self).state().committed as usize)
                &&& old(self).state().committed <= usize::MAX
                &&& final(self).state() == old(self).state().with_commitment()
                &&& final(self).state().in_range()
                &&& final(self).record() == old(self).record().with_point(point@)
            },
            final(self).witness() == old(self).witness(),
            res matches Err(e) ==> {
                &&& e is InvalidParameter
                &&& final(self).state() == old(self).state()
                &&& final(self).record() == old(self).record()
            },
    {
        match self {
            ConstraintSystem::Proving(_) => Err(
                CircuitError::InvalidParameter(reason("Only the verifier takes commitments")),
            ),
            ConstraintSystem::Verifying(session) => {
                let ghost before = verifier_state(*session);
                let index = verifier_commit(session, point);
                proof {
                    lemma_in_range_grows(before, before.committed + 1, before.multipliers);
                }
                match index {
                    Some(i) => Ok(Variable::Committed(i)),
                    None => Err(CircuitError::InvalidParameter(reason("No variable committed"))),
                }
            },
        }
    }

    /// Allocates a multiplication gate and returns its index `n`: its
    /// variables are `MultiplierLeft(n)`, `MultiplierRight(n)` and
    /// `MultiplierOutput(n)`, and the proof will show that left times right
    /// is the output.  The prover has to say what the two inputs are; the
    /// verifier's argument is not looked at.  On failure nothing has changed.
    pub fn allocate_multiplier(&mut self, inputs: Option<(FieldElement, FieldElement)>) -> (res:
        CircuitResult<usize>)
        ensures
            final(self).is_proving() == old(self).is_proving(),
            final(self).record() == old(self).record(),
            res is Ok <==> (old(self).is_proving() ==> inputs is Some),
            res matches Ok(gate) ==> gate == old(self).state().multipliers && final(self).state()
                == old(self).state().with_multiplier(),
            res is Ok && old(self).is_proving() ==> (inputs matches Some(pair) && final(self).witness() == old(self).witness().with_inputs(pair.0@, pair.1@)),
            res matches Err(e) ==> e is ProofGenerationFailed && final(self).state() == old(self).state() && final(self).witness() == old(self).witness(),
    {
        let allocated = match self {
            ConstraintSystem::Proving(session) => {
                match inputs {
                    Some((left, right)) => prover_allocate_multiplier(session, &left, &right),
                    None => None,
                }
            },
            ConstraintSystem::Verifying(session) => verifier_allocate_multiplier(session),
        };
        match allocated {
            Some(gate) => Ok(gate),
            None => Err(
                CircuitError::ProofGenerationFailed(reason("No multiplication gate allocated")),
            ),
        }
    }

    /// Adds the constraint `combination = 0`.
    pub fn constrain(&mut self, combination: &LinearCombination)
        ensures
            final(self).is_proving() == old(self).is_proving(),
            final(self).state() == old(self).state().with_constraint(combination@),
            final(self).witness() == old(self).witness(),
            final(self).record() == old(self).record(),
    {
        match self {
            ConstraintSystem::Proving(session) => prover_constrain(session, combination),
            ConstraintSystem::Verifying(session) => verifier_constrain(session, combination),
        }
    }
}

} // verus!
