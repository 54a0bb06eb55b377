//! The constraints of the biometric statement: squared differences, their
//! sum, and the comparison of the sum with the threshold.

use vstd::prelude::*;
use vstd::arithmetic::div_mod::lemma_div_denominator;
use vstd::arithmetic::power2::lemma2_to64;
use vstd::arithmetic::power2::lemma2_to64_rest;
use vstd::arithmetic::power2::lemma_pow2_pos;
use vstd::arithmetic::power2::lemma_pow2_strictly_increases;
use vstd::arithmetic::power2::lemma_pow2_unfold;
use vstd::arithmetic::power2::pow2;
use crate::circuit::constraint_system::ConstraintSystem;
use crate::circuit::constraint_system::ConstraintSystemState;
use crate::circuit::constraint_system::LinearCombination;
use crate::circuit::constraint_system::Variable;
use crate::circuit::constraint_system::combination_in_range;
use crate::circuit::constraint_system::empty_state;
use crate::circuit::constraint_system::lemma_in_range_grows;
use crate::circuit::constraint_system::lemma_in_range_push;
use crate::circuit::constraint_system::variable_in_range;
use crate::circuit::gadgets::BiometricGadgets;
use crate::circuit::semantics::bit_of;
use crate::circuit::semantics::bits_of;
use crate::circuit::semantics::complements_of;
use crate::circuit::semantics::distance_witness;
use crate::circuit::semantics::range_witness;
use crate::config::RANGE_BITS;
use crate::crypto::commitments::CommitmentPoint;
use crate::crypto::field::FieldElement;
use crate::crypto::field::field_neg;
use crate::crypto::field::group_order;
use crate::crypto::field_utils::lemma_canonical_view;
use crate::types::embedding::CircuitError;
use crate::types::embedding::CircuitResult;
use crate::types::embedding::reason;
use crate::types::proof_data::ProofWitness;

verus! {

/// The field element `-x`.
pub open spec fn neg_value(x: nat) -> nat {
    ((-(x as int)) % (group_order() as int)) as nat
}

/// The coefficient `-x`.
pub fn negative_coefficient(x: u64) -> (e: FieldElement)
    ensures
        e@ == neg_value(x as nat),
        e.is_canonical(),
{
    let positive = FieldElement::from_u64(x);
    let e = field_neg(&positive);
    proof {
        lemma_canonical_view(e);
    }
    e
}

/// The constraint `a - b - wire = 0`.
pub open spec fn difference_constraint(a: Variable, b: Variable, wire: Variable) -> Seq<
    (Variable, nat),
> {
    seq![(a, 1nat), (b, neg_value(1)), (wire, neg_value(1))]
}

/// The constraint `a - b = 0`.
pub open spec fn equality_constraint(a: Variable, b: Variable) -> Seq<(Variable, nat)> {
    seq![(a, 1nat), (b, neg_value(1))]
}

/// The state after the squared-difference gadget on `a` and `b`: one more
/// gate, both of whose inputs are constrained to `a - b`, so that its
/// output is `(a - b)²`.
pub open spec fn after_squared_difference(
    state: ConstraintSystemState,
    a: Variable,
    b: Variable,
) -> ConstraintSystemState {
    let gate = state.multipliers as usize;
    state.with_multiplier().with_constraint(
        difference_constraint(a, b, Variable::MultiplierLeft(gate)),
    ).with_constraint(difference_constraint(a, b, Variable::MultiplierRight(gate)))
}

/// The state after the squared-difference gadget on each pair of `current`
/// and `reference`, in order.
pub open spec fn after_squared_differences(
    state: ConstraintSystemState,
    current: Seq<Variable>,
    reference: Seq<Variable>,
) -> ConstraintSystemState
    decreases current.len(),
{
    if current.len() == 0 || current.len() != reference.len() {
        state
    } else {
        after_squared_difference(
            after_squared_differences(state, current.drop_last(), reference.drop_last()),
            current.last(),
            reference.last(),
        )
    }
}

/// The outputs of `count` consecutive gates, starting with gate `first`.
pub open spec fn gate_outputs(first: nat, count: nat) -> Seq<Variable> {
    Seq::new(count, |i: int| Variable::MultiplierOutput((first + i) as usize))
}

/// The constraint `sum(variables) - total = 0`.
pub open spec fn sum_constraint(variables: Seq<Variable>, total: Variable) -> Seq<(Variable, nat)> {
    variables.map_values(|v: Variable| (v, 1nat)).push((total, neg_value(1)))
}

/// The state after one step of a bit decomposition: a multiplier whose
/// product is constrained to zero and whose inputs add up to one, so that
/// the right input is a bit and the left input its complement.
pub open spec fn after_bit(state: ConstraintSystemState) -> ConstraintSystemState {
    let gate = state.multipliers as usize;
    state.with_multiplier().with_constraint(
        seq![(Variable::MultiplierOutput(gate), 1nat)],
    ).with_constraint(
        seq![
            (Variable::MultiplierLeft(gate), 1nat),
            (Variable::MultiplierRight(gate), 1nat),
            (Variable::One, neg_value(1)),
        ],
    )
}

/// The state after `bits` gates of a bit decomposition.
pub open spec fn after_bits(state: ConstraintSystemState, bits: nat) -> ConstraintSystemState
    decreases bits,
{
    if bits == 0 {
        state
    } else {
        after_bit(after_bits(state, (bits - 1) as nat))
    }
}

/// The terms `-2^i * bit_i` of a bit decomposition whose bits are the right
/// inputs of `bits` consecutive gates, starting with gate `first`.
pub open spec fn bit_terms(first: nat, bits: nat) -> Seq<(Variable, nat)> {
    Seq::new(
        bits,
        |i: int| (Variable::MultiplierRight((first + i) as usize), neg_value(pow2(i as nat))),
    )
}

/// The state after the range gadget on `combination` over `bits` bits:
/// `bits` bit gates, and the constraint that `combination` is the number
/// the bits spell, which confines it to `[0, 2^bits)`.
pub open spec fn after_range(
    state: ConstraintSystemState,
    combination: Seq<(Variable, nat)>,
    bits: nat,
) -> ConstraintSystemState {
    after_bits(state, bits).with_constraint(combination + bit_terms(state.multipliers, bits))
}

/// The combination `threshold - value`.
pub open spec fn slack_combination(value: Variable, threshold: u64) -> Seq<(Variable, nat)> {
    seq![(Variable::One, threshold as nat), (value, neg_value(1))]
}

/// The state after the distance gadget: a squared-difference gate per
/// dimension, one gate whose left input stands for the distance, and the
/// constraint that the squared differences add up to it.
pub open spec fn after_distance(
    state: ConstraintSystemState,
    current: Seq<Variable>,
    reference: Seq<Variable>,
) -> ConstraintSystemState {
    let squared = after_squared_differences(state, current, reference);
    let total = Variable::MultiplierLeft(squared.multipliers as usize);
    squared.with_multiplier().with_constraint(
        sum_constraint(gate_outputs(state.multipliers, current.len()), total),
    )
}

/// The variable that stands for the distance after the distance gadget.
pub open spec fn distance_variable(state: ConstraintSystemState, dimensions: nat) -> Variable {
    Variable::MultiplierLeft((state.multipliers + dimensions) as usize)
}

/// The state after the whole biometric statement: the distance gadget, and
/// the range gadget on `threshold - distance`.
pub open spec fn after_similarity(
    state: ConstraintSystemState,
    current: Seq<Variable>,
    reference: Seq<Variable>,
    threshold: u64,
) -> ConstraintSystemState {
    after_range(
        after_distance(state, current, reference),
        slack_combination(distance_variable(state, current.len()), threshold),
        RANGE_BITS as nat,
    )
}

/// Whether all `variables` exist in `state`.
pub open spec fn variables_in_range(variables: Seq<Variable>, state: ConstraintSystemState) -> bool {
    forall|i: int|
        0 <= i < variables.len() ==> variable_in_range(
            #[trigger] variables[i],
            state.committed,
            state.multipliers,
        )
}

/// The squared-difference gadget keeps a state within range and adds one
/// gate.
pub proof fn lemma_squared_difference_in_range(
    state: ConstraintSystemState,
    a: Variable,
    b: Variable,
)
    requires
        state.in_range(),
        variable_in_range(a, state.committed, state.multipliers),
        variable_in_range(b, state.committed, state.multipliers),
        state.multipliers <= usize::MAX,
    ensures
        after_squared_difference(state, a, b).in_range(),
        after_squared_difference(state, a, b).multipliers == state.multipliers + 1,
        after_squared_difference(state, a, b).committed == state.committed,
{
    let gate = state.multipliers as usize;
    let s1 = state.with_multiplier();
    lemma_in_range_grows(state, s1.committed, s1.multipliers);
    let c1 = difference_constraint(a, b, Variable::MultiplierLeft(gate));
    let c2 = difference_constraint(a, b, Variable::MultiplierRight(gate));
    lemma_in_range_push(s1, c1);
    lemma_in_range_push(s1.with_constraint(c1), c2);
}

/// The squared-difference gadgets on `count` pairs add `count` gates and
/// no commitment.
pub proof fn lemma_squared_differences_counts(
    state: ConstraintSystemState,
    current: Seq<Variable>,
    reference: Seq<Variable>,
)
    requires
        current.len() == reference.len(),
    ensures
        after_squared_differences(state, current, reference).multipliers == state.multipliers
            + current.len(),
        after_squared_differences(state, current, reference).committed == state.committed,
    decreases current.len(),
{
    if current.len() > 0 {
        lemma_squared_differences_counts(state, current.drop_last(), reference.drop_last());
    }
}

/// A bit gate keeps a state within range and adds one gate.
pub proof fn lemma_bit_in_range(state: ConstraintSystemState)
    requires
        state.in_range(),
        state.multipliers <= usize::MAX,
    ensures
        after_bit(state).in_range(),
        after_bit(state).multipliers == state.multipliers + 1,
        after_bit(state).committed == state.committed,
{
    let gate = state.multipliers as usize;
    let s1 = state.with_multiplier();
    lemma_in_range_grows(state, s1.committed, s1.multipliers);
    let c1 = seq![(Variable::MultiplierOutput(gate), 1nat)];
    let c2 = seq![
        (Variable::MultiplierLeft(gate), 1nat),
        (Variable::MultiplierRight(gate), 1nat),
        (Variable::One, neg_value(1)),
    ];
    lemma_in_range_push(s1, c1);
    lemma_in_range_push(s1.with_constraint(c1), c2);
}

/// `bits` bit gates add `bits` gates and no commitment.
pub proof fn lemma_bits_counts(state: ConstraintSystemState, bits: nat)
    ensures
        after_bits(state, bits).multipliers == state.multipliers + bits,
        after_bits(state, bits).committed == state.committed,
    decreases bits,
{
    if bits > 0 {
        lemma_bits_counts(state, (bits - 1) as nat);
    }
}

/// The combination `a - b - wire`.
pub fn difference_combination(a: Variable, b: Variable, wire: Variable) -> (lc: LinearCombination)
    ensures
        lc@ == difference_constraint(a, b, wire),
{
    let minus_one = negative_coefficient(1);
    let mut lc = LinearCombination::new();
    lc.push(a, FieldElement::one());
    lc.push(b, minus_one);
    lc.push(wire, minus_one);
    lc
}

/// The combination `a - b`.
pub fn equality_combination(a: Variable, b: Variable) -> (lc: LinearCombination)
    ensures
        lc@ == equality_constraint(a, b),
{
    let mut lc = LinearCombination::new();
    lc.push(a, FieldElement::one());
    lc.push(b, negative_coefficient(1));
    lc
}

/// Variables that exist keep existing when commitments or gates are added.
pub proof fn lemma_combination_in_range_grows(
    combination: Seq<(Variable, nat)>,
    committed: nat,
    multipliers: nat,
    more_committed: nat,
    more_multipliers: nat,
)
    requires
        combination_in_range(combination, committed, multipliers),
        committed <= more_committed,
        multipliers <= more_multipliers,
    ensures
        combination_in_range(combination, more_committed, more_multipliers),
{
}

/// The combination `output(gate)`.
pub fn bit_product_combination(gate: usize) -> (lc: LinearCombination)
    ensures
        lc@ == seq![(Variable::MultiplierOutput(gate), 1nat)],
{
    let mut lc = LinearCombination::new();
    lc.push(Variable::MultiplierOutput(gate), FieldElement::one());
    lc
}

/// The combination `left(gate) + right(gate) - 1`.
pub fn bit_complement_combination(gate: usize) -> (lc: LinearCombination)
    ensures
        lc@ == seq![
            (Variable::MultiplierLeft(gate), 1nat),
            (Variable::MultiplierRight(gate), 1nat),
            (Variable::One, neg_value(1)),
        ],
{
    let one = FieldElement::one();
    let mut lc = LinearCombination::new();
    lc.push(Variable::MultiplierLeft(gate), one);
    lc.push(Variable::MultiplierRight(gate), one);
    lc.push(Variable::One, negative_coefficient(1));
    lc
}

/// The combination `threshold - value`.
pub fn slack_of(value: Variable, threshold: u64) -> (lc: LinearCombination)
    ensures
        lc@ == slack_combination(value, threshold),
{
    let mut lc = LinearCombination::new();
    lc.push(Variable::One, FieldElement::from_u64(threshold));
    lc.push(value, negative_coefficient(1));
    lc
}

/// Two to the power `bits`.
pub fn power_of_two(bits: usize) -> (power: u64)
    requires
        bits <= 63,
    ensures
        power == pow2(bits as nat),
{
    let mut power: u64 = 1;
    let mut i: usize = 0;
    proof {
        lemma2_to64();
    }
    while i < bits
        invariant
            0 <= i <= bits <= 63,
            power == pow2(i as nat),
        decreases bits - i,
    {
        proof {
            lemma_pow2_unfold((i + 1) as nat);
            lemma2_to64_rest();
            if i + 1 < 63 {
                lemma_pow2_strictly_increases((i + 1) as nat, 63);
            }
        }
        power = power * 2;
        i = i + 1;
    }
    power
}

/// One gate of a bit decomposition: allocates a gate, constrains its
/// output to zero and its inputs to add up to one, and returns its index.
/// The prover passes the bit.
pub fn bit_gate(cs: &mut ConstraintSystem<'_>, bit: Option<u64>) -> (res: CircuitResult<usize>)
    requires
        old(cs).state().in_range(),
        bit matches Some(b) ==> b <= 1,
    ensures
        final(cs).is_proving() == old(cs).is_proving(),
        final(cs).record() == old(cs).record(),
        res is Ok <==> (old(cs).is_proving() ==> bit is Some),
        res matches Ok(gate) ==> {
            &&& final(cs).state() == after_bit(old(cs).state())
            &&& gate == old(cs).state().multipliers
            &&& final(cs).state().in_range()
        },
        res is Ok && old(cs).is_proving() ==> (bit matches Some(b) && final(cs).witness() == old(cs).witness().with_inputs((1 - b) as nat, b as nat)),
        res matches Err(e) ==> e is ProofGenerationFailed && final(cs).state() == old(cs).state()
            && final(cs).witness() == old(cs).witness(),
{
    let inputs: Option<(FieldElement, FieldElement)> = match bit {
        Some(b) => Some((FieldElement::from_u64(1 - b), FieldElement::from_u64(b))),
        None => None,
    };
    let gate: usize = match cs.allocate_multiplier(inputs) {
        Ok(gate) => gate,
        Err(error) => {
            return Err(error);
        },
    };
    let product = bit_product_combination(gate);
    let complement = bit_complement_combination(gate);
    proof {
        lemma_bit_in_range(old(cs).state());
    }
    cs.constrain(&product);
    cs.constrain(&complement);
    Ok(gate)
}

/// The constraints of the biometric statement.  Every gadget takes the
/// constraint system in either role, so prover and verifier add the same
/// constraints; the prover also hands over what it knows of the witness.
pub struct BiometricConstraints;

impl BiometricConstraints {
    /// The squared-difference gadget: allocates a gate, constrains both of
    /// its inputs to `a - b`, and returns its output, which is thereby
    /// `(a - b)²`.  The prover passes the value of `a - b`.
    pub fn squared_difference(
        cs: &mut ConstraintSystem<'_>,
        a: Variable,
        b: Variable,
        difference: Option<FieldElement>,
    ) -> (res: CircuitResult<Variable>)
        requires
            old(cs).state().in_range(),
            variable_in_range(a, old(cs).state().committed, old(cs).state().multipliers),
            variable_in_range(b, old(cs).state().committed, old(cs).state().multipliers),
        ensures
            final(cs).is_proving() == old(cs).is_proving(),
            final(cs).record() == old(cs).record(),
            res is Ok <==> (old(cs).is_proving() ==> difference is Some),
            res matches Ok(square) ==> {
                &&& final(cs).state() == after_squared_difference(old(cs).state(), a, b)
                &&& square == Variable::MultiplierOutput(old(cs).state().multipliers as usize)
                &&& final(cs).state().in_range()
                &&& final(cs).state().multipliers == old(cs).state().multipliers + 1
            },
            res is Ok && old(cs).is_proving() ==> (difference matches Some(d) && final(cs).witness() == old(cs).witness().with_inputs(d@, d@)),
            res matches Err(e) ==> e is ProofGenerationFailed && final(cs).state() == old(cs).state()
                && final(cs).witness() == old(cs).witness(),
    {
        let inputs: Option<(FieldElement, FieldElement)> = match difference {
            Some(d) => Some((d, d)),
            None => None,
        };
        let gate: usize = match cs.allocate_multiplier(inputs) {
            Ok(gate) => gate,
            Err(error) => {
                return Err(error);
            },
        };
        let left = difference_combination(a, b, Variable::MultiplierLeft(gate));
        let right = difference_combination(a, b, Variable::MultiplierRight(gate));
        proof {
            lemma_squared_difference_in_range(old(cs).state(), a, b);
        }
        cs.constrain(&left);
        cs.constrain(&right);
        Ok(Variable::MultiplierOutput(gate))
    }

    /// Constrains `(a - b)² = c`: the squared-difference gadget on `a` and
    /// `b`, and the constraint that its output equals `c`.  The prover
    /// passes the value of `a - b`.
    pub fn add_squared_difference_constraint(
        cs: &mut ConstraintSystem<'_>,
        a: Variable,
        b: Variable,
        c: Variable,
        difference: Option<FieldElement>,
    ) -> (res: CircuitResult<()>)
        requires
            old(cs).state().in_range(),
            variable_in_range(a, old(cs).state().committed, old(cs).state().multipliers),
            variable_in_range(b, old(cs).state().committed, old(cs).state().multipliers),
            variable_in_range(c, old(cs).state().committed, old(cs).state().multipliers),
        ensures
            final(cs).is_proving() == old(cs).is_proving(),
            final(cs).record() == old(cs).record(),
            res is Ok <==> (old(cs).is_proving() ==> difference is Some),
            res is Ok ==> {
                &&& final(cs).state() == after_squared_difference(
                    old(cs).state(),
                    a,
                    b,
                ).with_constraint(
                    equality_constraint(
                        Variable::MultiplierOutput(old(cs).state().multipliers as usize),
                        c,
                    ),
                )
                &&& final(cs).state().in_range()
            },
            res is Ok && old(cs).is_proving() ==> (difference matches Some(d) && final(cs).witness() == old(cs).witness().with_inputs(d@, d@)),
            res matches Err(e) ==> e is ProofGenerationFailed && final(cs).state() == old(cs).state()
                && final(cs).witness() == old(cs).witness(),
    {
        let square = match BiometricConstraints::squared_difference(cs, a, b, difference) {
            Ok(square) => square,
            Err(error) => {
                return Err(error);
            },
        };
        let tie = equality_combination(square, c);
        proof {
            lemma_in_range_push(cs.state(), tie@);
        }
        cs.constrain(&tie);
        Ok(())
    }

    /// The summation gadget: constrains the sum of `vars` to equal `total`.
    pub fn add_sum_constraint(cs: &mut ConstraintSystem<'_>, vars: &[Variable], total: Variable)
        requires
            old(cs).state().in_range(),
            variables_in_range(vars@, old(cs).state()),
            variable_in_range(total, old(cs).state().committed, old(cs).state().multipliers),
        ensures
            final(cs).is_proving() == old(cs).is_proving(),
            final(cs).state() == old(cs).state().with_constraint(sum_constraint(vars@, total)),
            final(cs).state().in_range(),
            final(cs).witness() == old(cs).witness(),
            final(cs).record() == old(cs).record(),
    {
        let n: usize = vars.len();
        let one = FieldElement::one();
        let mut sum = LinearCombination::new();
        let mut i: usize = 0;
        while i < n
            invariant
                n == vars@.len(),
                0 <= i <= n,
                one@ == 1,
                sum@ == vars@.take(i as int).map_values(|v: Variable| (v, 1nat)),
            decreases n - i,
        {
            sum.push(vars[i], one);
            i = i + 1;
        }
        sum.push(total, negative_coefficient(1));
        proof {
            assert(vars@.take(n as int) =~= vars@);
            lemma_in_range_push(old(cs).state(), sum@);
        }
        cs.constrain(&sum);
    }

    /// The range gadget: confines `combination` to `[0, 2^bits)` by `bits`
    /// bit gates and the constraint that `combination` is the number the
    /// bits spell.  The prover passes the value of `combination`; where
    /// that is missing or does not fit in `bits` bits, nothing is added and
    /// the call fails.
    pub fn range_gadget(
        cs: &mut ConstraintSystem<'_>,
        combination: LinearCombination,
        bits: usize,
        value: Option<u64>,
    ) -> (res: CircuitResult<()>)
        requires
            old(cs).state().in_range(),
            combination_in_range(
                combination@,
                old(cs).state().committed,
                old(cs).state().multipliers,
            ),
            bits <= 63,
        ensures
            final(cs).is_proving() == old(cs).is_proving(),
            final(cs).record() == old(cs).record(),
            res is Ok <==> (old(cs).is_proving() ==> (value matches Some(v) && v < pow2(
                bits as nat,
            ))),
            res is Ok ==> {
                &&& final(cs).state() == after_range(old(cs).state(), combination@, bits as nat)
                &&& final(cs).state().in_range()
                &&& final(cs).state().multipliers == old(cs).state().multipliers + bits
                &&& final(cs).state().committed == old(cs).state().committed
            },
            res is Ok && old(cs).is_proving() ==> (value matches Some(v) && final(cs).witness()
                == range_witness(old(cs).witness(), v as nat, bits as nat)),
            res matches Err(e) ==> e is ProofGenerationFailed && final(cs).state() == old(cs).state()
                && final(cs).witness() == old(cs).witness(),
    {
        let limit: u64 = power_of_two(bits);
        let proving: bool = cs.proving();
        if proving {
            match value {
                Some(v) => {
                    if v >= limit {
                        return Err(
                            CircuitError::ProofGenerationFailed(
                                reason("Value does not fit the range"),
                            ),
                        );
                    }
                },
                None => {
                    return Err(
                        CircuitError::ProofGenerationFailed(reason("Missing value for range")),
                    );
                },
            }
        }
        let ghost start = old(cs).state();
        let ghost first = start.multipliers;
        let ghost base = combination@;
        let mut spelled = combination;
        let mut rest: u64 = match value {
            Some(v) => v,
            None => 0,
        };
        let mut power: u64 = 1;
        let mut i: usize = 0;
        let ghost known = old(cs).witness();
        let ghost whole: nat = match value {
            Some(v) => v as nat,
            None => 0,
        };
        proof {
            lemma2_to64();
        }
        while i < bits
            invariant
                0 <= i <= bits <= 63,
                cs.is_proving() == old(cs).is_proving(),
                cs.record() == old(cs).record(),
                proving == cs.is_proving(),
                proving ==> (value matches Some(v) && v < pow2(bits as nat)),
                start == old(cs).state(),
                first == start.multipliers,
                cs.state() == after_bits(start, i as nat),
                cs.state().in_range(),
                cs.state().multipliers == first + i,
                cs.state().committed == start.committed,
                spelled@ == base + bit_terms(first, i as nat),
                combination_in_range(spelled@, cs.state().committed, cs.state().multipliers),
                power == pow2(i as nat),
                known == old(cs).witness(),
                whole == (match value {
                    Some(v) => v as nat,
                    None => 0,
                }),
                rest == whole / pow2(i as nat),
                proving ==> cs.witness() == range_witness(known, whole, i as nat),
            decreases bits - i,
        {
            let bit: Option<u64> = match value {
                Some(_) => Some(rest % 2),
                None => None,
            };
            let ghost before = cs.state();
            let gate: usize = match bit_gate(cs, bit) {
                Ok(gate) => gate,
                Err(error) => {
                    return Err(error);
                },
            };
            let coefficient = negative_coefficient(power);
            let ghost previous = spelled@;
            spelled.push(Variable::MultiplierRight(gate), coefficient);
            proof {
                lemma_bit_in_range(before);
                lemma_combination_in_range_grows(
                    previous,
                    before.committed,
                    before.multipliers,
                    cs.state().committed,
                    cs.state().multipliers,
                );
                lemma_pow2_unfold((i + 1) as nat);
                lemma2_to64_rest();
                if i + 1 < 63 {
                    lemma_pow2_strictly_increases((i + 1) as nat, 63);
                }
                lemma_pow2_pos(i as nat);
                lemma_div_denominator(whole as int, pow2(i as nat) as int, 2);
                if proving {
                    let b = bit_of(whole, i as nat);
                    assert(complements_of(whole, (i + 1) as nat) =~= complements_of(
                        whole,
                        i as nat,
                    ).push((1 - b) as nat));
                    assert(bits_of(whole, (i + 1) as nat) =~= bits_of(whole, i as nat).push(b));
                }
            }
            rest = rest / 2;
            power = power * 2;
            i = i + 1;
        }
        proof {
            lemma_in_range_push(cs.state(), spelled@);
        }
        cs.constrain(&spelled);
        Ok(())
    }

    /// Constrains `var` to `[0, 2^bit_length)` by the range gadget.  The
    /// prover passes the value of `var`, which has to fit.  A width above
    /// 63 bits is an invalid parameter.  Where the call fails nothing is
    /// added.
    pub fn add_range_constraint(
        cs: &mut ConstraintSystem<'_>,
        var: Variable,
        bit_length: usize,
        value: Option<u64>,
    ) -> (res: CircuitResult<()>)
        requires
            old(cs).state().in_range(),
            variable_in_range(var, old(cs).state().committed, old(cs).state().multipliers),
        ensures
            final(cs).is_proving() == old(cs).is_proving(),
            final(cs).record() == old(cs).record(),
            res is Ok <==> bit_length <= 63 && (old(cs).is_proving() ==> (value matches Some(v)
                && v < pow2(bit_length as nat))),
            res is Ok ==> {
                &&& final(cs).state() == after_range(
                    old(cs).state(),
                    seq![(var, 1nat)],
                    bit_length as nat,
                )
                &&& final(cs).state().in_range()
            },
            res is Ok && old(cs).is_proving() ==> (value matches Some(v) && final(cs).witness()
                == range_witness(old(cs).witness(), v as nat, bit_length as nat)),
            bit_length > 63 <==> (res matches Err(e) && e is InvalidParameter),
            res matches Err(e) ==> (e is InvalidParameter || e is ProofGenerationFailed) && final(cs).state() == old(cs).state() && final(cs).witness() == old(cs).witness(),
    {
        if bit_length > 63 {
            return Err(CircuitError::InvalidParameter(reason("Range wider than 63 bits")));
        }
        let mut combination = LinearCombination::new();
        combination.push(var, FieldElement::one());
        BiometricConstraints::range_gadget(cs, combination, bit_length, value)
    }

    /// The threshold gadget: constrains `value <= threshold` by the range
    /// gadget on `threshold - value` over `RANGE_BITS` bits.  The prover
    /// passes what `value` is; where that is above `threshold` no witness
    /// exists, and the call fails with both numbers.  A prover that passes
    /// nothing, or a value so far below the threshold that the difference
    /// does not fit the bits, cannot go on.  The call succeeds on all other
    /// inputs, and where it fails nothing is added.
    pub fn add_threshold_constraint(
        cs: &mut ConstraintSystem<'_>,
        value: Variable,
        threshold: u64,
        witness: Option<u64>,
    ) -> (res: CircuitResult<()>)
        requires
            old(cs).state().in_range(),
            variable_in_range(value, old(cs).state().committed, old(cs).state().multipliers),
        ensures
            final(cs).is_proving() == old(cs).is_proving(),
            final(cs).record() == old(cs).record(),
            res is Ok <==> (witness matches Some(actual) ==> actual <= threshold) && (old(cs).is_proving() ==> (witness matches Some(actual) && threshold - actual < pow2(
                RANGE_BITS as nat,
            ))),
            res is Ok ==> {
                &&& final(cs).state() == after_range(
                    old(cs).state(),
                    slack_combination(value, threshold),
                    RANGE_BITS as nat,
                )
                &&& final(cs).state().in_range()
                &&& final(cs).state().multipliers == old(cs).state().multipliers + RANGE_BITS
                &&& final(cs).state().committed == old(cs).state().committed
            },
            res is Ok && old(cs).is_proving() ==> (witness matches Some(actual) && final(cs).witness() == range_witness(
                old(cs).witness(),
                (threshold - actual) as nat,
                RANGE_BITS as nat,
            )),
            (witness matches Some(actual) && actual > threshold) <==> (res matches Err(e) && e
                is ThresholdExceeded),
            res matches Err(e) ==> {
                &&& final(cs).state() == old(cs).state()
                &&& final(cs).witness() == old(cs).witness()
                &&& if e is ThresholdExceeded {
                    &&& witness matches Some(actual)
                    &&& e == (CircuitError::ThresholdExceeded {
                        expected: threshold,
                        actual: actual,
                    })
                } else {
                    e is ProofGenerationFailed
                }
            },
    {
        let slack: Option<u64> = match witness {
            Some(actual) => {
                if actual > threshold {
                    return Err(CircuitError::ThresholdExceeded { expected: threshold, actual });
                }
                Some(threshold - actual)
            },
            None => None,
        };
        let combination = slack_of(value, threshold);
        BiometricConstraints::range_gadget(cs, combination, RANGE_BITS, slack)
    }

    /// The whole biometric statement: the distance gadget on the two lists
    /// of variables, and the threshold gadget on the distance.  Returns the
    /// variable of the distance.  The prover passes the witness.  Lists of
    /// different lengths are an invalid parameter; a witness whose distance
    /// is above `threshold` fails with both numbers; a prover without a
    /// witness, or with one that leaves more below the threshold than
    /// `RANGE_BITS` bits hold, cannot go on.  The call succeeds on all other
    /// inputs, and where it fails nothing is added.
    pub fn add_biometric_similarity_constraint(
        cs: &mut ConstraintSystem<'_>,
        current_embedding: &[Variable],
        reference_embedding: &[Variable],
        threshold: u64,
        witness: Option<&ProofWitness>,
    ) -> (res: CircuitResult<Variable>)
        requires
            old(cs).state().in_range(),
            variables_in_range(current_embedding@, old(cs).state()),
            variables_in_range(reference_embedding@, old(cs).state()),
            witness matches Some(w) ==> w.well_formed() && w.current_embedding@.len()
                == current_embedding@.len(),
        ensures
            final(cs).is_proving() == old(cs).is_proving(),
            final(cs).record() == old(cs).record(),
            res is Ok <==> {
                &&& current_embedding@.len() == reference_embedding@.len()
                &&& witness matches Some(w) ==> w.distance_squared <= threshold
                &&& old(cs).is_proving() ==> (witness matches Some(w) && threshold
                    - w.distance_squared < pow2(RANGE_BITS as nat))
            },
            res matches Ok(total) ==> {
                &&& final(cs).state() == after_similarity(
                    old(cs).state(),
                    current_embedding@,
                    reference_embedding@,
                    threshold,
                )
                &&& total == distance_variable(old(cs).state(), current_embedding@.len())
                &&& final(cs).state().in_range()
                &&& final(cs).state().committed == old(cs).state().committed
                &&& final(cs).state().multipliers == old(cs).state().multipliers
                    + current_embedding@.len() + 1 + RANGE_BITS
            },
            res is Ok && old(cs).is_proving() ==> (witness matches Some(w) && final(cs).witness()
                == range_witness(
                distance_witness(
                    old(cs).witness(),
                    w.current_embedding@,
                    w.reference_embedding@,
                ),
                (threshold - w.distance_squared) as nat,
                RANGE_BITS as nat,
            )),
            current_embedding@.len() != reference_embedding@.len() <==> (res matches Err(e) && e
                is InvalidParameter),
            (current_embedding@.len() == reference_embedding@.len() && (witness matches Some(w)
                && w.distance_squared > threshold)) <==> (res matches Err(e) && e
                is ThresholdExceeded),
            res matches Err(e) ==> {
                &&& final(cs).state() == old(cs).state()
                &&& final(cs).witness() == old(cs).witness()
                &&& if e is InvalidParameter {
                    true
                } else if e is ThresholdExceeded {
                    &&& witness matches Some(w)
                    &&& e == (CircuitError::ThresholdExceeded {
                        expected: threshold,
                        actual: w.distance_squared,
                    })
                } else {
                    e is ProofGenerationFailed
                }
            },
    {
        if current_embedding.len() != reference_embedding.len() {
            return Err(CircuitError::InvalidParameter(reason("Embedding size mismatch")));
        }
        let distance: Option<u64> = match witness {
            Some(w) => {
                if w.distance_squared > threshold {
                    return Err(
                        CircuitError::ThresholdExceeded {
                            expected: threshold,
                            actual: w.distance_squared,
                        },
                    );
                }
                Some(w.distance_squared)
            },
            None => None,
        };
        if cs.proving() {
            let fits: bool = match distance {
                Some(d) => threshold - d < power_of_two(RANGE_BITS),
                None => false,
            };
            if !fits {
                return Err(
                    CircuitError::ProofGenerationFailed(reason("Slack does not fit the range")),
                );
            }
        }
        let total = match BiometricGadgets::distance_gadget(
            cs,
            current_embedding,
            reference_embedding,
            witness,
        ) {
            Ok(total) => total,
            Err(error) => {
                return Err(error);
            },
        };
        match BiometricConstraints::add_threshold_constraint(cs, total, threshold, distance) {
            Ok(()) => Ok(total),
            Err(error) => Err(error),
        }
    }
}

/// The canonical encodings of `points`, in order.
pub open spec fn encodings(points: Seq<CommitmentPoint>) -> Seq<Seq<u8>> {
    Seq::new(points.len(), |i: int| points[i]@)
}

/// The state after `count` more commitments.
pub open spec fn after_commitments(state: ConstraintSystemState, count: nat) -> ConstraintSystemState {
    ConstraintSystemState { committed: state.committed + count, ..state }
}

/// `count` consecutive committed variables, starting with number `first`.
pub open spec fn committed_variables(first: nat, count: nat) -> Seq<Variable> {
    Seq::new(count, |i: int| Variable::Committed((first + i) as usize))
}

/// The constraint system of the biometric statement for embeddings of
/// `dimensions` coordinates: `2 * dimensions` commitments, first those of
/// the current embedding and then those of the reference embedding, and
/// the biometric statement on them.  It depends on the dimension and the
/// threshold alone: neither on the embeddings nor on who builds it.
pub open spec fn statement_state(dimensions: nat, threshold: u64) -> ConstraintSystemState {
    after_similarity(
        after_commitments(empty_state(), 2 * dimensions),
        committed_variables(0, dimensions),
        committed_variables(dimensions, dimensions),
        threshold,
    )
}

/// The verifier's construction of the biometric statement.
pub struct VerificationConstraints;

impl VerificationConstraints {
    /// Rebuilds the biometric statement on the verifier's side from the
    /// public commitments alone: hands the verifier every commitment, the
    /// first `embedding_size` as the current embedding and the rest as the
    /// reference embedding, and adds the same constraints as the prover.
    /// A number of commitments other than `2 * embedding_size`, or a
    /// constraint system on the prover's side, is an invalid parameter, and
    /// then nothing is added.  On all other inputs the call succeeds, and
    /// the verifier then holds the commitments it was given, in order.
    pub fn add_biometric_verification_constraints(
        verifier: &mut ConstraintSystem<'_>,
        public_commitments: &[CommitmentPoint],
        embedding_size: usize,
        threshold: u64,
    ) -> (res: CircuitResult<()>)
        requires
            old(verifier).state() == empty_state(),
        ensures
            final(verifier).is_proving() == old(verifier).is_proving(),
            res is Ok <==> !old(verifier).is_proving() && public_commitments@.len() == 2
                * embedding_size,
            res is Ok ==> {
                &&& final(verifier).state() == statement_state(embedding_size as nat, threshold)
                &&& final(verifier).state().multipliers == embedding_size + 1 + RANGE_BITS
                &&& final(verifier).state().in_range()
                &&& final(verifier).record().label == old(verifier).record().label
                &&& final(verifier).points() == old(verifier).points() + encodings(
                    public_commitments@,
                )
            },
            res matches Err(e) ==> {
                &&& e is InvalidParameter
                &&& final(verifier).state() == old(verifier).state()
                &&& final(verifier).record() == old(verifier).record()
            },
    {
        if verifier.proving() {
            return Err(CircuitError::InvalidParameter(reason("Not a verifier")));
        }
        let count: usize = public_commitments.len();
        if count % 2 != 0 || count / 2 != embedding_size {
            return Err(CircuitError::InvalidParameter(reason("Wrong number of commitments")));
        }
        let n: usize = embedding_size;
        let mut current: Vec<Variable> = Vec::new();
        let mut reference: Vec<Variable> = Vec::new();
        let mut i: usize = 0;
        while i < count
            invariant
                n == embedding_size,
                count == 2 * n,
                count == public_commitments@.len(),
                0 <= i <= count,
                !verifier.is_proving(),
                !old(verifier).is_proving(),
                verifier.record().label == old(verifier).record().label,
                verifier.points() == old(verifier).points() + encodings(
                    public_commitments@.take(i as int),
                ),
                verifier.state() == after_commitments(empty_state(), i as nat),
                verifier.state().in_range(),
                i <= n ==> current@ == committed_variables(0, i as nat) && reference@
                    == committed_variables(n as nat, 0),
                i > n ==> current@ == committed_variables(0, n as nat) && reference@
                    == committed_variables(n as nat, (i - n) as nat),
            decreases count - i,
        {
            let variable = match verifier.commit_point(&public_commitments[i]) {
                Ok(variable) => variable,
                Err(error) => {
                    return Err(error);
                },
            };
            if i < n {
                current.push(variable);
            } else {
                reference.push(variable);
            }
            proof {
                assert(encodings(public_commitments@.take(i + 1)) =~= encodings(
                    public_commitments@.take(i as int),
                ).push(public_commitments@[i as int]@));
            }
            i = i + 1;
        }
        proof {
            assert(public_commitments@.take(count as int) =~= public_commitments@);
        }
        match BiometricConstraints::add_biometric_similarity_constraint(
            verifier,
            current.as_slice(),
            reference.as_slice(),
            threshold,
            None,
        ) {
            Ok(_) => Ok(()),
            Err(error) => Err(error),
        }
    }
}

} // verus!
