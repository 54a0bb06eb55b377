//! What the constraints mean: when a witness satisfies a constraint system,
//! which witness the prover of the biometric statement holds, and what the
//! statement says of every witness that satisfies it.

use vstd::prelude::*;
use vstd::arithmetic::div_mod::lemma_add_mod_noop;
use vstd::arithmetic::div_mod::lemma_mod_breakdown;
use vstd::arithmetic::div_mod::lemma_mod_equivalence;
use vstd::arithmetic::div_mod::lemma_mod_twice;
use vstd::arithmetic::div_mod::lemma_mul_mod_noop_general;
use vstd::arithmetic::div_mod::lemma_small_mod;
use vstd::arithmetic::div_mod::lemma_sub_mod_noop;
use vstd::arithmetic::power2::lemma2_to64;
use vstd::arithmetic::power2::lemma_pow2_pos;
use vstd::arithmetic::power2::lemma_pow2_unfold;
use vstd::arithmetic::power2::pow2;
use crate::circuit::constraint_system::ConstraintSystemState;
use crate::circuit::constraint_system::Variable;
use crate::circuit::constraint_system::WitnessState;
use crate::circuit::constraint_system::empty_state;
use crate::circuit::constraint_system::empty_witness;
use crate::circuit::constraints::after_bits;
use crate::circuit::constraints::after_commitments;
use crate::circuit::constraints::after_distance;
use crate::circuit::constraints::after_squared_differences;
use crate::circuit::constraints::bit_terms;
use crate::circuit::constraints::committed_variables;
use crate::circuit::constraints::difference_constraint;
use crate::circuit::constraints::distance_variable;
use crate::circuit::constraints::gate_outputs;
use crate::circuit::constraints::lemma_bits_counts;
use crate::circuit::constraints::lemma_squared_differences_counts;
use crate::circuit::constraints::neg_value;
use crate::circuit::constraints::slack_combination;
use crate::circuit::constraints::statement_state;
use crate::circuit::constraints::sum_constraint;
use crate::config::MAX_EMBEDDING_SIZE;
use crate::config::RANGE_BITS;
use crate::crypto::field::field_image;
use crate::crypto::field::group_order;
use crate::types::embedding::coordinates_bounded;
use crate::types::embedding::lemma_squared_distance_bounded;
use crate::types::embedding::spec_squared_distance;

verus! {

/// The value that `witness` gives to `variable`.  The product of a gate is
/// that of its inputs.
pub open spec fn value_of(variable: Variable, witness: WitnessState) -> nat {
    match variable {
        Variable::Committed(i) => witness.values[i as int],
        Variable::MultiplierLeft(i) => witness.left[i as int],
        Variable::MultiplierRight(i) => witness.right[i as int],
        Variable::MultiplierOutput(i) => (witness.left[i as int] * witness.right[i as int])
            % group_order(),
        Variable::One => 1,
    }
}

/// The value of `combination` under `witness`, as an integer.
pub open spec fn evaluate(combination: Seq<(Variable, nat)>, witness: WitnessState) -> int
    decreases combination.len(),
{
    if combination.len() == 0 {
        0
    } else {
        evaluate(combination.drop_last(), witness) + combination.last().1 * value_of(
            combination.last().0,
            witness,
        )
    }
}

/// Whether the constraint `combination = 0` holds in the field under
/// `witness`.
pub open spec fn holds(combination: Seq<(Variable, nat)>, witness: WitnessState) -> bool {
    evaluate(combination, witness) % (group_order() as int) == 0
}

/// Whether all `constraints` hold under `witness`.
pub open spec fn all_hold(constraints: Seq<Seq<(Variable, nat)>>, witness: WitnessState) -> bool {
    forall|i: int| 0 <= i < constraints.len() ==> holds(#[trigger] constraints[i], witness)
}

/// Whether `witness` has a value for every committed variable of `state`
/// and inputs for every gate.
pub open spec fn fits(state: ConstraintSystemState, witness: WitnessState) -> bool {
    &&& witness.values.len() == state.committed
    &&& witness.left.len() == state.multipliers
    &&& witness.right.len() == state.multipliers
}

/// Whether `witness` satisfies the constraint system `state`: it fits, and
/// every constraint holds.
pub open spec fn satisfies(state: ConstraintSystemState, witness: WitnessState) -> bool {
    fits(state, witness) && all_hold(state.constraints, witness)
}

/// The field images of the coordinates of `embedding`.
pub open spec fn images(embedding: Seq<i64>) -> Seq<nat> {
    Seq::new(embedding.len(), |i: int| field_image(embedding[i] as int))
}

/// The field images of the differences of the coordinates.
pub open spec fn differences(current: Seq<i64>, reference: Seq<i64>) -> Seq<nat> {
    Seq::new(current.len(), |i: int| field_image(current[i] - reference[i]))
}

/// Bit `i` of `value`.
pub open spec fn bit_of(value: nat, i: nat) -> nat {
    (value / pow2(i)) % 2
}

/// The `count` low bits of `value`, the lowest first.
pub open spec fn bits_of(value: nat, count: nat) -> Seq<nat> {
    Seq::new(count, |i: int| bit_of(value, i as nat))
}

/// The complements of the `count` low bits of `value`.
pub open spec fn complements_of(value: nat, count: nat) -> Seq<nat> {
    Seq::new(count, |i: int| (1 - bit_of(value, i as nat)) as nat)
}

/// The witness after the distance gadget, for a prover that knows the two
/// embeddings: every squared-difference gate has the difference of the
/// coordinates on both inputs, and the last gate has the squared distance
/// on its left input and one on its right.
pub open spec fn distance_witness(
    witness: WitnessState,
    current: Seq<i64>,
    reference: Seq<i64>,
) -> WitnessState {
    witness.with_gates(differences(current, reference), differences(current, reference))
        .with_inputs(spec_squared_distance(current, reference) as nat, 1)
}

/// The witness after the range gadget, for a prover that knows the value:
/// gate `i` has bit `i` of the value on its right input and the complement
/// of the bit on its left.
pub open spec fn range_witness(witness: WitnessState, value: nat, bits: nat) -> WitnessState {
    witness.with_gates(complements_of(value, bits), bits_of(value, bits))
}

/// The witness of the honest prover of the biometric statement: the field
/// images of the coordinates of the current and then of the reference
/// embedding, the witness of the distance gadget, and the witness of the
/// range gadget on `threshold` minus the squared distance.
pub open spec fn statement_witness(current: Seq<i64>, reference: Seq<i64>, threshold: u64) -> WitnessState {
    range_witness(
        distance_witness(
            empty_witness().with_values(images(current)).with_values(images(reference)),
            current,
            reference,
        ),
        (threshold - spec_squared_distance(current, reference)) as nat,
        RANGE_BITS as nat,
    )
}

/// The sum of the values of `variables`.
pub open spec fn sum_of_values(variables: Seq<Variable>, witness: WitnessState) -> int
    decreases variables.len(),
{
    if variables.len() == 0 {
        0
    } else {
        sum_of_values(variables.drop_last(), witness) + value_of(variables.last(), witness)
    }
}

/// The squared distance, as an integer, of the values of the first `count`
/// of `current` from those of `reference`.
pub open spec fn variable_distance(
    current: Seq<Variable>,
    reference: Seq<Variable>,
    count: nat,
    witness: WitnessState,
) -> int
    decreases count,
{
    if count == 0 {
        0
    } else {
        variable_distance(current, reference, (count - 1) as nat, witness) + (value_of(
            current[count - 1],
            witness,
        ) - value_of(reference[count - 1], witness)) * (value_of(current[count - 1], witness)
            - value_of(reference[count - 1], witness))
    }
}

/// The squared distance, as an integer, of the first `count` committed
/// values of the current embedding from those of the reference embedding,
/// where the embeddings have `dimensions` coordinates each.
pub open spec fn committed_distance(values: Seq<nat>, dimensions: nat, count: nat) -> int
    decreases count,
{
    if count == 0 {
        0
    } else {
        committed_distance(values, dimensions, (count - 1) as nat) + (values[count - 1]
            - values[dimensions + count - 1]) * (values[count - 1] - values[dimensions + count
            - 1])
    }
}

/// The number that the right inputs of `count` consecutive gates, starting
/// with gate `first`, spell when they are read as bits, the lowest first.
pub open spec fn weighted_bits(witness: WitnessState, first: nat, count: nat) -> int
    decreases count,
{
    if count == 0 {
        0
    } else {
        weighted_bits(witness, first, (count - 1) as nat) + pow2((count - 1) as nat)
            * witness.right[first + count - 1]
    }
}

/// Whether both inputs of gate `first + i` are congruent to the difference
/// of the values of `current[i]` and `reference[i]`.
pub open spec fn follows_difference(
    witness: WitnessState,
    first: nat,
    current: Seq<Variable>,
    reference: Seq<Variable>,
    i: int,
) -> bool {
    &&& (value_of(current[i], witness) - value_of(reference[i], witness) - witness.left[first
        + i]) % (group_order() as int) == 0
    &&& (value_of(current[i], witness) - value_of(reference[i], witness) - witness.right[first
        + i]) % (group_order() as int) == 0
}

/// Whether gate `first + j` has a product of zero and inputs that add up
/// to one, in the field.
pub open spec fn is_bit_gate(witness: WitnessState, first: nat, j: int) -> bool {
    &&& ((witness.left[first + j] * witness.right[first + j]) as int) % (group_order() as int)
        == 0
    &&& (witness.left[first + j] + witness.right[first + j] - 1) % (group_order() as int) == 0
}

/// What the constraints of the biometric statement for `dimensions`
/// coordinates say of a witness, gadget by gadget: both inputs of every
/// squared-difference gate are the difference of the two committed values
/// it is about; the products of these gates add up to the left input of
/// the distance gate; every bit gate has a product of zero and inputs that
/// add up to one; and the threshold is the distance plus the number that
/// the bit gates spell.  All of it in the field.
pub open spec fn statement_meaning(dimensions: nat, threshold: u64, witness: WitnessState) -> bool {
    &&& forall|i: int|
        0 <= i < dimensions ==> #[trigger] follows_difference(
            witness,
            0,
            committed_variables(0, dimensions),
            committed_variables(dimensions, dimensions),
            i,
        )
    &&& (sum_of_values(gate_outputs(0, dimensions), witness) - witness.left[dimensions as int])
        % (group_order() as int) == 0
    &&& forall|j: int|
        0 <= j < RANGE_BITS ==> #[trigger] is_bit_gate(witness, dimensions + 1, j)
    &&& (threshold - witness.left[dimensions as int] - weighted_bits(
        witness,
        dimensions + 1,
        RANGE_BITS as nat,
    )) % (group_order() as int) == 0
}

/// The value of a combination grows term by term.
pub proof fn lemma_evaluate_push(
    combination: Seq<(Variable, nat)>,
    variable: Variable,
    coefficient: nat,
    witness: WitnessState,
)
    ensures
        evaluate(combination.push((variable, coefficient)), witness) == evaluate(
            combination,
            witness,
        ) + coefficient * value_of(variable, witness),
        coefficient == 1 ==> evaluate(combination.push((variable, coefficient)), witness)
            == evaluate(combination, witness) + value_of(variable, witness),
{
    let longer = combination.push((variable, coefficient));
    assert(longer.drop_last() =~= combination);
    assert(longer.last() == (variable, coefficient));
    let v = value_of(variable, witness);
    if coefficient == 1 {
        assert(coefficient * v == v) by (nonlinear_arith)
            requires
                coefficient == 1,
        ;
    }
}

/// The value of two combinations, one after the other, is the sum of their
/// values.
pub proof fn lemma_evaluate_concat(
    first: Seq<(Variable, nat)>,
    second: Seq<(Variable, nat)>,
    witness: WitnessState,
)
    ensures
        evaluate(first + second, witness) == evaluate(first, witness) + evaluate(second, witness),
    decreases second.len(),
{
    if second.len() == 0 {
        assert(first + second =~= first);
    } else {
        lemma_evaluate_concat(first, second.drop_last(), witness);
        assert((first + second).drop_last() =~= first + second.drop_last());
        assert((first + second).last() == second.last());
    }
}

/// A term with the coefficient `-k` is congruent to minus `k` times the
/// value.
pub proof fn lemma_negated_term(k: nat, x: int)
    ensures
        (neg_value(k) * x) % (group_order() as int) == (-(k * x)) % (group_order() as int),
{
    let m = group_order() as int;
    let minus_k: int = -(k as int);
    lemma_mul_mod_noop_general(minus_k, x, m);
    assert(neg_value(k) as int == minus_k % m);
    assert(minus_k * x == -(k * x)) by (nonlinear_arith)
        requires
            minus_k == -(k as int),
    ;
}

/// A combination of variables with the coefficient one has the sum of
/// their values.
pub proof fn lemma_evaluate_unit_terms(variables: Seq<Variable>, witness: WitnessState)
    ensures
        evaluate(variables.map_values(|v: Variable| (v, 1nat)), witness) == sum_of_values(
            variables,
            witness,
        ),
    decreases variables.len(),
{
    let terms = variables.map_values(|v: Variable| (v, 1nat));
    if variables.len() > 0 {
        lemma_evaluate_unit_terms(variables.drop_last(), witness);
        let front = variables.drop_last().map_values(|v: Variable| (v, 1nat));
        assert(terms =~= front.push((variables.last(), 1nat)));
        lemma_evaluate_push(front, variables.last(), 1nat, witness);
    } else {
        assert(terms =~= Seq::<(Variable, nat)>::empty());
    }
}

/// All constraints hold exactly where all but the last hold, and the last.
pub proof fn lemma_all_hold_push(
    constraints: Seq<Seq<(Variable, nat)>>,
    combination: Seq<(Variable, nat)>,
    witness: WitnessState,
)
    ensures
        all_hold(constraints.push(combination), witness) <==> all_hold(constraints, witness)
            && holds(combination, witness),
{
    let longer = constraints.push(combination);
    assert(longer[constraints.len() as int] == combination);
    if all_hold(longer, witness) {
        assert forall|i: int| 0 <= i < constraints.len() implies holds(
            #[trigger] constraints[i],
            witness,
        ) by {
            assert(longer[i] == constraints[i]);
        }
    }
    if all_hold(constraints, witness) && holds(combination, witness) {
        assert forall|i: int| 0 <= i < longer.len() implies holds(#[trigger] longer[i], witness) by {
            if i < constraints.len() {
                assert(longer[i] == constraints[i]);
            }
        }
    }
}

/// The constraint `a - b - wire = 0` has, in the field, the value of `a`
/// minus that of `b` minus that of the wire.
pub proof fn lemma_difference_value(a: Variable, b: Variable, wire: Variable, witness: WitnessState)
    ensures
        evaluate(difference_constraint(a, b, wire), witness) % (group_order() as int) == (
        value_of(a, witness) - value_of(b, witness) - value_of(wire, witness)) % (
        group_order() as int),
{
    let m = group_order() as int;
    let va = value_of(a, witness) as int;
    let vb = value_of(b, witness) as int;
    let vw = value_of(wire, witness) as int;
    let c = difference_constraint(a, b, wire);
    let c2 = seq![(a, 1nat), (b, neg_value(1))];
    let c1 = seq![(a, 1nat)];
    let c0 = Seq::<(Variable, nat)>::empty();
    assert(c =~= c2.push((wire, neg_value(1))));
    assert(c2 =~= c1.push((b, neg_value(1))));
    assert(c1 =~= c0.push((a, 1nat)));
    lemma_evaluate_push(c2, wire, neg_value(1), witness);
    lemma_evaluate_push(c1, b, neg_value(1), witness);
    lemma_evaluate_push(c0, a, 1nat, witness);
    assert(evaluate(c, witness) == va + neg_value(1) * vb + neg_value(1) * vw);
    lemma_negated_term(1, vb);
    lemma_negated_term(1, vw);
    lemma_add_mod_noop(va + neg_value(1) * vb, neg_value(1) * vw, m);
    lemma_add_mod_noop(va + neg_value(1) * vb, -vw, m);
    lemma_add_mod_noop(va, neg_value(1) * vb, m);
    lemma_add_mod_noop(va, -vb, m);
    lemma_add_mod_noop(va - vb, -vw, m);
}

/// The sum constraint has, in the field, the sum of the values minus the
/// value of the total.
pub proof fn lemma_sum_value(variables: Seq<Variable>, total: Variable, witness: WitnessState)
    ensures
        evaluate(sum_constraint(variables, total), witness) % (group_order() as int) == (
        sum_of_values(variables, witness) - value_of(total, witness)) % (group_order() as int),
{
    let m = group_order() as int;
    let terms = variables.map_values(|v: Variable| (v, 1nat));
    lemma_evaluate_unit_terms(variables, witness);
    lemma_evaluate_push(terms, total, neg_value(1), witness);
    let s = sum_of_values(variables, witness);
    let t = value_of(total, witness) as int;
    lemma_negated_term(1, t);
    lemma_add_mod_noop(s, neg_value(1) * t, m);
    lemma_add_mod_noop(s, -t, m);
}

/// The terms `-2^i * bit_i` of a bit decomposition are congruent to minus
/// the number that the right inputs of the gates spell.
pub proof fn lemma_bit_terms_value(first: nat, count: nat, witness: WitnessState)
    requires
        first + count <= usize::MAX,
    ensures
        evaluate(bit_terms(first, count), witness) % (group_order() as int) == (-weighted_bits(
            witness,
            first,
            count,
        )) % (group_order() as int),
    decreases count,
{
    let m = group_order() as int;
    if count == 0 {
        assert(bit_terms(first, count) =~= Seq::<(Variable, nat)>::empty());
    } else {
        let k = (count - 1) as nat;
        lemma_bit_terms_value(first, k, witness);
        let terms = bit_terms(first, count);
        assert(terms.drop_last() =~= bit_terms(first, k));
        assert(terms.last() == (
            Variable::MultiplierRight((first + k) as usize),
            neg_value(pow2(k)),
        ));
        let bit = witness.right[first + k as int] as int;
        assert(value_of(terms.last().0, witness) == bit);
        lemma_negated_term(pow2(k), bit);
        let before = evaluate(bit_terms(first, k), witness);
        let weight = pow2(k) * bit;
        lemma_add_mod_noop(before, neg_value(pow2(k)) * bit, m);
        lemma_add_mod_noop(before, -weight, m);
        lemma_add_mod_noop(-weighted_bits(witness, first, k), -weight, m);
    }
}

/// The constraint of the range gadget on `threshold - distance` has, in
/// the field, the value of the threshold minus that of the distance minus
/// the number that the bits spell.
pub proof fn lemma_slack_value(
    first: nat,
    distance: Variable,
    threshold: u64,
    bits: nat,
    witness: WitnessState,
)
    requires
        first + bits <= usize::MAX,
    ensures
        evaluate(slack_combination(distance, threshold) + bit_terms(first, bits), witness) % (
        group_order() as int) == (threshold - value_of(distance, witness) - weighted_bits(
            witness,
            first,
            bits,
        )) % (group_order() as int),
{
    let m = group_order() as int;
    let d = value_of(distance, witness) as int;
    let head = slack_combination(distance, threshold);
    let e = Seq::<(Variable, nat)>::empty();
    let h1 = e.push((Variable::One, threshold as nat));
    assert(head =~= h1.push((distance, neg_value(1))));
    lemma_evaluate_push(e, Variable::One, threshold as nat, witness);
    lemma_evaluate_push(h1, distance, neg_value(1), witness);
    assert(evaluate(head, witness) == threshold * 1 + neg_value(1) * d);
    lemma_evaluate_concat(head, bit_terms(first, bits), witness);
    lemma_bit_terms_value(first, bits, witness);
    let tail = evaluate(bit_terms(first, bits), witness);
    lemma_negated_term(1, d);
    lemma_add_mod_noop(threshold as int, neg_value(1) * d, m);
    lemma_add_mod_noop(threshold as int, -d, m);
    lemma_add_mod_noop(threshold * 1 + neg_value(1) * d, tail, m);
    lemma_add_mod_noop(threshold - d, tail, m);
    lemma_add_mod_noop(threshold - d, -weighted_bits(witness, first, bits), m);
}

/// The squared-difference gadgets hold exactly where what was there before
/// holds and both inputs of every gate are the difference of the two
/// variables it is about.
pub proof fn lemma_squared_differences_meaning(
    state: ConstraintSystemState,
    current: Seq<Variable>,
    reference: Seq<Variable>,
    witness: WitnessState,
)
    requires
        current.len() == reference.len(),
        state.multipliers + current.len() <= usize::MAX,
    ensures
        all_hold(after_squared_differences(state, current, reference).constraints, witness) <==> (
        all_hold(state.constraints, witness) && forall|i: int|
            0 <= i < current.len() ==> #[trigger] follows_difference(
                witness,
                state.multipliers,
                current,
                reference,
                i,
            )),
    decreases current.len(),
{
    if current.len() > 0 {
        let front_current = current.drop_last();
        let front_reference = reference.drop_last();
        lemma_squared_differences_meaning(state, front_current, front_reference, witness);
        lemma_squared_differences_counts(state, front_current, front_reference);
        let before = after_squared_differences(state, front_current, front_reference);
        let after = after_squared_differences(state, current, reference);
        let last = current.len() - 1;
        let gate = before.multipliers as usize;
        let a = current.last();
        let b = reference.last();
        assert(a == current[last]);
        assert(b == reference[last]);
        let left = difference_constraint(a, b, Variable::MultiplierLeft(gate));
        let right = difference_constraint(a, b, Variable::MultiplierRight(gate));
        lemma_all_hold_push(before.constraints.push(left), right, witness);
        lemma_all_hold_push(before.constraints, left, witness);
        lemma_difference_value(a, b, Variable::MultiplierLeft(gate), witness);
        lemma_difference_value(a, b, Variable::MultiplierRight(gate), witness);
        assert(follows_difference(witness, state.multipliers, current, reference, last) <==> holds(
            left,
            witness,
        ) && holds(right, witness));
        if all_hold(after.constraints, witness) {
            assert forall|i: int| 0 <= i < current.len() implies #[trigger] follows_difference(
                witness,
                state.multipliers,
                current,
                reference,
                i,
            ) by {
                if i < last {
                    assert(follows_difference(
                        witness,
                        state.multipliers,
                        front_current,
                        front_reference,
                        i,
                    ));
                    assert(front_current[i] == current[i]);
                    assert(front_reference[i] == reference[i]);
                }
            }
        }
        if all_hold(state.constraints, witness) && forall|i: int|
            0 <= i < current.len() ==> #[trigger] follows_difference(
                witness,
                state.multipliers,
                current,
                reference,
                i,
            ) {
            assert forall|i: int| 0 <= i < front_current.len() implies #[trigger] follows_difference(
                witness,
                state.multipliers,
                front_current,
                front_reference,
                i,
            ) by {
                assert(follows_difference(witness, state.multipliers, current, reference, i));
                assert(front_current[i] == current[i]);
                assert(front_reference[i] == reference[i]);
            }
            assert(follows_difference(witness, state.multipliers, current, reference, last));
        }
    }
}

/// The constraints of `bits` bit gates hold exactly where what was there
/// before holds and every one of the gates has a product of zero and
/// inputs that add up to one.
pub proof fn lemma_bits_meaning(state: ConstraintSystemState, bits: nat, witness: WitnessState)
    requires
        state.multipliers + bits <= usize::MAX,
    ensures
        all_hold(after_bits(state, bits).constraints, witness) <==> (all_hold(
            state.constraints,
            witness,
        ) && forall|j: int| 0 <= j < bits ==> #[trigger] is_bit_gate(witness, state.multipliers, j)),
    decreases bits,
{
    let m = group_order() as int;
    if bits > 0 {
        let k = (bits - 1) as nat;
        lemma_bits_meaning(state, k, witness);
        lemma_bits_counts(state, k);
        let before = after_bits(state, k);
        let after = after_bits(state, bits);
        let gate = before.multipliers as usize;
        let product = seq![(Variable::MultiplierOutput(gate), 1nat)];
        let complement = seq![
            (Variable::MultiplierLeft(gate), 1nat),
            (Variable::MultiplierRight(gate), 1nat),
            (Variable::One, neg_value(1)),
        ];
        lemma_all_hold_push(before.constraints.push(product), complement, witness);
        lemma_all_hold_push(before.constraints, product, witness);
        let left = witness.left[gate as int] as int;
        let right = witness.right[gate as int] as int;
        let e = Seq::<(Variable, nat)>::empty();
        assert(product =~= e.push((Variable::MultiplierOutput(gate), 1nat)));
        lemma_evaluate_push(e, Variable::MultiplierOutput(gate), 1nat, witness);
        assert(evaluate(product, witness) == (left * right) % m);
        lemma_mod_twice(left * right, m);
        let c1 = e.push((Variable::MultiplierLeft(gate), 1nat));
        let c2 = c1.push((Variable::MultiplierRight(gate), 1nat));
        assert(complement =~= c2.push((Variable::One, neg_value(1))));
        lemma_evaluate_push(e, Variable::MultiplierLeft(gate), 1nat, witness);
        lemma_evaluate_push(c1, Variable::MultiplierRight(gate), 1nat, witness);
        lemma_evaluate_push(c2, Variable::One, neg_value(1), witness);
        assert(evaluate(e, witness) == 0);
        assert(evaluate(c1, witness) == left);
        assert(evaluate(c2, witness) == left + right);
        assert(value_of(Variable::One, witness) == 1);
        assert(evaluate(complement, witness) == left + right + neg_value(1) * 1int);
        lemma_negated_term(1, 1);
        lemma_add_mod_noop(left + right, neg_value(1) * 1int, m);
        lemma_add_mod_noop(left + right, -1, m);
        assert(is_bit_gate(witness, state.multipliers, k as int) <==> holds(product, witness)
            && holds(complement, witness));
        if all_hold(state.constraints, witness) && forall|j: int|
            0 <= j < bits ==> #[trigger] is_bit_gate(witness, state.multipliers, j) {
            assert(is_bit_gate(witness, state.multipliers, k as int));
        }
    }
}

/// The products of gates whose inputs are the differences of two lists of
/// variables add up, in the field, to the squared distance of the values.
pub proof fn lemma_products_sum(
    first: nat,
    current: Seq<Variable>,
    reference: Seq<Variable>,
    count: nat,
    witness: WitnessState,
)
    requires
        current.len() == reference.len(),
        count <= current.len(),
        first + count <= usize::MAX,
        forall|i: int|
            0 <= i < count ==> #[trigger] follows_difference(witness, first, current, reference, i),
    ensures
        sum_of_values(gate_outputs(first, count), witness) % (group_order() as int)
            == variable_distance(current, reference, count, witness) % (group_order() as int),
    decreases count,
{
    let m = group_order() as int;
    if count > 0 {
        let k = (count - 1) as nat;
        lemma_products_sum(first, current, reference, k, witness);
        let products = gate_outputs(first, count);
        assert(products.drop_last() =~= gate_outputs(first, k));
        assert(products.last() == Variable::MultiplierOutput((first + k) as usize));
        assert(follows_difference(witness, first, current, reference, k as int));
        let x: int = value_of(current[k as int], witness) - value_of(reference[k as int], witness);
        let l = witness.left[first + k as int] as int;
        let r = witness.right[first + k as int] as int;
        lemma_mod_equivalence(x, l, m);
        lemma_mod_equivalence(x, r, m);
        let product = value_of(products.last(), witness) as int;
        assert(product == (l * r) % m);
        lemma_mul_mod_noop_general(l, r, m);
        lemma_mul_mod_noop_general(x, x, m);
        assert(product == (x * x) % m);
        let before = sum_of_values(gate_outputs(first, k), witness);
        let distance = variable_distance(current, reference, k, witness);
        lemma_add_mod_noop(before, product, m);
        lemma_add_mod_noop(distance, x * x, m);
        lemma_add_mod_noop(before, x * x, m);
    }
}

/// The squared distance of the values of the committed variables of the
/// statement is the squared distance of the committed values.
pub proof fn lemma_committed_distance(dimensions: nat, count: nat, witness: WitnessState)
    requires
        count <= dimensions,
        2 * dimensions <= usize::MAX,
    ensures
        variable_distance(
            committed_variables(0, dimensions),
            committed_variables(dimensions, dimensions),
            count,
            witness,
        ) == committed_distance(witness.values, dimensions, count),
    decreases count,
{
    if count > 0 {
        lemma_committed_distance(dimensions, (count - 1) as nat, witness);
        let k = count - 1;
        assert(committed_variables(0, dimensions)[k] == Variable::Committed((0 + k) as usize));
        assert(committed_variables(dimensions, dimensions)[k] == Variable::Committed(
            (dimensions + k) as usize,
        ));
    }
}

/// The squared distance of the field images of two embeddings is congruent
/// to their squared distance.
pub proof fn lemma_committed_distance_of_images(
    current: Seq<i64>,
    reference: Seq<i64>,
    count: nat,
)
    requires
        current.len() == reference.len(),
        count <= current.len(),
    ensures
        committed_distance(images(current) + images(reference), current.len(), count) % (
        group_order() as int) == spec_squared_distance(
            current.take(count as int),
            reference.take(count as int),
        ) % (group_order() as int),
    decreases count,
{
    let m = group_order() as int;
    let values = images(current) + images(reference);
    if count > 0 {
        let k = (count - 1) as nat;
        lemma_committed_distance_of_images(current, reference, k);
        assert(current.take(count as int).drop_last() =~= current.take(k as int));
        assert(reference.take(count as int).drop_last() =~= reference.take(k as int));
        assert(current.take(count as int).last() == current[k as int]);
        assert(reference.take(count as int).last() == reference[k as int]);
        let x: int = current[k as int] as int;
        let y: int = reference[k as int] as int;
        assert(values[k as int] == field_image(x));
        assert(values[current.len() + k as int] == field_image(y));
        let u = values[k as int] as int;
        let v = values[current.len() + k as int] as int;
        lemma_sub_mod_noop(x, y, m);
        lemma_mul_mod_noop_general(u - v, u - v, m);
        lemma_mul_mod_noop_general(x - y, x - y, m);
        lemma_add_mod_noop(
            committed_distance(values, current.len(), k),
            (u - v) * (u - v),
            m,
        );
        lemma_add_mod_noop(
            spec_squared_distance(current.take(k as int), reference.take(k as int)),
            (x - y) * (x - y),
            m,
        );
    }
}

/// Zeros and ones spell a number below two to the power of their count.
pub proof fn lemma_weighted_bits_bounded(witness: WitnessState, first: nat, count: nat)
    requires
        forall|j: int| 0 <= j < count ==> #[trigger] witness.right[first + j] <= 1,
    ensures
        0 <= weighted_bits(witness, first, count) < pow2(count),
    decreases count,
{
    lemma2_to64();
    if count > 0 {
        let k = (count - 1) as nat;
        lemma_weighted_bits_bounded(witness, first, k);
        lemma_pow2_unfold(count);
        let bit = witness.right[first + k as int] as int;
        assert(witness.right[first + k as int] <= 1);
        let weight = pow2(k) as int;
        assert(0 <= weight * bit <= weight) by (nonlinear_arith)
            requires
                0 <= bit <= 1,
                0 <= weight,
        ;
    }
}

/// The `count` low bits of `value` spell `value` modulo two to the power
/// `count`.
pub proof fn lemma_weighted_bits_of_value(
    witness: WitnessState,
    first: nat,
    value: nat,
    count: nat,
)
    requires
        forall|j: int|
            0 <= j < count ==> #[trigger] witness.right[first + j] == bit_of(value, j as nat),
    ensures
        weighted_bits(witness, first, count) == value % pow2(count),
    decreases count,
{
    lemma2_to64();
    if count > 0 {
        let k = (count - 1) as nat;
        lemma_weighted_bits_of_value(witness, first, value, k);
        assert(witness.right[first + k as int] == bit_of(value, k));
        lemma_pow2_pos(k);
        lemma_pow2_unfold(count);
        lemma_mod_breakdown(value as int, pow2(k) as int, 2);
        assert(pow2(count) == pow2(k) * 2) by (nonlinear_arith)
            requires
                pow2(count) == 2 * pow2(k),
        ;
    }
}

/// A witness satisfies the constraint system of the biometric statement
/// exactly where it fits and the statement means what it says of it.
pub proof fn lemma_statement_meaning(dimensions: nat, threshold: u64, witness: WitnessState)
    requires
        dimensions <= MAX_EMBEDDING_SIZE,
    ensures
        statement_state(dimensions, threshold).committed == 2 * dimensions,
        statement_state(dimensions, threshold).multipliers == dimensions + 1 + RANGE_BITS,
        all_hold(statement_state(dimensions, threshold).constraints, witness) <==> statement_meaning(
            dimensions,
            threshold,
            witness,
        ),
{
    let m = group_order() as int;
    let n = dimensions;
    let bits = RANGE_BITS as nat;
    let start = after_commitments(empty_state(), 2 * n);
    let current = committed_variables(0, n);
    let reference = committed_variables(n, n);
    lemma_squared_differences_counts(start, current, reference);
    let squared = after_squared_differences(start, current, reference);
    let total = Variable::MultiplierLeft(squared.multipliers as usize);
    let summed = after_distance(start, current, reference);
    let variable = distance_variable(start, n);
    assert(variable == total);
    assert(summed.multipliers == n + 1);
    lemma_bits_counts(summed, bits);
    let ranged = after_bits(summed, bits);
    let recomposition = slack_combination(variable, threshold) + bit_terms(
        summed.multipliers,
        bits,
    );
    let sum = sum_constraint(gate_outputs(0, n), total);
    assert(statement_state(n, threshold) == ranged.with_constraint(recomposition));
    assert(summed == squared.with_multiplier().with_constraint(sum));
    assert(all_hold(start.constraints, witness));
    lemma_all_hold_push(ranged.constraints, recomposition, witness);
    lemma_bits_meaning(summed, bits, witness);
    lemma_all_hold_push(squared.with_multiplier().constraints, sum, witness);
    lemma_squared_differences_meaning(start, current, reference, witness);
    lemma_sum_value(gate_outputs(0, n), total, witness);
    lemma_slack_value(summed.multipliers, variable, threshold, bits, witness);
    assert(value_of(total, witness) == witness.left[n as int]);
}

/// Completeness of the biometric statement: where the squared distance of
/// two embeddings that the circuit takes is at most the threshold, and the
/// threshold minus the distance fits the range, the witness of the honest
/// prover satisfies the constraint system of the statement.
#[verifier::rlimit(40)]
pub proof fn lemma_honest_witness_satisfies(current: Seq<i64>, reference: Seq<i64>, threshold: u64)
    requires
        current.len() == reference.len(),
        current.len() <= MAX_EMBEDDING_SIZE,
        coordinates_bounded(current),
        coordinates_bounded(reference),
        spec_squared_distance(current, reference) <= threshold,
        threshold - spec_squared_distance(current, reference) < pow2(RANGE_BITS as nat),
    ensures
        satisfies(
            statement_state(current.len(), threshold),
            statement_witness(current, reference, threshold),
        ),
{
    let m = group_order() as int;
    let n = current.len();
    let witness = statement_witness(current, reference, threshold);
    let distance = spec_squared_distance(current, reference);
    let slack = (threshold - distance) as nat;
    let bits = RANGE_BITS as nat;
    lemma_squared_distance_bounded(current, reference);
    assert(distance <= 512 * 4_000_000_000_000) by (nonlinear_arith)
        requires
            distance <= n * 4_000_000_000_000,
            n <= 512,
    ;
    let current_variables = committed_variables(0, n);
    let reference_variables = committed_variables(n, n);
    let gate_inputs = differences(current, reference);
    assert(witness.values =~= images(current) + images(reference));
    assert(witness.left =~= gate_inputs + seq![distance as nat] + complements_of(slack, bits));
    assert(witness.right =~= gate_inputs + seq![1nat] + bits_of(slack, bits));
    lemma_statement_meaning(n, threshold, witness);
    // the squared differences
    assert forall|i: int| 0 <= i < n implies #[trigger] follows_difference(
        witness,
        0,
        current_variables,
        reference_variables,
        i,
    ) by {
        let x: int = current[i] as int;
        let y: int = reference[i] as int;
        assert(witness.left[i] == field_image(x - y));
        assert(witness.right[i] == field_image(x - y));
        assert(current_variables[i] == Variable::Committed((0 + i) as usize));
        assert(reference_variables[i] == Variable::Committed((n + i) as usize));
        assert(witness.values[i] == field_image(x));
        assert(witness.values[n + i] == field_image(y));
        lemma_sub_mod_noop(x, y, m);
        lemma_sub_mod_noop(x % m - y % m, (x - y) % m, m);
        lemma_sub_mod_noop(x - y, x - y, m);
        lemma_small_mod(0, group_order());
    }
    // the sum
    assert(witness.left[n as int] == distance);
    lemma_products_sum(0, current_variables, reference_variables, n, witness);
    lemma_committed_distance(n, n, witness);
    lemma_committed_distance_of_images(current, reference, n);
    assert(current.take(n as int) =~= current);
    assert(reference.take(n as int) =~= reference);
    lemma_mod_equivalence(sum_of_values(gate_outputs(0, n), witness), distance, m);
    // the bits
    assert forall|j: int| 0 <= j < bits implies #[trigger] is_bit_gate(witness, n + 1, j) by {
        let b = bit_of(slack, j as nat) as int;
        assert(witness.right[n + 1 + j] == b);
        assert(witness.left[n + 1 + j] == 1 - b);
        assert((1 - b) * b == 0) by (nonlinear_arith)
            requires
                0 <= b <= 1,
        ;
        lemma_small_mod(0, group_order());
    }
    // the recomposition
    assert forall|j: int| 0 <= j < bits implies #[trigger] witness.right[n + 1 + j] == bit_of(
        slack,
        j as nat,
    ) by {
        assert(witness.right[n + 1 + j] == bits_of(slack, bits)[j]);
    }
    lemma_weighted_bits_of_value(witness, n + 1, slack, bits);
    lemma_small_mod(slack, pow2(bits));
    lemma_small_mod(0, group_order());
    assert(statement_meaning(n, threshold, witness));
}

/// Soundness of the biometric statement, in the field: under every witness
/// that satisfies the constraint system of the statement, the squared
/// distance of the committed values plus the number that the bit gates
/// spell is congruent to the threshold, and every bit gate has a product of
/// zero and inputs that add up to one.  The order of the field is prime, so
/// the inputs of such a gate are zero and one.
pub proof fn lemma_statement_sound(dimensions: nat, threshold: u64, witness: WitnessState)
    requires
        dimensions <= MAX_EMBEDDING_SIZE,
        satisfies(statement_state(dimensions, threshold), witness),
    ensures
        (committed_distance(witness.values, dimensions, dimensions) + weighted_bits(
            witness,
            dimensions + 1,
            RANGE_BITS as nat,
        )) % (group_order() as int) == (threshold as int) % (group_order() as int),
        forall|j: int|
            0 <= j < RANGE_BITS ==> #[trigger] is_bit_gate(witness, dimensions + 1, j),
{
    let m = group_order() as int;
    let n = dimensions;
    let bits = RANGE_BITS as nat;
    lemma_statement_meaning(n, threshold, witness);
    lemma_products_sum(0, committed_variables(0, n), committed_variables(n, n), n, witness);
    lemma_committed_distance(n, n, witness);
    let products = sum_of_values(gate_outputs(0, n), witness);
    let d = witness.left[n as int] as int;
    let distance = committed_distance(witness.values, n, n);
    let spelled = weighted_bits(witness, n + 1, bits);
    lemma_mod_equivalence(products, d, m);
    lemma_mod_equivalence(threshold as int, d + spelled, m);
    lemma_add_mod_noop(d, spelled, m);
    lemma_add_mod_noop(products, spelled, m);
    lemma_add_mod_noop(distance, spelled, m);
}

/// Soundness of the biometric statement, in the integers: where a witness
/// satisfies the constraint system of the statement, commits to the field
/// images of two embeddings that the circuit takes, and has zero or one on
/// the right input of every bit gate, the squared distance of the
/// embeddings is at most the threshold.
pub proof fn lemma_statement_bounds_distance(
    current: Seq<i64>,
    reference: Seq<i64>,
    threshold: u64,
    witness: WitnessState,
)
    requires
        current.len() == reference.len(),
        current.len() <= MAX_EMBEDDING_SIZE,
        coordinates_bounded(current),
        coordinates_bounded(reference),
        satisfies(statement_state(current.len(), threshold), witness),
        witness.values == images(current) + images(reference),
        forall|j: int|
            0 <= j < RANGE_BITS ==> #[trigger] witness.right[current.len() + 1 + j] <= 1,
    ensures
        spec_squared_distance(current, reference) <= threshold,
{
    let m = group_order() as int;
    let n = current.len();
    let bits = RANGE_BITS as nat;
    lemma_statement_sound(n, threshold, witness);
    lemma_weighted_bits_bounded(witness, n + 1, bits);
    lemma_committed_distance_of_images(current, reference, n);
    assert(current.take(n as int) =~= current);
    assert(reference.take(n as int) =~= reference);
    lemma_squared_distance_bounded(current, reference);
    let distance = spec_squared_distance(current, reference);
    assert(distance <= 512 * 4_000_000_000_000) by (nonlinear_arith)
        requires
            distance <= n * 4_000_000_000_000,
            n <= 512,
    ;
    let spelled = weighted_bits(witness, n + 1, bits);
    lemma2_to64();
    let committed = committed_distance(witness.values, n, n);
    lemma_add_mod_noop(committed, spelled, m);
    lemma_add_mod_noop(distance, spelled, m);
    lemma_small_mod((distance + spelled) as nat, group_order());
    lemma_small_mod(threshold as nat, group_order());
}

} // verus!
