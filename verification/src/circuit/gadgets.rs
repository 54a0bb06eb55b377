//! Gadgets composed of the basic constraints: the distance of two committed
//! embeddings, and the confinement of a variable between two bounds.

use vstd::prelude::*;
use crate::circuit::constraint_system::ConstraintSystem;
use crate::circuit::constraint_system::LinearCombination;
use crate::circuit::constraint_system::Variable;
use crate::circuit::constraint_system::lemma_in_range_grows;
use crate::circuit::constraint_system::variable_in_range;
use crate::circuit::constraints::BiometricConstraints;
use crate::circuit::constraints::after_distance;
use crate::circuit::constraints::after_range;
use crate::circuit::constraints::after_squared_differences;
use crate::circuit::constraints::distance_variable;
use crate::circuit::constraints::gate_outputs;
use crate::circuit::constraints::neg_value;
use crate::circuit::constraints::negative_coefficient;
use crate::circuit::constraints::power_of_two;
use vstd::arithmetic::power2::pow2;
use crate::circuit::constraints::variables_in_range;
use crate::circuit::semantics::differences;
use crate::circuit::semantics::distance_witness;
use crate::crypto::field::field_image;
use crate::circuit::semantics::range_witness;
use crate::config::RANGE_BITS;
use crate::crypto::field::FieldElement;
use crate::crypto::field_utils::FieldUtils;
use crate::crypto::field_utils::lemma_canonical_view;
use crate::types::embedding::CircuitError;
use crate::types::embedding::CircuitResult;
use crate::types::embedding::reason;
use crate::types::proof_data::ProofWitness;

verus! {

/// The combination `value - bound`.
pub open spec fn above_combination(value: Variable, bound: u64) -> Seq<(Variable, nat)> {
    seq![(value, 1nat), (Variable::One, neg_value(bound as nat))]
}

/// The combination `bound - value`.
pub open spec fn below_combination(value: Variable, bound: u64) -> Seq<(Variable, nat)> {
    seq![(Variable::One, bound as nat), (value, neg_value(1))]
}

/// The value of `current[i] - reference[i]` in the field, where the prover
/// knows the witness.
pub fn witness_difference(witness: Option<&ProofWitness>, i: usize) -> (difference: Option<
    FieldElement,
>)
    requires
        witness matches Some(w) ==> w.well_formed() && i < w.current_embedding@.len(),
    ensures
        difference is Some <==> witness is Some,
        difference matches Some(d) ==> (witness matches Some(w) && d@ == field_image(
            w.current_embedding@[i as int] - w.reference_embedding@[i as int],
        )),
{
    match witness {
        Some(w) => {
            let x: i64 = w.current_embedding[i];
            let y: i64 = w.reference_embedding[i];
            match FieldUtils::i64_to_scalar(x - y) {
                Ok(d) => {
                    proof {
                        lemma_canonical_view(d);
                    }
                    Some(d)
                },
                Err(_) => None,
            }
        },
        None => None,
    }
}

/// Gadgets on embeddings.
pub struct BiometricGadgets;

impl BiometricGadgets {
    /// The distance gadget: a squared-difference gate for each pair of
    /// `current_vars` and `reference_vars`, one more gate whose left input
    /// stands for the distance, and the constraint that the squared
    /// differences add up to it.  Returns the variable of the distance.
    /// The prover passes the witness, and cannot go on without.  Lists of
    /// different lengths are an invalid parameter.  The call succeeds on
    /// all other inputs, and where it fails nothing is added.
    pub fn distance_gadget(
        cs: &mut ConstraintSystem<'_>,
        current_vars: &[Variable],
        reference_vars: &[Variable],
        witness: Option<&ProofWitness>,
    ) -> (res: CircuitResult<Variable>)
        requires
            old(cs).state().in_range(),
            variables_in_range(current_vars@, old(cs).state()),
            variables_in_range(reference_vars@, old(cs).state()),
            witness matches Some(w) ==> w.well_formed() && w.current_embedding@.len()
                == current_vars@.len(),
        ensures
            final(cs).is_proving() == old(cs).is_proving(),
            final(cs).record() == old(cs).record(),
            res is Ok <==> current_vars@.len() == reference_vars@.len() && (old(cs).is_proving()
                ==> witness is Some),
            res matches Ok(total) ==> {
                &&& final(cs).state() == after_distance(
                    old(cs).state(),
                    current_vars@,
                    reference_vars@,
                )
                &&& total == distance_variable(old(cs).state(), current_vars@.len())
                &&& final(cs).state().in_range()
                &&& final(cs).state().multipliers == old(cs).state().multipliers
                    + current_vars@.len() + 1
                &&& final(cs).state().committed == old(cs).state().committed
                &&& variable_in_range(
                    total,
                    final(cs).state().committed,
                    final(cs).state().multipliers,
                )
            },
            res is Ok && old(cs).is_proving() ==> (witness matches Some(w) && final(cs).witness()
                == distance_witness(
                old(cs).witness(),
                w.current_embedding@,
                w.reference_embedding@,
            )),
            current_vars@.len() != reference_vars@.len() <==> (res matches Err(e) && e
                is InvalidParameter),
            res matches Err(e) ==> {
                &&& e is InvalidParameter || e is ProofGenerationFailed
                &&& final(cs).state() == old(cs).state()
                &&& final(cs).witness() == old(cs).witness()
            },
    {
        if current_vars.len() != reference_vars.len() {
            return Err(CircuitError::InvalidParameter(reason("Mismatched variable lengths")));
        }
        if cs.proving() && witness.is_none() {
            return Err(CircuitError::ProofGenerationFailed(reason("Missing witness")));
        }
        let n: usize = current_vars.len();
        let ghost start = old(cs).state();
        let ghost first = start.multipliers;
        let mut squares: Vec<Variable> = Vec::new();
        let mut i: usize = 0;
        let ghost known = old(cs).witness();
        let ghost inputs_of = match witness {
            Some(w) => differences(w.current_embedding@, w.reference_embedding@),
            None => Seq::<nat>::empty(),
        };
        while i < n
            invariant
                n == current_vars@.len(),
                n == reference_vars@.len(),
                0 <= i <= n,
                cs.is_proving() == old(cs).is_proving(),
                cs.is_proving() ==> witness is Some,
                cs.record() == old(cs).record(),
                start == old(cs).state(),
                first == start.multipliers,
                witness matches Some(w) ==> w.well_formed() && w.current_embedding@.len() == n,
                cs.state() == after_squared_differences(
                    start,
                    current_vars@.take(i as int),
                    reference_vars@.take(i as int),
                ),
                cs.state().in_range(),
                cs.state().multipliers == first + i,
                cs.state().committed == start.committed,
                variables_in_range(current_vars@, start),
                variables_in_range(reference_vars@, start),
                squares@ == gate_outputs(first, i as nat),
                known == old(cs).witness(),
                inputs_of == (match witness {
                    Some(w) => differences(w.current_embedding@, w.reference_embedding@),
                    None => Seq::<nat>::empty(),
                }),
                cs.is_proving() && witness is Some ==> cs.witness() == known.with_gates(
                    inputs_of.take(i as int),
                    inputs_of.take(i as int),
                ),
            decreases n - i,
        {
            let difference = witness_difference(witness, i);
            proof {
                assert(current_vars@.take(i + 1).drop_last() =~= current_vars@.take(i as int));
                assert(reference_vars@.take(i + 1).drop_last() =~= reference_vars@.take(
                    i as int,
                ));
            }
            let square = match BiometricConstraints::squared_difference(
                cs,
                current_vars[i],
                reference_vars[i],
                difference,
            ) {
                Ok(square) => square,
                Err(error) => {
                    return Err(error);
                },
            };
            squares.push(square);
            proof {
                if cs.is_proving() && witness is Some {
                    let d = difference->0@;
                    assert(inputs_of.take(i + 1) =~= inputs_of.take(i as int).push(d));
                }
            }
            i = i + 1;
        }
        proof {
            assert(current_vars@.take(n as int) =~= current_vars@);
            assert(reference_vars@.take(n as int) =~= reference_vars@);
            if cs.is_proving() && witness is Some {
                assert(inputs_of.take(n as int) =~= inputs_of);
            }
        }
        let inputs: Option<(FieldElement, FieldElement)> = match witness {
            Some(w) => Some((FieldElement::from_u64(w.distance_squared), FieldElement::one())),
            None => None,
        };
        let ghost squared = cs.state();
        let gate: usize = match cs.allocate_multiplier(inputs) {
            Ok(gate) => gate,
            Err(error) => {
                return Err(error);
            },
        };
        let total = Variable::MultiplierLeft(gate);
        proof {
            lemma_in_range_grows(squared, squared.committed, squared.multipliers + 1);
        }
        BiometricConstraints::add_sum_constraint(cs, squares.as_slice(), total);
        Ok(total)
    }
}

/// Gadgets that confine a variable.
pub struct VerificationGadgets;

impl VerificationGadgets {
    /// The range check: constrains `min <= value <= max` by the range
    /// gadget on `value - min` and on `max - value`, each over `RANGE_BITS`
    /// bits.  The prover passes what `value` is, which has to lie between
    /// the bounds and within `RANGE_BITS` bits of each.  Bounds in the wrong
    /// order are an invalid parameter.  The call succeeds on all other
    /// inputs, and where it fails nothing is added.
    pub fn range_check(
        cs: &mut ConstraintSystem<'_>,
        value: Variable,
        min: u64,
        max: u64,
        witness: Option<u64>,
    ) -> (res: CircuitResult<()>)
        requires
            old(cs).state().in_range(),
            variable_in_range(value, old(cs).state().committed, old(cs).state().multipliers),
        ensures
            final(cs).is_proving() == old(cs).is_proving(),
            final(cs).record() == old(cs).record(),
            res is Ok <==> min <= max && (old(cs).is_proving() ==> (witness matches Some(v) && min
                <= v <= max && v - min < pow2(RANGE_BITS as nat) && max - v < pow2(
                RANGE_BITS as nat,
            ))),
            res is Ok ==> {
                &&& final(cs).state() == after_range(
                    after_range(
                        old(cs).state(),
                        above_combination(value, min),
                        RANGE_BITS as nat,
                    ),
                    below_combination(value, max),
                    RANGE_BITS as nat,
                )
                &&& final(cs).state().in_range()
            },
            res is Ok && old(cs).is_proving() ==> (witness matches Some(v) && min <= v <= max
                && final(cs).witness() == range_witness(
                range_witness(old(cs).witness(), (v - min) as nat, RANGE_BITS as nat),
                (max - v) as nat,
                RANGE_BITS as nat,
            )),
            min > max <==> (res matches Err(e) && e is InvalidParameter),
            res matches Err(e) ==> {
                &&& e is InvalidParameter || e is ProofGenerationFailed
                &&& final(cs).state() == old(cs).state()
                &&& final(cs).witness() == old(cs).witness()
            },
    {
        if min > max {
            return Err(CircuitError::InvalidParameter(reason("Lower bound above upper bound")));
        }
        if cs.proving() {
            let limit: u64 = power_of_two(RANGE_BITS);
            let fits: bool = match witness {
                Some(v) => min <= v && v <= max && v - min < limit && max - v < limit,
                None => false,
            };
            if !fits {
                return Err(
                    CircuitError::ProofGenerationFailed(reason("Value outside the bounds")),
                );
            }
        }
        let above: Option<u64> = match witness {
            Some(v) => if v >= min {
                Some(v - min)
            } else {
                None
            },
            None => None,
        };
        let below: Option<u64> = match witness {
            Some(v) => if v <= max {
                Some(max - v)
            } else {
                None
            },
            None => None,
        };
        let mut lower = LinearCombination::new();
        lower.push(value, FieldElement::one());
        lower.push(Variable::One, negative_coefficient(min));
        let mut upper = LinearCombination::new();
        upper.push(Variable::One, FieldElement::from_u64(max));
        upper.push(value, negative_coefficient(1));
        proof {
            assert(lower@ =~= above_combination(value, min));
            assert(upper@ =~= below_combination(value, max));
        }
        match BiometricConstraints::range_gadget(cs, lower, RANGE_BITS, above) {
            Ok(()) => {},
            Err(error) => {
                return Err(error);
            },
        }
        BiometricConstraints::range_gadget(cs, upper, RANGE_BITS, below)
    }
}

} // verus!
