//! The field adapter: conversions between integers and field elements, and
//! arithmetic on vectors of field elements.

use vstd::prelude::*;
use vstd::arithmetic::div_mod::lemma_add_mod_noop;
use vstd::arithmetic::div_mod::lemma_mul_mod_noop_general;
use vstd::arithmetic::div_mod::lemma_small_mod;
use vstd::arithmetic::div_mod::lemma_sub_mod_noop;
use crate::config::MAX_EMBEDDING_SIZE;
use crate::crypto::field::FieldElement;
use crate::crypto::field::field_add;
use crate::crypto::field::field_image;
use crate::crypto::field::field_invert;
use crate::crypto::field::field_mul;
use crate::crypto::field::field_neg;
use crate::crypto::field::field_reduce;
use crate::crypto::field::field_sub;
use crate::crypto::field::group_order;
use crate::types::embedding::CircuitError;
use crate::types::embedding::CircuitResult;
use crate::types::embedding::coordinates_bounded;
use crate::types::embedding::lemma_squared_distance_bounded;
use crate::types::embedding::reason;
use crate::types::embedding::spec_squared_distance;

verus! {

/// The sum of the values of `elements`, as an integer.
pub open spec fn spec_sum(elements: Seq<FieldElement>) -> nat
    decreases elements.len(),
{
    if elements.len() == 0 {
        0
    } else {
        spec_sum(elements.drop_last()) + elements.last()@
    }
}

/// The product of the values of `elements`, as an integer.
pub open spec fn spec_product(elements: Seq<FieldElement>) -> nat
    decreases elements.len(),
{
    if elements.len() == 0 {
        1
    } else {
        spec_product(elements.drop_last()) * elements.last()@
    }
}

/// The dot product of the values of `a` and `b`, as an integer (zero where
/// the lengths differ).
pub open spec fn spec_dot_product(a: Seq<FieldElement>, b: Seq<FieldElement>) -> nat
    decreases a.len(),
{
    if a.len() == 0 || a.len() != b.len() {
        0
    } else {
        spec_dot_product(a.drop_last(), b.drop_last()) + a.last()@ * b.last()@
    }
}

/// The sum of the squared differences of the values of `a` and `b`, as an
/// integer (zero where the lengths differ).
pub open spec fn spec_field_distance(a: Seq<FieldElement>, b: Seq<FieldElement>) -> int
    decreases a.len(),
{
    if a.len() == 0 || a.len() != b.len() {
        0
    } else {
        spec_field_distance(a.drop_last(), b.drop_last()) + (a.last()@ - b.last()@) * (a.last()@
            - b.last()@)
    }
}

/// Whether `elements` are the field images of the integers `embedding`.
pub open spec fn represents_embedding(elements: Seq<FieldElement>, embedding: Seq<i64>) -> bool {
    &&& elements.len() == embedding.len()
    &&& forall|i: int|
        0 <= i < embedding.len() ==> (#[trigger] elements[i])@ == field_image(embedding[i] as int)
}

/// The view of a canonical element is the number its bytes encode.
pub proof fn lemma_canonical_view(e: FieldElement)
    requires
        e.is_canonical(),
    ensures
        e@ == e.raw(),
{
    lemma_small_mod(e.raw(), group_order());
}

/// A sum of squared differences is never negative.
pub proof fn lemma_field_distance_nonnegative(a: Seq<FieldElement>, b: Seq<FieldElement>)
    ensures
        0 <= spec_field_distance(a, b),
    decreases a.len(),
{
    if a.len() != 0 && a.len() == b.len() {
        lemma_field_distance_nonnegative(a.drop_last(), b.drop_last());
        let d: int = a.last()@ - b.last()@;
        assert(0 <= d * d) by (nonlinear_arith);
    }
}

/// The field arithmetic does not wrap on embeddings: where `a` and `b` are
/// the field images of two bounded integer embeddings of one length, the
/// squared distance computed in the field is the integer squared distance.
pub proof fn lemma_field_distance_is_integer_distance(
    a: Seq<FieldElement>,
    b: Seq<FieldElement>,
    current: Seq<i64>,
    reference: Seq<i64>,
)
    requires
        current.len() == reference.len(),
        current.len() <= MAX_EMBEDDING_SIZE,
        coordinates_bounded(current),
        coordinates_bounded(reference),
        represents_embedding(a, current),
        represents_embedding(b, reference),
    ensures
        spec_field_distance(a, b) % (group_order() as int) == spec_squared_distance(
            current,
            reference,
        ),
        spec_squared_distance(current, reference) < 0x1_0000_0000_0000_0000nat,
{
    lemma_field_distance_congruent(a, b, current, reference);
    lemma_squared_distance_bounded(current, reference);
    let d = spec_squared_distance(current, reference);
    lemma_small_mod(d as nat, group_order());
}

/// The squared distance in the field and the integer squared distance
/// agree modulo the group order.
pub proof fn lemma_field_distance_congruent(
    a: Seq<FieldElement>,
    b: Seq<FieldElement>,
    current: Seq<i64>,
    reference: Seq<i64>,
)
    requires
        current.len() == reference.len(),
        represents_embedding(a, current),
        represents_embedding(b, reference),
    ensures
        spec_field_distance(a, b) % (group_order() as int) == spec_squared_distance(
            current,
            reference,
        ) % (group_order() as int),
    decreases a.len(),
{
    let m = group_order() as int;
    if a.len() > 0 {
        let a0 = a.drop_last();
        let b0 = b.drop_last();
        let c0 = current.drop_last();
        let r0 = reference.drop_last();
        lemma_field_distance_congruent(a0, b0, c0, r0);
        let last = a.len() - 1;
        let x: int = current.last() as int;
        let y: int = reference.last() as int;
        let u: int = a.last()@ as int;
        let v: int = b.last()@ as int;
        lemma_sub_mod_noop(x, y, m);
        lemma_mul_mod_noop_general(u - v, u - v, m);
        lemma_mul_mod_noop_general(x - y, x - y, m);
        lemma_add_mod_noop(spec_field_distance(a0, b0), (u - v) * (u - v), m);
        lemma_add_mod_noop(spec_squared_distance(c0, r0), (x - y) * (x - y), m);
    }
}

/// Conversions between integers and field elements and arithmetic on
/// vectors of field elements.
pub struct FieldUtils;

impl FieldUtils {
    /// The field image of a signed integer: a negative integer maps to the
    /// additive inverse of its magnitude.  Never fails.
    pub fn i64_to_scalar(value: i64) -> (res: CircuitResult<FieldElement>)
        ensures
            res matches Ok(e) && e.is_canonical() && e.raw() == field_image(value as int),
    {
        if value < 0 {
            let magnitude: u64 = if value == i64::MIN {
                0x8000_0000_0000_0000
            } else {
                (-value) as u64
            };
            let positive = FieldElement::from_u64(magnitude);
            Ok(field_neg(&positive))
        } else {
            let e = FieldElement::from_u64(value as u64);
            proof {
                lemma_small_mod(value as nat, group_order());
            }
            Ok(e)
        }
    }

    /// The field image of an unsigned integer.
    pub fn u64_to_scalar(value: u64) -> (e: FieldElement)
        ensures
            e.is_canonical(),
            e.raw() == value,
    {
        FieldElement::from_u64(value)
    }

    /// The unsigned integer that `scalar` encodes; fails where the 24
    /// high-order bytes are not all zero, that is, where the encoded number
    /// does not fit in 64 bits.
    pub fn scalar_to_u64(scalar: &FieldElement) -> (res: CircuitResult<u64>)
        ensures
            res is Ok <==> scalar.raw() < 0x1_0000_0000_0000_0000nat,
            res matches Ok(x) ==> x == scalar.raw(),
            res matches Err(e) ==> e is CryptographicError,
    {
        match scalar.to_u64() {
            Some(x) => Ok(x),
            None => Err(
                CircuitError::CryptographicError(reason("Scalar too large to convert to u64")),
            ),
        }
    }

    /// The field images of the coordinates of an embedding.  Never fails.
    pub fn embedding_to_scalars(embedding: &[i64]) -> (res: CircuitResult<Vec<FieldElement>>)
        ensures
            res matches Ok(elements) && represents_embedding(elements@, embedding@) && (forall|
                i: int,
            |
                0 <= i < elements@.len() ==> (#[trigger] elements@[i]).is_canonical()),
    {
        let n: usize = embedding.len();
        let mut elements: Vec<FieldElement> = Vec::new();
        let mut i: usize = 0;
        while i < n
            invariant
                n == embedding@.len(),
                0 <= i <= n,
                elements@.len() == i,
                forall|k: int|
                    0 <= k < i ==> (#[trigger] elements@[k])@ == (embedding@[k] as int) % (
                    group_order() as int),
                forall|k: int| 0 <= k < i ==> (#[trigger] elements@[k]).is_canonical(),
            decreases n - i,
        {
            let converted = FieldUtils::i64_to_scalar(embedding[i]);
            match converted {
                Ok(e) => {
                    proof {
                        lemma_canonical_view(e);
                    }
                    elements.push(e);
                },
                Err(error) => {
                    return Err(error);
                },
            }
            i = i + 1;
        }
        Ok(elements)
    }

    /// The dot product of two vectors in the field; fails where the lengths
    /// differ.
    pub fn scalar_dot_product(a: &[FieldElement], b: &[FieldElement]) -> (res: CircuitResult<
        FieldElement,
    >)
        ensures
            res is Ok <==> a@.len() == b@.len(),
            res matches Ok(e) ==> e.is_canonical() && e.raw() == spec_dot_product(a@, b@)
                % group_order(),
            res matches Err(e) ==> e is InvalidParameter,
    {
        if a.len() != b.len() {
            return Err(
                CircuitError::InvalidParameter(reason("Vector length mismatch for dot product")),
            );
        }
        let n: usize = a.len();
        let mut result = FieldElement::zero();
        let mut i: usize = 0;
        proof {
            lemma_small_mod(0, group_order());
        }
        while i < n
            invariant
                n == a@.len(),
                n == b@.len(),
                0 <= i <= n,
                result.is_canonical(),
                result.raw() == spec_dot_product(a@.take(i as int), b@.take(i as int))
                    % group_order(),
            decreases n - i,
        {
            let product = field_mul(&a[i], &b[i]);
            let next = field_add(&result, &product);
            proof {
                lemma_canonical_view(result);
                lemma_canonical_view(product);
                assert(a@.take(i + 1).drop_last() =~= a@.take(i as int));
                assert(b@.take(i + 1).drop_last() =~= b@.take(i as int));
                let before = spec_dot_product(a@.take(i as int), b@.take(i as int)) as int;
                let term = (a@[i as int]@ * b@[i as int]@) as int;
                lemma_add_mod_noop(before, term, group_order() as int);
            }
            result = next;
            i = i + 1;
        }
        proof {
            assert(a@.take(n as int) =~= a@);
            assert(b@.take(n as int) =~= b@);
        }
        Ok(result)
    }

    /// The squared Euclidean distance of two vectors in the field; fails
    /// where the lengths differ.
    pub fn scalar_distance_squared(a: &[FieldElement], b: &[FieldElement]) -> (res: CircuitResult<
        FieldElement,
    >)
        ensures
            res is Ok <==> a@.len() == b@.len(),
            res matches Ok(e) ==> e.is_canonical() && e.raw() == spec_field_distance(a@, b@) % (
            group_order() as int),
            res matches Err(e) ==> e is InvalidParameter,
    {
        if a.len() != b.len() {
            return Err(
                CircuitError::InvalidParameter(
                    reason("Vector length mismatch for distance calculation"),
                ),
            );
        }
        let n: usize = a.len();
        let mut sum = FieldElement::zero();
        let mut i: usize = 0;
        proof {
            lemma_small_mod(0, group_order());
        }
        while i < n
            invariant
                n == a@.len(),
                n == b@.len(),
                0 <= i <= n,
                sum.is_canonical(),
                sum.raw() == spec_field_distance(a@.take(i as int), b@.take(i as int)) % (
                group_order() as int),
            decreases n - i,
        {
            let diff = field_sub(&a[i], &b[i]);
            let square = field_mul(&diff, &diff);
            let next = field_add(&sum, &square);
            proof {
                let m = group_order() as int;
                lemma_canonical_view(sum);
                lemma_canonical_view(diff);
                lemma_canonical_view(square);
                assert(a@.take(i + 1).drop_last() =~= a@.take(i as int));
                assert(b@.take(i + 1).drop_last() =~= b@.take(i as int));
                let d: int = a@[i as int]@ - b@[i as int]@;
                lemma_mul_mod_noop_general(d, d, m);
                let before = spec_field_distance(a@.take(i as int), b@.take(i as int));
                lemma_add_mod_noop(before, d * d, m);
            }
            sum = next;
            i = i + 1;
        }
        proof {
            assert(a@.take(n as int) =~= a@);
            assert(b@.take(n as int) =~= b@);
        }
        Ok(sum)
    }

    /// Whether `scalar` encodes an integer in `[0, max_value)`.
    pub fn is_in_range(scalar: &FieldElement, max_value: u64) -> (within: bool)
        ensures
            within == (scalar.raw() < max_value),
    {
        match scalar.to_u64() {
            Some(value) => value < max_value,
            None => false,
        }
    }

    /// The field element that a drawn number stands for in
    /// `[0, max_value)`: the remainder of `drawn` by `max_value`.
    pub fn scalar_below(drawn: u64, max_value: u64) -> (e: FieldElement)
        requires
            max_value > 0,
        ensures
            e.is_canonical(),
            e.raw() == drawn % max_value,
    {
        FieldElement::from_u64(drawn % max_value)
    }

    /// A field element drawn from `[0, max_value)`: 64 fresh bits, reduced
    /// by `scalar_below`.
    pub fn random_scalar_in_range(max_value: u64) -> (e: FieldElement)
        requires
            max_value > 0,
        ensures
            e.is_canonical(),
            e.raw() < max_value,
    {
        let drawn: u64 = random_u64();
        FieldUtils::scalar_below(drawn, max_value)
    }

    /// The multiplicative inverse of `scalar`; fails exactly where `scalar`
    /// is zero in the field.
    pub fn scalar_inverse(scalar: &FieldElement) -> (res: CircuitResult<FieldElement>)
        ensures
            res is Ok <==> scalar@ != 0,
            res matches Ok(inverse) ==> inverse.is_canonical() && (inverse.raw() * scalar@)
                % group_order() == 1,
            res matches Err(e) ==> e is CryptographicError,
    {
        let reduced = field_reduce(scalar);
        if is_zero_encoding(&reduced) {
            return Err(CircuitError::CryptographicError(reason("Scalar is not invertible")));
        }
        Ok(field_invert(scalar))
    }
}

/// Whether all 32 bytes of `e` are zero.
pub fn is_zero_encoding(e: &FieldElement) -> (zero: bool)
    ensures
        zero == (e.raw() == 0),
{
    proof {
        crate::crypto::field::lemma_le_value_zero(e.bytes@);
    }
    let mut i: usize = 0;
    while i < 32
        invariant
            0 <= i <= 32,
            forall|k: int| 0 <= k < i ==> e.bytes@[k] == 0,
        decreases 32 - i,
    {
        if e.bytes[i] != 0 {
            proof {
                crate::crypto::field::lemma_le_value_zero(e.bytes@);
            }
            return false;
        }
        i = i + 1;
    }
    true
}

/// Draws 64 bits from the thread-local generator of `rand`, by
/// `rand::random`.  Nothing is promised of the outcome.  Where the
/// operating system has no entropy to seed the generator with, the call
/// panics.
#[verifier::external_body]
pub(crate) fn random_u64() -> (drawn: u64) {
    rand::random::<u64>()
}

/// Sums, products and linear combinations of field elements.
pub struct BatchFieldOps;

impl BatchFieldOps {
    /// The sum of `scalars` in the field.
    pub fn sum_scalars(scalars: &[FieldElement]) -> (e: FieldElement)
        ensures
            e.is_canonical(),
            e.raw() == spec_sum(scalars@) % group_order(),
    {
        let n: usize = scalars.len();
        let mut acc = FieldElement::zero();
        let mut i: usize = 0;
        proof {
            lemma_small_mod(0, group_order());
        }
        while i < n
            invariant
                n == scalars@.len(),
                0 <= i <= n,
                acc.is_canonical(),
                acc.raw() == spec_sum(scalars@.take(i as int)) % group_order(),
            decreases n - i,
        {
            let next = field_add(&acc, &scalars[i]);
            proof {
                lemma_canonical_view(acc);
                assert(scalars@.take(i + 1).drop_last() =~= scalars@.take(i as int));
                let before = spec_sum(scalars@.take(i as int)) as int;
                let term = scalars@[i as int]@ as int;
                let m = group_order() as int;
                lemma_add_mod_noop(before, term, m);
                lemma_small_mod(scalars@[i as int]@, group_order());
            }
            acc = next;
            i = i + 1;
        }
        proof {
            assert(scalars@.take(n as int) =~= scalars@);
        }
        acc
    }

    /// The product of `scalars` in the field.
    pub fn product_scalars(scalars: &[FieldElement]) -> (e: FieldElement)
        ensures
            e.is_canonical(),
            e.raw() == spec_product(scalars@) % group_order(),
    {
        let n: usize = scalars.len();
        let mut acc = FieldElement::one();
        let mut i: usize = 0;
        proof {
            lemma_small_mod(1, group_order());
        }
        while i < n
            invariant
                n == scalars@.len(),
                0 <= i <= n,
                acc.is_canonical(),
                acc.raw() == spec_product(scalars@.take(i as int)) % group_order(),
            decreases n - i,
        {
            let next = field_mul(&acc, &scalars[i]);
            proof {
                lemma_canonical_view(acc);
                assert(scalars@.take(i + 1).drop_last() =~= scalars@.take(i as int));
                let before = spec_product(scalars@.take(i as int)) as int;
                let term = scalars@[i as int]@ as int;
                let m = group_order() as int;
                lemma_mul_mod_noop_general(before, term, m);
                lemma_small_mod(scalars@[i as int]@, group_order());
            }
            acc = next;
            i = i + 1;
        }
        proof {
            assert(scalars@.take(n as int) =~= scalars@);
        }
        acc
    }

    /// The linear combination `sum(coeffs[i] * values[i])` in the field;
    /// fails where the lengths differ.
    pub fn linear_combination(coeffs: &[FieldElement], values: &[FieldElement]) -> (res:
        CircuitResult<FieldElement>)
        ensures
            res is Ok <==> coeffs@.len() == values@.len(),
            res matches Ok(e) ==> e.is_canonical() && e.raw() == spec_dot_product(
                coeffs@,
                values@,
            ) % group_order(),
            res matches Err(e) ==> e is InvalidParameter,
    {
        if coeffs.len() != values.len() {
            return Err(
                CircuitError::InvalidParameter(
                    reason("Coefficient and value arrays must have same length"),
                ),
            );
        }
        FieldUtils::scalar_dot_product(coeffs, values)
    }
}

} // verus!
