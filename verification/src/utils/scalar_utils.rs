//! Constructors of field elements.

use vstd::prelude::*;
use crate::crypto::field::FieldElement;
use crate::crypto::field::field_from_wide;
use crate::crypto::field::group_order;
use crate::crypto::field::le_value;

verus! {

/// Sixty-four bytes from the operating system's generator, by
/// `RngCore::fill_bytes` on `rand::rngs::OsRng`.  Nothing is promised of
/// the outcome.  Where the operating system has no entropy to give, the
/// call panics.
#[verifier::external_body]
pub(crate) fn os_random_bytes() -> (bytes: [u8; 64]) {
    let mut bytes = [0u8; 64];
    rand::RngCore::fill_bytes(&mut rand::rngs::OsRng, &mut bytes);
    bytes
}

/// Constructors of field elements.
pub struct ScalarUtils;

impl ScalarUtils {
    /// The field element 0.
    pub fn zero() -> (e: FieldElement)
        ensures
            e@ == 0,
            e.is_canonical(),
    {
        FieldElement::zero()
    }

    /// The field element 1.
    pub fn one() -> (e: FieldElement)
        ensures
            e@ == 1,
            e.is_canonical(),
    {
        FieldElement::one()
    }

    /// The field element of 64 bytes of entropy: the 512-bit number they
    /// encode in little-endian order, modulo the group order.  Uniform
    /// entropy gives a field element that is uniform up to a negligible
    /// bias.
    pub fn random(entropy: &[u8; 64]) -> (e: FieldElement)
        ensures
            e.is_canonical(),
            e.raw() == le_value(entropy@) % group_order(),
    {
        field_from_wide(entropy)
    }

    /// A field element drawn from the operating system's generator.
    pub fn thread_random() -> (e: FieldElement)
        ensures
            e.is_canonical(),
    {
        let entropy = os_random_bytes();
        field_from_wide(&entropy)
    }
}

} // verus!
