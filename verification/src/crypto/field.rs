//! Elements of the scalar field of the proof system's group, held as their
//! 32-byte little-endian encoding, and the field operations on them.

use vstd::prelude::*;
use curve25519_dalek_ng::scalar::Scalar;

verus! {

/// The prime order of the group, which is the size of the scalar field:
/// 2^252 + 27742317777372353535851937790883648493.
pub open spec fn group_order() -> nat {
    7237005577332262213973186563042994240857116359379907606001950938285454250989nat
}

/// The field element that the integer `x` stands for: a negative integer
/// stands for the additive inverse of its magnitude.
pub open spec fn field_image(x: int) -> nat {
    (x % (group_order() as int)) as nat
}

/// The number that `bytes` encodes in little-endian order.
pub open spec fn le_value(bytes: Seq<u8>) -> nat
    decreases bytes.len(),
{
    if bytes.len() == 0 {
        0
    } else {
        bytes[0] as nat + 256 * le_value(bytes.drop_first())
    }
}

/// A string of zero bytes encodes zero, and nothing else does.
pub proof fn lemma_le_value_zero(bytes: Seq<u8>)
    ensures
        le_value(bytes) == 0 <==> (forall|i: int| 0 <= i < bytes.len() ==> bytes[i] == 0),
    decreases bytes.len(),
{
    if bytes.len() > 0 {
        let rest = bytes.drop_first();
        lemma_le_value_zero(rest);
        if le_value(bytes) == 0 {
            assert forall|i: int| 0 <= i < bytes.len() implies bytes[i] == 0 by {
                if i > 0 {
                    assert(rest[i - 1] == bytes[i]);
                }
            }
        }
    }
}

/// The first eight bytes carry the low 64 bits: the value is theirs plus
/// 2^64 times that of the remaining bytes.
pub proof fn lemma_le_value_low_eight(bytes: Seq<u8>)
    requires
        bytes.len() >= 8,
    ensures
        le_value(bytes) == le_value(bytes.take(8)) + 0x1_0000_0000_0000_0000nat * le_value(
            bytes.skip(8),
        ),
        le_value(bytes.take(8)) == bytes[0] + 0x100 * bytes[1] + 0x1_0000 * bytes[2] + 0x100_0000
            * bytes[3] + 0x1_0000_0000 * bytes[4] + 0x100_0000_0000 * bytes[5]
            + 0x1_0000_0000_0000 * bytes[6] + 0x100_0000_0000_0000 * bytes[7],
        le_value(bytes.take(8)) < 0x1_0000_0000_0000_0000nat,
{
    let low = bytes.take(8);
    assert forall|k: int| 0 <= k < 8 implies #[trigger] le_value(low.skip(k)) == low[k] + 256
        * le_value(low.skip(k + 1)) by {
        assert(low.skip(k).drop_first() =~= low.skip(k + 1));
    }
    assert(low.skip(0) =~= low);
    assert forall|k: int| 0 <= k < 8 implies #[trigger] le_value(bytes.skip(k)) == bytes[k] + 256
        * le_value(bytes.skip(k + 1)) by {
        assert(bytes.skip(k).drop_first() =~= bytes.skip(k + 1));
    }
    assert(bytes.skip(0) =~= bytes);
}

/// An element of the scalar field, as the 32 bytes of its little-endian
/// encoding.  Every operation of the library returns the canonical encoding
/// (the one below the group order) and accepts any encoding, which it reads
/// modulo the group order.
#[derive(Clone, Copy, Debug, PartialEq, Eq)]
pub struct FieldElement {
    pub bytes: [u8; 32],
}

impl View for FieldElement {
    type V = nat;

    /// The field element that the bytes stand for.
    open spec fn view(&self) -> nat {
        le_value(self.bytes@) % group_order()
    }
}

impl FieldElement {
    /// The number that the bytes encode, before reduction.
    pub open spec fn raw(&self) -> nat {
        le_value(self.bytes@)
    }

    /// Whether the encoding is the canonical one.
    pub open spec fn is_canonical(&self) -> bool {
        self.raw() < group_order()
    }

    /// The field element 0.
    pub fn zero() -> (z: Self)
        ensures
            z.raw() == 0,
            z.is_canonical(),
            z@ == 0,
    {
        let z = FieldElement { bytes: [0u8; 32] };
        proof {
            lemma_le_value_zero(z.bytes@);
        }
        z
    }

    /// The field element of a 64-bit unsigned integer.
    pub fn from_u64(x: u64) -> (e: Self)
        ensures
            e.raw() == x,
            e.is_canonical(),
            e@ == x,
    {
        let x1: u64 = x / 256;
        let x2: u64 = x1 / 256;
        let x3: u64 = x2 / 256;
        let x4: u64 = x3 / 256;
        let x5: u64 = x4 / 256;
        let x6: u64 = x5 / 256;
        let x7: u64 = x6 / 256;
        let mut bytes: [u8; 32] = [0u8; 32];
        bytes[0] = (x % 256) as u8;
        bytes[1] = (x1 % 256) as u8;
        bytes[2] = (x2 % 256) as u8;
        bytes[3] = (x3 % 256) as u8;
        bytes[4] = (x4 % 256) as u8;
        bytes[5] = (x5 % 256) as u8;
        bytes[6] = (x6 % 256) as u8;
        bytes[7] = x7 as u8;
        proof {
            lemma_le_value_low_eight(bytes@);
            lemma_le_value_zero(bytes@.skip(8));
        }
        FieldElement { bytes }
    }

    /// The field element 1.
    pub fn one() -> (e: Self)
        ensures
            e.raw() == 1,
            e.is_canonical(),
            e@ == 1,
    {
        FieldElement::from_u64(1)
    }

    /// The integer that the element encodes, where it is below 2^64: that
    /// is, where the 24 high-order bytes are all zero.
    pub fn to_u64(&self) -> (res: Option<u64>)
        ensures
            res is Some <==> self.raw() < 0x1_0000_0000_0000_0000nat,
            res matches Some(x) ==> x == self.raw(),
    {
        proof {
            lemma_le_value_low_eight(self.bytes@);
            lemma_le_value_zero(self.bytes@.skip(8));
        }
        let mut i: usize = 8;
        while i < 32
            invariant
                8 <= i <= 32,
                forall|k: int| 8 <= k < i ==> self.bytes@[k] == 0,
            decreases 32 - i,
        {
            if self.bytes[i] != 0 {
                proof {
                    lemma_le_value_low_eight(self.bytes@);
                    lemma_le_value_zero(self.bytes@.skip(8));
                    assert(self.bytes@.skip(8)[i - 8] == self.bytes@[i as int]);
                }
                return None;
            }
            i = i + 1;
        }
        let b0: u64 = self.bytes[0] as u64;
        let b1: u64 = self.bytes[1] as u64;
        let b2: u64 = self.bytes[2] as u64;
        let b3: u64 = self.bytes[3] as u64;
        let b4: u64 = self.bytes[4] as u64;
        let b5: u64 = self.bytes[5] as u64;
        let b6: u64 = self.bytes[6] as u64;
        let b7: u64 = self.bytes[7] as u64;
        Some(
            b0 + 0x100 * b1 + 0x1_0000 * b2 + 0x100_0000 * b3 + 0x1_0000_0000 * b4
                + 0x100_0000_0000 * b5 + 0x1_0000_0000_0000 * b6 + 0x100_0000_0000_0000 * b7,
        )
    }
}

/// Field addition.  Calls the `+` of `Scalar`, on the two operands reduced
/// modulo the group order by `Scalar::from_bytes_mod_order`: the result is
/// the canonical encoding of the sum modulo the group order.
#[verifier::external_body]
pub(crate) fn field_add(a: &FieldElement, b: &FieldElement) -> (r: FieldElement)
    ensures
        r.is_canonical(),
        r.raw() == (a@ + b@) % group_order(),
{
    let sum = Scalar::from_bytes_mod_order(a.bytes) + Scalar::from_bytes_mod_order(b.bytes);
    FieldElement { bytes: sum.to_bytes() }
}

/// Field subtraction.  Calls the `-` of `Scalar`, on the two operands
/// reduced modulo the group order: the result is the canonical encoding of
/// the difference modulo the group order.
#[verifier::external_body]
pub(crate) fn field_sub(a: &FieldElement, b: &FieldElement) -> (r: FieldElement)
    ensures
        r.is_canonical(),
        r.raw() == (a@ - b@) % (group_order() as int),
{
    let difference = Scalar::from_bytes_mod_order(a.bytes) - Scalar::from_bytes_mod_order(b.bytes);
    FieldElement { bytes: difference.to_bytes() }
}

/// Field multiplication.  Calls the `*` of `Scalar`, on the two operands
/// reduced modulo the group order: the result is the canonical encoding of
/// the product modulo the group order.
#[verifier::external_body]
pub(crate) fn field_mul(a: &FieldElement, b: &FieldElement) -> (r: FieldElement)
    ensures
        r.is_canonical(),
        r.raw() == (a@ * b@) % group_order(),
{
    let product = Scalar::from_bytes_mod_order(a.bytes) * Scalar::from_bytes_mod_order(b.bytes);
    FieldElement { bytes: product.to_bytes() }
}

/// Field negation.  Calls the unary `-` of `Scalar`, on the operand reduced
/// modulo the group order: the result is the canonical encoding of the
/// additive inverse, which is zero for zero.
#[verifier::external_body]
pub(crate) fn field_neg(a: &FieldElement) -> (r: FieldElement)
    ensures
        r.is_canonical(),
        r.raw() == (-(a@ as int)) % (group_order() as int),
{
    let negated = -Scalar::from_bytes_mod_order(a.bytes);
    FieldElement { bytes: negated.to_bytes() }
}

/// Reduction.  Calls `Scalar::from_bytes_mod_order`, which reads the bytes
/// as a 256-bit integer and reduces it modulo the group order: the result
/// is the canonical encoding of the same field element.
#[verifier::external_body]
pub(crate) fn field_reduce(a: &FieldElement) -> (r: FieldElement)
    ensures
        r.is_canonical(),
        r.raw() == a@,
{
    FieldElement { bytes: Scalar::from_bytes_mod_order(a.bytes).to_bytes() }
}

/// Field inversion.  Calls `Scalar::invert`, which is documented for
/// nonzero operands only, on the operand reduced modulo the group order:
/// the result is the canonical encoding of the multiplicative inverse.
#[verifier::external_body]
pub(crate) fn field_invert(a: &FieldElement) -> (r: FieldElement)
    requires
        a@ != 0,
    ensures
        r.is_canonical(),
        (r.raw() * a@) % group_order() == 1,
{
    FieldElement { bytes: Scalar::from_bytes_mod_order(a.bytes).invert().to_bytes() }
}

/// Reduction of 64 bytes.  Calls `Scalar::from_bytes_mod_order_wide`, which
/// reads the bytes as a 512-bit little-endian integer and reduces it modulo
/// the group order.
#[verifier::external_body]
pub(crate) fn field_from_wide(bytes: &[u8; 64]) -> (r: FieldElement)
    ensures
        r.is_canonical(),
        r.raw() == le_value(bytes@) % group_order(),
{
    FieldElement { bytes: Scalar::from_bytes_mod_order_wide(bytes).to_bytes() }
}

} // verus!
