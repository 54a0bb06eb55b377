//! Pedersen commitments over the Ristretto group, on the fixed generators
//! of the proof system.

use vstd::prelude::*;
use bulletproofs::PedersenGens;
use curve25519_dalek_ng::scalar::Scalar;
use crate::crypto::field::FieldElement;
use crate::crypto::field::field_from_wide;
use crate::crypto::field::group_order;
use crate::crypto::hash::HashUtils;

verus! {

/// The canonical 32-byte encoding of the group element
/// `value * G + blinding * H`, where `G` and `H` are the two fixed
/// generators of the proof system.
pub uninterp spec fn pedersen_commitment(value: nat, blinding: nat) -> Seq<u8>;

/// Whether `point` is the commitment to `value` under `blinding`.
pub open spec fn opens_to(point: Seq<u8>, value: nat, blinding: nat) -> bool {
    point == pedersen_commitment(value, blinding)
}

/// Whether `point` is a commitment to `value` under some blinding factor.
pub open spec fn is_commitment_to(point: Seq<u8>, value: nat) -> bool {
    exists|blinding: nat| opens_to(point, value, blinding)
}

/// Whether `point`, a commitment to `value` under `blinding`, opens to no
/// other field element under the same blinding factor.
pub open spec fn binds_value(point: Seq<u8>, value: nat, blinding: nat) -> bool {
    forall|other: nat|
        other < group_order() && other != value ==> #[trigger] pedersen_commitment(
            other,
            blinding,
        ) != point
}

/// A group element in its canonical 32-byte encoding.  Two group elements
/// are equal exactly when their encodings are.
#[derive(Clone, Copy, Debug, PartialEq, Eq)]
pub struct CommitmentPoint {
    pub bytes: [u8; 32],
}

impl View for CommitmentPoint {
    type V = Seq<u8>;

    open spec fn view(&self) -> Seq<u8> {
        self.bytes@
    }
}

impl CommitmentPoint {
    /// The 32 bytes of the encoding.
    pub fn to_bytes(&self) -> (bytes: [u8; 32])
        ensures
            bytes@ == self@,
    {
        self.bytes
    }

    /// The encoding as a vector.
    pub fn to_vec(&self) -> (bytes: Vec<u8>)
        ensures
            bytes@ == self@,
    {
        let mut out: Vec<u8> = Vec::new();
        let mut i: usize = 0;
        while i < 32
            invariant
                0 <= i <= 32,
                out@ == self.bytes@.take(i as int),
            decreases 32 - i,
        {
            out.push(self.bytes[i]);
            proof {
                assert(self.bytes@.take(i + 1) =~= self.bytes@.take(i as int).push(
                    self.bytes@[i as int],
                ));
            }
            i = i + 1;
        }
        out
    }
}

/// The Pedersen commitment.  Calls `PedersenGens::commit` on the default
/// generators of `bulletproofs` (the Ristretto base point and the point
/// hashed from it), with both scalars reduced modulo the group order, and
/// compresses the sum with `RistrettoPoint::compress`.  The result is a
/// function of the two field elements alone.  Because the first generator
/// has the prime order of the group and the encoding is canonical, two
/// different values never share a commitment under one blinding factor.
/// The second generator is hashed from the encoding of the first and is
/// another point, so the first generator, which is the commitment to one
/// under the blinding factor zero, is not the commitment to zero under the
/// blinding factor one.
#[verifier::external_body]
fn pedersen_commit(value: &FieldElement, blinding: &FieldElement) -> (point: CommitmentPoint)
    ensures
        point@ == pedersen_commitment(value@, blinding@),
        binds_value(point@, value@, blinding@),
        value@ == 1 && blinding@ == 0 ==> point@ != pedersen_commitment(0, 1),
{
    let v = Scalar::from_bytes_mod_order(value.bytes);
    let b = Scalar::from_bytes_mod_order(blinding.bytes);
    CommitmentPoint { bytes: PedersenGens::default().commit(v, b).compress().to_bytes() }
}

/// Sixty-four bytes from the thread-local generator of `rand`, by
/// `RngCore::fill_bytes` on `rand::thread_rng()`.  Nothing is promised of
/// the outcome.  Where the operating system has no entropy to seed the
/// generator with, the call panics.
#[verifier::external_body]
pub(crate) fn thread_random_bytes() -> (bytes: [u8; 64]) {
    let mut bytes = [0u8; 64];
    rand::RngCore::fill_bytes(&mut rand::thread_rng(), &mut bytes);
    bytes
}

/// A fresh blinding factor: 64 random bytes reduced modulo the group order.
pub fn random_blinding() -> (blinding: FieldElement)
    ensures
        blinding.is_canonical(),
{
    let entropy = thread_random_bytes();
    field_from_wide(&entropy)
}

/// The commitment scheme.  Its two generators are fixed and cannot be
/// changed once the scheme is made: every scheme commits and verifies on
/// the same pair, so that commitments made by one instance verify under
/// any other.
#[derive(Clone, Copy, Debug)]
pub struct CommitmentScheme {
    g: CommitmentPoint,
    h: CommitmentPoint,
}

impl CommitmentScheme {
    #[verifier::type_invariant]
    spec fn fixed(&self) -> bool {
        &&& self.g@ == pedersen_commitment(1, 0)
        &&& self.h@ == pedersen_commitment(0, 1)
        &&& self.g@ != self.h@
    }

    /// The encoding of the generator that carries the value.
    pub closed spec fn value_generator(&self) -> Seq<u8> {
        self.g@
    }

    /// The encoding of the generator that carries the blinding factor.
    pub closed spec fn blinding_generator(&self) -> Seq<u8> {
        self.h@
    }

    /// What holds of every scheme: the generator of the value is the
    /// commitment to one under a zero blinding factor, the generator of
    /// the blinding factor is the commitment to zero under the blinding
    /// factor one, and the two differ.
    pub open spec fn well_formed(&self) -> bool {
        &&& self.value_generator() == pedersen_commitment(1, 0)
        &&& self.blinding_generator() == pedersen_commitment(0, 1)
        &&& self.value_generator() != self.blinding_generator()
    }

    /// The scheme on the fixed generators.
    pub fn new() -> (scheme: Self)
        ensures
            scheme.well_formed(),
    {
        let zero = FieldElement::zero();
        let one = FieldElement::one();
        CommitmentScheme { g: pedersen_commit(&one, &zero), h: pedersen_commit(&zero, &one) }
    }

    /// The generator that carries the value.
    pub fn g(&self) -> (point: CommitmentPoint)
        ensures
            point@ == self.value_generator(),
            self.well_formed(),
    {
        proof {
            use_type_invariant(self);
        }
        self.g
    }

    /// The generator that carries the blinding factor.
    pub fn h(&self) -> (point: CommitmentPoint)
        ensures
            point@ == self.blinding_generator(),
            self.well_formed(),
    {
        proof {
            use_type_invariant(self);
        }
        self.h
    }

    /// The commitment `value * G + blinding * H` on the generators of the
    /// scheme, which are those of every scheme.  It opens to `value` under
    /// `blinding`, and to no other field element under `blinding`.
    pub fn commit(&self, value: &FieldElement, blinding: &FieldElement) -> (point:
        CommitmentPoint)
        ensures
            opens_to(point@, value@, blinding@),
            binds_value(point@, value@, blinding@),
    {
        pedersen_commit(value, blinding)
    }

    /// A commitment to `value` under a freshly drawn blinding factor, and
    /// that blinding factor.
    pub fn commit_with_random_blinding(&self, value: &FieldElement) -> (res: (
        CommitmentPoint,
        FieldElement,
    ))
        ensures
            opens_to(res.0@, value@, res.1@),
            binds_value(res.0@, value@, res.1@),
            res.1.is_canonical(),
    {
        let blinding = random_blinding();
        let point = pedersen_commit(value, &blinding);
        (point, blinding)
    }

    /// Whether `commitment` opens to `value` under `blinding`: recomputes
    /// the commitment and compares all 32 bytes.
    pub fn verify(
        &self,
        commitment: &CommitmentPoint,
        value: &FieldElement,
        blinding: &FieldElement,
    ) -> (valid: bool)
        ensures
            valid == opens_to(commitment@, value@, blinding@),
    {
        let expected = pedersen_commit(value, blinding);
        HashUtils::verify_hash(commitment.bytes.as_slice(), expected.bytes.as_slice())
    }
}

impl Default for CommitmentScheme {
    fn default() -> (scheme: Self)
        ensures
            scheme.well_formed(),
    {
        CommitmentScheme::new()
    }
}

/// A commitment together with the blinding factor that opens it.  The
/// blinding factor is witness data: it must never be published.
#[derive(Clone, Copy, Debug)]
pub struct Commitment {
    pub point: CommitmentPoint,
    pub blinding: FieldElement,
}

impl Commitment {
    /// Whether this is a commitment to `value`.
    pub open spec fn commits_to(&self, value: nat) -> bool {
        opens_to(self.point@, value, self.blinding@)
    }

    /// A commitment to `value` under a freshly drawn blinding factor.
    pub fn new(value: &FieldElement, scheme: &CommitmentScheme) -> (c: Self)
        ensures
            c.commits_to(value@),
            binds_value(c.point@, value@, c.blinding@),
    {
        let (point, blinding) = scheme.commit_with_random_blinding(value);
        Commitment { point, blinding }
    }

    /// The commitment to `value` under `blinding`.
    pub fn with_blinding(value: &FieldElement, blinding: FieldElement, scheme: &CommitmentScheme) -> (c:
        Self)
        ensures
            c.commits_to(value@),
            binds_value(c.point@, value@, c.blinding@),
            c.blinding == blinding,
    {
        let point = scheme.commit(value, &blinding);
        Commitment { point, blinding }
    }

    /// Whether this commitment opens to `value`.
    pub fn verify(&self, value: &FieldElement, scheme: &CommitmentScheme) -> (valid: bool)
        ensures
            valid == self.commits_to(value@),
    {
        scheme.verify(&self.point, value, &self.blinding)
    }
}

/// A commitment opens to the value and blinding factor it was made from.
pub proof fn lemma_commitment_opens(value: nat, blinding: nat)
    ensures
        opens_to(pedersen_commitment(value, blinding), value, blinding),
{
}

} // verus!
