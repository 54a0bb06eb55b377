//! Checks on embeddings, thresholds and proof records before they enter
//! the circuit, and the sanitization of embeddings.

use vstd::prelude::*;
use crate::config::MAX_COORDINATE;
use crate::config::MAX_EMBEDDING_SIZE;
use crate::config::MAX_PROOF_SIZE;
use crate::config::MAX_THRESHOLD;
use crate::config::MIN_THRESHOLD;
use crate::config::embedding_size_in_range;
use crate::config::threshold_in_range;
use crate::types::embedding::BiometricEmbedding;
use crate::types::embedding::CircuitError;
use crate::types::embedding::CircuitResult;
use crate::types::embedding::is_integer_sqrt;
use crate::types::embedding::reason;
use crate::types::proof_data::BiometricProof;
use crate::types::proof_data::ProofContent;
use crate::types::proof_data::within_coordinate_bound;

verus! {

/// The magnitude that sanitization clamps coordinates to.
pub const MAX_ABS_VALUE: i64 = 100_000;

/// The greatest number of coordinates that sanitization takes: two to the
/// power 40, below which its sums fit in 128 bits.
pub const MAX_SANITIZED_LENGTH: u64 = 0x100_0000_0000;

/// Whether `n` is a power of two.
pub open spec fn spec_is_power_of_two(n: nat) -> bool
    decreases n,
{
    if n <= 1 {
        n == 1
    } else {
        n % 2 == 0 && spec_is_power_of_two(n / 2)
    }
}

/// Whether `size` is one of the common embedding sizes.
pub open spec fn is_common_size(size: usize) -> bool {
    size == 16 || size == 32 || size == 64 || size == 128 || size == 256 || size == 384 || size
        == 512 || size == 768 || size == 1024 || size == 1536 || size == 2048
}

/// Whether `size` is a recommended embedding size: a common size or a
/// power of two.
pub open spec fn is_recommended_size(size: usize) -> bool {
    is_common_size(size) || spec_is_power_of_two(size as nat)
}

/// Whether `size` passes `validate_embedding_size`.
pub open spec fn is_acceptable_size(size: usize) -> bool {
    embedding_size_in_range(size) && is_recommended_size(size)
}

/// Whether every commitment of `content` has 32 bytes.
pub open spec fn commitments_sized(content: ProofContent) -> bool {
    forall|i: int|
        0 <= i < content.commitments.len() ==> (#[trigger] content.commitments[i]).len() == 32
}

/// Whether proof bytes are there and not too many.
pub open spec fn proof_bytes_admissible(content: ProofContent) -> bool {
    0 < content.proof.len() <= MAX_PROOF_SIZE
}

/// Whether the public inputs lie in their ranges.
pub open spec fn public_inputs_admissible(content: ProofContent) -> bool {
    threshold_in_range(content.threshold) && is_acceptable_size(content.embedding_size)
}

/// Whether the commitment digest and the commitments have their shape: a
/// digest of 32 bytes, and two commitments of 32 bytes for every
/// coordinate.
pub open spec fn commitments_admissible(content: ProofContent) -> bool {
    &&& content.commitment_hash.len() == 32
    &&& content.commitments.len() == 2 * content.embedding_size
    &&& commitments_sized(content)
}

/// Whether the metadata is filled in.
pub open spec fn metadata_admissible(content: ProofContent) -> bool {
    content.timestamp != 0 && content.version.len() != 0
}

/// Whether `content` passes `validate_proof`.
pub open spec fn is_valid_proof(content: ProofContent) -> bool {
    &&& proof_bytes_admissible(content)
    &&& public_inputs_admissible(content)
    &&& commitments_admissible(content)
    &&& metadata_admissible(content)
}

/// `x`, confined to `[-MAX_ABS_VALUE, MAX_ABS_VALUE]`.
pub open spec fn spec_clamp(x: i64) -> i64 {
    if x < -MAX_ABS_VALUE {
        (-MAX_ABS_VALUE) as i64
    } else if x > MAX_ABS_VALUE {
        MAX_ABS_VALUE
    } else {
        x
    }
}

/// The sum of the coordinates.
pub open spec fn spec_total(data: Seq<i64>) -> int
    decreases data.len(),
{
    if data.len() == 0 {
        0
    } else {
        spec_total(data.drop_last()) + data.last()
    }
}

/// The sum of the squares of the coordinates.
pub open spec fn spec_square_total(data: Seq<i64>) -> int
    decreases data.len(),
{
    if data.len() == 0 {
        0
    } else {
        spec_square_total(data.drop_last()) + data.last() * data.last()
    }
}

/// The square of three standard deviations, scaled by the square of the
/// number of coordinates: `9 * (n * sum(x²) - sum(x)²)`.
pub open spec fn spec_spread(data: Seq<i64>) -> int {
    9 * (data.len() * spec_square_total(data) - spec_total(data) * spec_total(data))
}

/// Whether `x` lies more than three standard deviations from the mean of
/// `data`: `(n * x - sum(x))² > 9 * (n * sum(x²) - sum(x)²)`, where the
/// right-hand side is positive.
pub open spec fn is_outlier(x: i64, data: Seq<i64>) -> bool {
    let deviation = data.len() * x - spec_total(data);
    spec_spread(data) > 0 && deviation * deviation > spec_spread(data)
}

/// `a / n`, rounded towards zero.
pub open spec fn spec_truncated_quotient(a: int, n: int) -> int {
    if a >= 0 {
        a / n
    } else {
        -((-a) / n)
    }
}

/// The least integer that is at least the square root of `spread`, where
/// `root` is the integer square root of `spread`.
pub open spec fn ceiling_root(spread: int, root: int) -> int {
    if root * root == spread {
        root
    } else {
        root + 1
    }
}

/// `(total + sqrt(spread)) / n`, rounded towards zero, where `root` is the
/// integer square root of `spread`.  A quotient that is not negative is
/// rounded down, and so is the root; a negative quotient is rounded up,
/// and so is the root.
pub open spec fn upper_boundary(total: int, spread: int, root: int, n: int) -> int {
    if total + root >= 0 {
        spec_truncated_quotient(total + root, n)
    } else {
        spec_truncated_quotient(total + ceiling_root(spread, root), n)
    }
}

/// `(total - sqrt(spread)) / n`, rounded towards zero, where `root` is the
/// integer square root of `spread`.  A quotient that is not negative is
/// rounded down, so the root is rounded up; a negative quotient is rounded
/// up, so the root is rounded down.
pub open spec fn lower_boundary(total: int, spread: int, root: int, n: int) -> int {
    if total - ceiling_root(spread, root) >= 0 {
        spec_truncated_quotient(total - ceiling_root(spread, root), n)
    } else {
        spec_truncated_quotient(total - root, n)
    }
}

/// What sanitization makes of the clamped coordinate `x` of the clamped
/// embedding `data`: an outlier moves to the boundary of three standard
/// deviations on its side of the mean, `(sum(x) ± sqrt(spread)) / n`
/// rounded towards zero, where `root` is the integer square root of the
/// spread; any other coordinate stays.
pub open spec fn spec_clipped(x: i64, data: Seq<i64>, root: int) -> int {
    if is_outlier(x, data) {
        if data.len() * x - spec_total(data) > 0 {
            upper_boundary(spec_total(data), spec_spread(data), root, data.len() as int)
        } else {
            lower_boundary(spec_total(data), spec_spread(data), root, data.len() as int)
        }
    } else {
        x as int
    }
}

/// Whether every coordinate lies in `[-MAX_ABS_VALUE, MAX_ABS_VALUE]`.
pub open spec fn all_clamped(data: Seq<i64>) -> bool {
    forall|i: int| 0 <= i < data.len() ==> -MAX_ABS_VALUE <= #[trigger] data[i] <= MAX_ABS_VALUE
}

/// `a / n`, rounded towards zero, for a positive `n`.
pub fn truncated_quotient(a: i128, n: i128) -> (q: i128)
    requires
        n > 0,
        a > i128::MIN,
    ensures
        q == spec_truncated_quotient(a as int, n as int),
{
    if a >= 0 {
        a / n
    } else {
        let magnitude: i128 = -a;
        let quotient: i128 = magnitude / n;
        -quotient
    }
}

/// The integer square root of a number of up to 128 bits, rounded down.
pub fn wide_integer_sqrt(n: u128) -> (root: u128)
    ensures
        is_integer_sqrt(n as int, root as int),
        root <= 0xffff_ffff_ffff_ffff,
{
    let mut lo: u128 = 0;
    let mut hi: u128 = 0x1_0000_0000_0000_0000;
    while hi - lo > 1
        invariant
            lo < hi <= 0x1_0000_0000_0000_0000,
            lo * lo <= n < hi * hi,
        decreases hi - lo,
    {
        let mid: u128 = lo + (hi - lo) / 2;
        assert(mid * mid < 0x1_0000_0000_0000_0000int * 0x1_0000_0000_0000_0000int)
            by (nonlinear_arith)
            requires
                0 <= mid < 0x1_0000_0000_0000_0000,
        ;
        if mid * mid <= n {
            lo = mid;
        } else {
            hi = mid;
        }
    }
    lo
}

/// The coordinates of `data`, each clamped.
pub open spec fn clamped(data: Seq<i64>) -> Seq<i64> {
    data.map_values(|x: i64| spec_clamp(x))
}

/// The spread where it is positive, and zero otherwise.
pub open spec fn positive_spread(data: Seq<i64>) -> int {
    if spec_spread(data) > 0 {
        spec_spread(data)
    } else {
        0
    }
}

/// A quotient of a number between `-100_000 * n` and `100_000 * n` by `n`,
/// rounded towards zero, lies between `-100_000` and `100_000`.
pub proof fn lemma_truncated_quotient_bounded(a: int, n: int)
    requires
        n >= 1,
        -100_000 * n <= a <= 100_000 * n,
    ensures
        -100_000 <= spec_truncated_quotient(a, n) <= 100_000,
{
    if a >= 0 {
        assert(0 <= a / n <= 100_000) by (nonlinear_arith)
            requires
                n >= 1,
                0 <= a <= 100_000 * n,
        ;
    } else {
        let b = -a;
        assert(0 <= b / n <= 100_000) by (nonlinear_arith)
            requires
                n >= 1,
                0 <= b <= 100_000 * n,
        ;
    }
}

/// The boundary that an outlier moves to lies between the mean and the
/// outlier, and so within the clamp.
pub proof fn lemma_boundary_within(total: int, root: int, n: int, x: int, spread: int)
    requires
        n >= 1,
        -100_000 * n <= total <= 100_000 * n,
        -100_000 <= x <= 100_000,
        root >= 0,
        root * root <= spread,
        (n * x - total) * (n * x - total) > spread,
    ensures
        n * x - total > 0 ==> -100_000 <= upper_boundary(total, spread, root, n) <= 100_000,
        n * x - total <= 0 ==> -100_000 <= lower_boundary(total, spread, root, n) <= 100_000,
{
    let deviation = n * x - total;
    let ceiling = ceiling_root(spread, root);
    assert(n * x <= 100_000 * n && n * x >= -100_000 * n) by (nonlinear_arith)
        requires
            n >= 1,
            -100_000 <= x <= 100_000,
    ;
    if deviation > 0 {
        assert(deviation > root) by (nonlinear_arith)
            requires
                deviation > 0,
                root >= 0,
                deviation * deviation > spread,
                root * root <= spread,
        ;
        lemma_truncated_quotient_bounded(total + root, n);
        lemma_truncated_quotient_bounded(total + ceiling, n);
    } else {
        assert(-deviation > root) by (nonlinear_arith)
            requires
                deviation <= 0,
                root >= 0,
                deviation * deviation > spread,
                root * root <= spread,
        ;
        lemma_truncated_quotient_bounded(total - root, n);
        lemma_truncated_quotient_bounded(total - ceiling, n);
    }
}

/// Checks on the inputs of the circuit.
pub struct ValidationUtils;

impl ValidationUtils {
    /// Succeeds exactly on an embedding fit for the circuit: at least one
    /// and at most `MAX_EMBEDDING_SIZE` coordinates, as many as `size`
    /// says, none of magnitude above `MAX_COORDINATE`.
    pub fn validate_embedding(embedding: &BiometricEmbedding) -> (res: CircuitResult<()>)
        ensures
            res is Ok <==> embedding.is_valid(),
            res matches Err(e) ==> e is InvalidEmbedding,
    {
        if embedding.size == 0 {
            return Err(CircuitError::InvalidEmbedding(reason("Embedding cannot be empty")));
        }
        if embedding.size > MAX_EMBEDDING_SIZE {
            return Err(CircuitError::InvalidEmbedding(reason("Embedding size exceeds maximum")));
        }
        if embedding.data.len() != embedding.size {
            return Err(CircuitError::InvalidEmbedding(reason("Data length does not match size")));
        }
        if !within_coordinate_bound(embedding.data.as_slice()) {
            return Err(CircuitError::InvalidEmbedding(reason("Embedding value is too large")));
        }
        Ok(())
    }

    /// Succeeds exactly on a threshold in
    /// `[MIN_THRESHOLD, MAX_THRESHOLD]`.
    pub fn validate_threshold(threshold: u64) -> (res: CircuitResult<()>)
        ensures
            res is Ok <==> threshold_in_range(threshold),
            res matches Err(e) ==> e is InvalidParameter,
    {
        if threshold < MIN_THRESHOLD {
            return Err(CircuitError::InvalidParameter(reason("Threshold is below minimum")));
        }
        if threshold > MAX_THRESHOLD {
            return Err(CircuitError::InvalidParameter(reason("Threshold exceeds maximum")));
        }
        Ok(())
    }

    /// Checks what can be said of an array of numbers before any of them
    /// is read: that it is not empty, that it has at most
    /// `MAX_EMBEDDING_SIZE` numbers, and that the factor they are to be
    /// scaled by is positive.  A wrong length is an invalid embedding; a
    /// wrong factor on a right length is an invalid parameter.
    pub fn float_array_shape(len: usize, scale_factor: i64) -> (res: CircuitResult<()>)
        ensures
            res is Ok <==> 0 < len <= MAX_EMBEDDING_SIZE && scale_factor > 0,
            res matches Err(e) ==> {
                if 0 < len <= MAX_EMBEDDING_SIZE {
                    e is InvalidParameter
                } else {
                    e is InvalidEmbedding
                }
            },
    {
        if len == 0 {
            return Err(CircuitError::InvalidEmbedding(reason("Float array cannot be empty")));
        }
        if len > MAX_EMBEDDING_SIZE {
            return Err(CircuitError::InvalidEmbedding(reason("Float array exceeds maximum size")));
        }
        if scale_factor <= 0 {
            return Err(CircuitError::InvalidParameter(reason("Scale factor must be positive")));
        }
        Ok(())
    }

    /// Whether `n` is a power of two.
    pub fn is_power_of_two(n: usize) -> (power: bool)
        ensures
            power == spec_is_power_of_two(n as nat),
    {
        if n == 0 {
            return false;
        }
        let mut rest: usize = n;
        while rest % 2 == 0
            invariant
                rest > 0,
                spec_is_power_of_two(rest as nat) == spec_is_power_of_two(n as nat),
            decreases rest,
        {
            rest = rest / 2;
        }
        rest == 1
    }

    /// Whether `size` is a common embedding size or a power of two.
    pub fn is_reasonable_embedding_size(size: usize) -> (reasonable: bool)
        ensures
            reasonable == is_recommended_size(size),
    {
        size == 16 || size == 32 || size == 64 || size == 128 || size == 256 || size == 384
            || size == 512 || size == 768 || size == 1024 || size == 1536 || size == 2048
            || ValidationUtils::is_power_of_two(size)
    }

    /// Succeeds exactly on a dimension between one and
    /// `MAX_EMBEDDING_SIZE` that is a common size or a power of two.
    pub fn validate_embedding_size(size: usize) -> (res: CircuitResult<()>)
        ensures
            res is Ok <==> is_acceptable_size(size),
            res matches Err(e) ==> e is InvalidParameter,
    {
        if size == 0 {
            return Err(CircuitError::InvalidParameter(reason("Embedding size cannot be zero")));
        }
        if size > MAX_EMBEDDING_SIZE {
            return Err(CircuitError::InvalidParameter(reason("Embedding size exceeds maximum")));
        }
        if !ValidationUtils::is_reasonable_embedding_size(size) {
            return Err(
                CircuitError::InvalidParameter(reason("Embedding size is not a recommended size")),
            );
        }
        Ok(())
    }

    /// Whether every commitment of `proof` has 32 bytes.
    pub fn commitments_have_size(proof: &BiometricProof) -> (sized: bool)
        ensures
            sized == commitments_sized(proof@),
    {
        let n: usize = proof.commitments.len();
        let mut i: usize = 0;
        while i < n
            invariant
                n == proof.commitments@.len(),
                0 <= i <= n,
                forall|k: int| 0 <= k < i ==> (#[trigger] proof@.commitments[k]).len() == 32,
            decreases n - i,
        {
            proof {
                assert(proof@.commitments[i as int] == proof.commitments@[i as int]@);
            }
            if proof.commitments[i].len() != 32 {
                return false;
            }
            i = i + 1;
        }
        true
    }

    /// Succeeds exactly on a well-formed proof record.  The checks run in
    /// this order, and the first that fails names the error: the proof
    /// bytes (`ProofVerificationFailed`), the public inputs
    /// (`InvalidParameter`), the commitment digest and the commitments
    /// (`InvalidCommitment`), the metadata (`InvalidParameter`).
    pub fn validate_proof(proof: &BiometricProof) -> (res: CircuitResult<()>)
        ensures
            res is Ok <==> is_valid_proof(proof@),
            res matches Err(e) ==> (if !proof_bytes_admissible(proof@) {
                e is ProofVerificationFailed
            } else if !public_inputs_admissible(proof@) {
                e is InvalidParameter
            } else if !commitments_admissible(proof@) {
                e is InvalidCommitment
            } else {
                e is InvalidParameter
            }),
    {
        if proof.proof.len() > MAX_PROOF_SIZE {
            return Err(
                CircuitError::ProofVerificationFailed(reason("Proof size exceeds maximum")),
            );
        }
        if proof.proof.len() == 0 {
            return Err(
                CircuitError::ProofVerificationFailed(reason("Proof data cannot be empty")),
            );
        }
        match ValidationUtils::validate_threshold(proof.public_inputs.threshold) {
            Ok(()) => {},
            Err(error) => {
                return Err(error);
            },
        }
        match ValidationUtils::validate_embedding_size(proof.public_inputs.embedding_size) {
            Ok(()) => {},
            Err(error) => {
                return Err(error);
            },
        }
        if proof.public_inputs.commitment_hash.len() != 32 {
            return Err(
                CircuitError::InvalidCommitment(reason("Invalid commitment hash length")),
            );
        }
        if proof.commitments.len() != 2 * proof.public_inputs.embedding_size {
            return Err(
                CircuitError::InvalidCommitment(reason("Wrong number of commitments")),
            );
        }
        if !ValidationUtils::commitments_have_size(proof) {
            return Err(CircuitError::InvalidCommitment(reason("Invalid commitment length")));
        }
        if proof.metadata.timestamp == 0 {
            return Err(
                CircuitError::InvalidParameter(reason("Invalid timestamp in proof metadata")),
            );
        }
        if proof.metadata.version.as_str().is_empty() {
            return Err(
                CircuitError::InvalidParameter(
                    reason("Version cannot be empty in proof metadata"),
                ),
            );
        }
        Ok(())
    }

    /// Succeeds exactly on two embeddings fit for the circuit and of one
    /// size.
    pub fn validate_embedding_compatibility(
        embedding1: &BiometricEmbedding,
        embedding2: &BiometricEmbedding,
    ) -> (res: CircuitResult<()>)
        ensures
            res is Ok <==> embedding1.is_valid() && embedding2.is_valid() && embedding1.size
                == embedding2.size,
            res matches Err(e) ==> e is InvalidEmbedding,
    {
        match ValidationUtils::validate_embedding(embedding1) {
            Ok(()) => {},
            Err(error) => {
                return Err(error);
            },
        }
        match ValidationUtils::validate_embedding(embedding2) {
            Ok(()) => {},
            Err(error) => {
                return Err(error);
            },
        }
        if embedding1.size != embedding2.size {
            return Err(CircuitError::InvalidEmbedding(reason("Embedding size mismatch")));
        }
        Ok(())
    }

    /// Sanitizes an embedding: clamps every coordinate to
    /// `[-MAX_ABS_VALUE, MAX_ABS_VALUE]`, then moves every coordinate that
    /// lies more than three standard deviations from the mean to the
    /// boundary of three standard deviations on its side.  Mean and
    /// deviation are those of the clamped coordinates, and all of it is
    /// exact integer arithmetic in 128 bits, which takes any embedding
    /// that a machine of today can hold: one of more than
    /// `MAX_SANITIZED_LENGTH` coordinates is rejected, untouched.
    pub fn sanitize_embedding(embedding: &mut BiometricEmbedding) -> (res: CircuitResult<()>)
        ensures
            res is Ok <==> old(embedding).data@.len() <= MAX_SANITIZED_LENGTH,
            res matches Err(e) ==> e is InvalidEmbedding && *final(embedding) == *old(embedding),
            res is Ok ==> {
                &&& final(embedding).size == old(embedding).size
                &&& final(embedding).normalized == old(embedding).normalized
                &&& final(embedding).data@.len() == old(embedding).data@.len()
                &&& all_clamped(final(embedding).data@)
                &&& exists|root: int|
                    {
                        &&& #[trigger] is_integer_sqrt(
                            positive_spread(clamped(old(embedding).data@)),
                            root,
                        )
                        &&& forall|i: int|
                            0 <= i < old(embedding).data@.len() ==> #[trigger] final(embedding).data@[i]
                                == spec_clipped(
                                clamped(old(embedding).data@)[i],
                                clamped(old(embedding).data@),
                                root,
                            )
                    }
            },
    {
        if embedding.data.len() as u64 > MAX_SANITIZED_LENGTH {
            return Err(CircuitError::InvalidEmbedding(reason("Embedding size exceeds maximum")));
        }
        let n: usize = embedding.data.len();
        let ghost before = embedding.data@;
        let ghost target = clamped(before);
        let mut total: i128 = 0;
        let mut squares: i128 = 0;
        let mut i: usize = 0;
        while i < n
            invariant
                n == embedding.data@.len(),
                n == before.len(),
                n <= MAX_SANITIZED_LENGTH,
                target == clamped(before),
                0 <= i <= n,
                embedding.size == old(embedding).size,
                embedding.normalized == old(embedding).normalized,
                forall|k: int| 0 <= k < i ==> #[trigger] embedding.data@[k] == target[k],
                forall|k: int| i <= k < n ==> #[trigger] embedding.data@[k] == before[k],
                total == spec_total(target.take(i as int)),
                squares == spec_square_total(target.take(i as int)),
                -100_000 * i <= total <= 100_000 * i,
                0 <= squares <= 10_000_000_000 * i,
            decreases n - i,
        {
            let x: i64 = embedding.data[i];
            let c: i64 = if x < -MAX_ABS_VALUE {
                -MAX_ABS_VALUE
            } else if x > MAX_ABS_VALUE {
                MAX_ABS_VALUE
            } else {
                x
            };
            proof {
                assert(target.take(i + 1).drop_last() =~= target.take(i as int));
                assert(0 <= c * c <= 10_000_000_000) by (nonlinear_arith)
                    requires
                        -100_000 <= c <= 100_000,
                ;
            }
            embedding.data.set(i, c);
            let wide: i128 = c as i128;
            total = total + wide;
            squares = squares + wide * wide;
            i = i + 1;
        }
        proof {
            assert(target.take(n as int) =~= target);
        }
        if n == 0 {
            proof {
                assert(is_integer_sqrt(positive_spread(target), 0));
            }
            return Ok(());
        }
        let count: i128 = n as i128;
        proof {
            assert(0 <= count * squares <= 0x100_0000_0000 * (10_000_000_000
                * 0x100_0000_0000)) by (nonlinear_arith)
                requires
                    0 <= count <= 0x100_0000_0000,
                    0 <= squares <= 10_000_000_000 * count,
            ;
            assert(0 <= total * total <= (100_000 * 0x100_0000_0000) * (100_000
                * 0x100_0000_0000)) by (nonlinear_arith)
                requires
                    -100_000 * 0x100_0000_0000 <= total <= 100_000 * 0x100_0000_0000,
            ;
        }
        let variance: i128 = count * squares - total * total;
        if variance <= 0 {
            proof {
                assert(is_integer_sqrt(positive_spread(target), 0));
            }
            return Ok(());
        }
        let spread: i128 = 9 * variance;
        let root: i128 = wide_integer_sqrt(spread as u128) as i128;
        proof {
            assert(0 <= root * root <= 0xffff_ffff_ffff_ffff * 0xffff_ffff_ffff_ffff)
                by (nonlinear_arith)
                requires
                    0 <= root <= 0xffff_ffff_ffff_ffff,
            ;
        }
        let ceiling: i128 = if root * root == spread {
            root
        } else {
            root + 1
        };
        proof {
            assert(positive_spread(target) == spread);
        }
        let mut j: usize = 0;
        while j < n
            invariant
                n == embedding.data@.len(),
                n == target.len(),
                1 <= n <= MAX_SANITIZED_LENGTH,
                count == n,
                0 <= j <= n,
                embedding.size == old(embedding).size,
                embedding.normalized == old(embedding).normalized,
                all_clamped(target),
                total == spec_total(target),
                spread == spec_spread(target),
                spread > 0,
                0 <= root <= 0xffff_ffff_ffff_ffff,
                is_integer_sqrt(spread as int, root as int),
                ceiling == ceiling_root(spread as int, root as int),
                -100_000 * n <= total <= 100_000 * n,
                forall|k: int|
                    0 <= k < j ==> #[trigger] embedding.data@[k] == spec_clipped(
                        target[k],
                        target,
                        root as int,
                    ),
                forall|k: int|
                    0 <= k < j ==> -MAX_ABS_VALUE <= #[trigger] embedding.data@[k]
                        <= MAX_ABS_VALUE,
                forall|k: int| j <= k < n ==> #[trigger] embedding.data@[k] == target[k],
            decreases n - j,
        {
            let x: i128 = embedding.data[j] as i128;
            proof {
                assert(-100_000 * 0x100_0000_0000 <= count * x <= 100_000 * 0x100_0000_0000)
                    by (nonlinear_arith)
                    requires
                        1 <= count <= 0x100_0000_0000,
                        -100_000 <= x <= 100_000,
                ;
            }
            let deviation: i128 = count * x - total;
            proof {
                assert(0 <= deviation * deviation
                    <= 48_357_032_784_585_166_988_247_040_000_000_000) by (nonlinear_arith)
                    requires
                        -219_902_325_555_200_000 <= deviation <= 219_902_325_555_200_000,
                ;
            }
            if deviation * deviation > spread {
                proof {
                    lemma_boundary_within(
                        total as int,
                        root as int,
                        count as int,
                        x as int,
                        spread as int,
                    );
                }
                let moved: i128 = if deviation > 0 {
                    if total + root >= 0 {
                        truncated_quotient(total + root, count)
                    } else {
                        truncated_quotient(total + ceiling, count)
                    }
                } else {
                    if total - ceiling >= 0 {
                        truncated_quotient(total - ceiling, count)
                    } else {
                        truncated_quotient(total - root, count)
                    }
                };
                embedding.data.set(j, moved as i64);
            }
            j = j + 1;
        }
        Ok(())
    }
}

} // verus!
