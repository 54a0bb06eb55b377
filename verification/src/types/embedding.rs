//! Errors, embeddings and the integer arithmetic on embeddings.

use vstd::prelude::*;
use crate::config::MAX_COORDINATE;
use crate::config::MAX_EMBEDDING_SIZE;

verus! {

/// Everything that can go wrong in the library.  Each variant but the last
/// carries a short human-readable reason.
#[derive(Debug, Clone, PartialEq, Eq)]
pub enum CircuitError {
    /// An argument is malformed or out of range.
    InvalidParameter(String),
    /// The underlying protocol refused to produce a proof.
    ProofGenerationFailed(String),
    /// A proof is structurally unfit to be verified.
    ProofVerificationFailed(String),
    /// Wire data is truncated or malformed.
    SerializationError(String),
    /// A field or group operation met a value it cannot handle.
    CryptographicError(String),
    /// A commitment or commitment digest is structurally defective.
    InvalidCommitment(String),
    /// An embedding has the wrong shape or too large a coordinate.
    InvalidEmbedding(String),
    /// The witness distance is above the threshold: no proof exists.
    ThresholdExceeded { expected: u64, actual: u64 },
}

/// Result type of the library's fallible operations.
pub type CircuitResult<T> = Result<T, CircuitError>;

/// Owned copy of a reason text.
pub fn reason(text: &str) -> (s: String)
    ensures
        s@ == text@,
{
    text.to_owned()
}

impl CircuitError {
    /// The name of the variant, for messages and logs.
    pub fn kind(&self) -> (s: String)
        ensures
            s@ == (match *self {
                CircuitError::InvalidParameter(_) => "Invalid parameter"@,
                CircuitError::ProofGenerationFailed(_) => "Proof generation failed"@,
                CircuitError::ProofVerificationFailed(_) => "Proof verification failed"@,
                CircuitError::SerializationError(_) => "Serialization error"@,
                CircuitError::CryptographicError(_) => "Cryptographic error"@,
                CircuitError::InvalidCommitment(_) => "Invalid commitment"@,
                CircuitError::InvalidEmbedding(_) => "Invalid embedding data"@,
                CircuitError::ThresholdExceeded { .. } => "Threshold exceeded"@,
            }),
    {
        match self {
            CircuitError::InvalidParameter(_) => reason("Invalid parameter"),
            CircuitError::ProofGenerationFailed(_) => reason("Proof generation failed"),
            CircuitError::ProofVerificationFailed(_) => reason("Proof verification failed"),
            CircuitError::SerializationError(_) => reason("Serialization error"),
            CircuitError::CryptographicError(_) => reason("Cryptographic error"),
            CircuitError::InvalidCommitment(_) => reason("Invalid commitment"),
            CircuitError::InvalidEmbedding(_) => reason("Invalid embedding data"),
            CircuitError::ThresholdExceeded { .. } => reason("Threshold exceeded"),
        }
    }
}

/// Every coordinate lies in `[-MAX_COORDINATE, MAX_COORDINATE]`.
pub open spec fn coordinates_bounded(data: Seq<i64>) -> bool {
    forall|i: int| 0 <= i < data.len() ==> -MAX_COORDINATE <= #[trigger] data[i] <= MAX_COORDINATE
}

/// The squared Euclidean distance of two integer vectors of one length
/// (zero where the lengths differ).
pub open spec fn spec_squared_distance(a: Seq<i64>, b: Seq<i64>) -> int
    decreases a.len(),
{
    if a.len() == 0 || a.len() != b.len() {
        0
    } else {
        spec_squared_distance(a.drop_last(), b.drop_last()) + (a.last() - b.last()) * (a.last()
            - b.last())
    }
}

/// The sum of the squares of the coordinates.
pub open spec fn spec_norm_squared(a: Seq<i64>) -> int
    decreases a.len(),
{
    if a.len() == 0 {
        0
    } else {
        spec_norm_squared(a.drop_last()) + a.last() * a.last()
    }
}

/// Whether `root` is the integer square root of `n`, rounded down.
pub open spec fn is_integer_sqrt(n: int, root: int) -> bool {
    0 <= root && root * root <= n < (root + 1) * (root + 1)
}

/// `value * 1000 / norm`, rounded towards zero.
pub open spec fn spec_scaled(value: int, norm: int) -> int {
    if value >= 0 {
        (value * 1000) / norm
    } else {
        -(((-value) * 1000) / norm)
    }
}

/// The largest squared difference of two bounded coordinates.
pub open spec fn max_squared_step() -> int {
    4_000_000_000_000
}

/// One more term of a squared distance over bounded coordinates adds at
/// most `max_squared_step()`.
pub proof fn lemma_squared_step_bounded(x: i64, y: i64)
    requires
        -MAX_COORDINATE <= x <= MAX_COORDINATE,
        -MAX_COORDINATE <= y <= MAX_COORDINATE,
    ensures
        0 <= (x - y) * (x - y) <= max_squared_step(),
{
    let d: int = x - y;
    assert(0 <= d * d <= 4_000_000_000_000) by (nonlinear_arith)
        requires
            -2_000_000 <= d <= 2_000_000,
    ;
}

/// A squared distance over bounded coordinates is at most
/// `len * max_squared_step()`.
pub proof fn lemma_squared_distance_bounded(a: Seq<i64>, b: Seq<i64>)
    requires
        a.len() == b.len(),
        coordinates_bounded(a),
        coordinates_bounded(b),
    ensures
        0 <= spec_squared_distance(a, b) <= a.len() * max_squared_step(),
    decreases a.len(),
{
    if a.len() > 0 {
        lemma_squared_distance_bounded(a.drop_last(), b.drop_last());
        lemma_squared_step_bounded(a.last(), b.last());
    }
}

/// No coordinate has a square above the sum of all squares.
pub proof fn lemma_norm_squared_dominates(a: Seq<i64>, k: int)
    requires
        0 <= k < a.len(),
    ensures
        0 <= a[k] * a[k] <= spec_norm_squared(a),
    decreases a.len(),
{
    let x: int = a.last() as int;
    assert(0 <= x * x) by (nonlinear_arith);
    lemma_norm_squared_nonnegative(a.drop_last());
    if k < a.len() - 1 {
        lemma_norm_squared_dominates(a.drop_last(), k);
    }
}

/// A sum of squares is never negative.
pub proof fn lemma_norm_squared_nonnegative(a: Seq<i64>)
    ensures
        0 <= spec_norm_squared(a),
    decreases a.len(),
{
    if a.len() > 0 {
        lemma_norm_squared_nonnegative(a.drop_last());
        let x: int = a.last() as int;
        assert(0 <= x * x) by (nonlinear_arith);
    }
}

/// The squared Euclidean distance of two equally long vectors with bounded
/// coordinates.
pub fn squared_distance(a: &[i64], b: &[i64]) -> (d: u64)
    requires
        a@.len() == b@.len(),
        a@.len() <= MAX_EMBEDDING_SIZE,
        coordinates_bounded(a@),
        coordinates_bounded(b@),
    ensures
        d == spec_squared_distance(a@, b@),
{
    let n: usize = a.len();
    let mut sum: u64 = 0;
    let mut i: usize = 0;
    while i < n
        invariant
            n == a@.len(),
            n == b@.len(),
            n <= MAX_EMBEDDING_SIZE,
            0 <= i <= n,
            coordinates_bounded(a@),
            coordinates_bounded(b@),
            sum == spec_squared_distance(a@.take(i as int), b@.take(i as int)),
            sum <= i * max_squared_step(),
        decreases n - i,
    {
        let x: i64 = a[i];
        let y: i64 = b[i];
        proof {
            lemma_squared_step_bounded(x, y);
            assert(a@.take(i + 1).drop_last() =~= a@.take(i as int));
            assert(b@.take(i + 1).drop_last() =~= b@.take(i as int));
        }
        let diff: i64 = x - y;
        let square: i64 = diff * diff;
        sum = sum + (square as u64);
        i = i + 1;
    }
    proof {
        assert(a@.take(n as int) =~= a@);
        assert(b@.take(n as int) =~= b@);
    }
    sum
}

/// The integer square root of `n`, rounded down.
pub fn integer_sqrt(n: u64) -> (root: u64)
    ensures
        is_integer_sqrt(n as int, root as int),
        root <= 0xffff_ffff,
{
    let mut lo: u64 = 0;
    let mut hi: u64 = 0x1_0000_0000;
    while hi - lo > 1
        invariant
            lo < hi <= 0x1_0000_0000,
            lo * lo <= n < hi * hi,
        decreases hi - lo,
    {
        let mid: u64 = lo + (hi - lo) / 2;
        assert(mid * mid < 0x1_0000_0000int * 0x1_0000_0000int) by (nonlinear_arith)
            requires
                0 <= mid < 0x1_0000_0000,
        ;
        if mid * mid <= n {
            lo = mid;
        } else {
            hi = mid;
        }
    }
    lo
}

/// A biometric embedding: a vector of signed fixed-point coordinates.
#[derive(Debug, Clone)]
pub struct BiometricEmbedding {
    pub data: Vec<i64>,
    pub size: usize,
    pub normalized: bool,
}

impl BiometricEmbedding {
    /// The shape invariant: `size` is the number of coordinates, which is
    /// positive and at most `MAX_EMBEDDING_SIZE`.
    pub open spec fn well_shaped(&self) -> bool {
        &&& self.size == self.data@.len()
        &&& 0 < self.size <= MAX_EMBEDDING_SIZE
    }

    /// The full invariant of an embedding fit for the circuit: well shaped,
    /// and every coordinate of magnitude at most `MAX_COORDINATE`.
    pub open spec fn is_valid(&self) -> bool {
        self.well_shaped() && coordinates_bounded(self.data@)
    }

    /// Wraps `data`, rejecting an empty vector and one longer than
    /// `MAX_EMBEDDING_SIZE`.
    pub fn new(data: Vec<i64>) -> (res: CircuitResult<Self>)
        ensures
            res is Ok <==> 0 < data@.len() <= MAX_EMBEDDING_SIZE,
            res matches Ok(e) ==> e.well_shaped() && e.data@ == data@ && !e.normalized,
            res matches Err(e) ==> e is InvalidEmbedding,
    {
        if data.len() == 0 {
            return Err(CircuitError::InvalidEmbedding(reason("Embedding data cannot be empty")));
        }
        let size: usize = data.len();
        if size > MAX_EMBEDDING_SIZE {
            return Err(CircuitError::InvalidEmbedding(reason("Embedding size exceeds maximum")));
        }
        Ok(BiometricEmbedding { data, size, normalized: false })
    }

    /// Rescales the embedding so that its Euclidean length becomes about
    /// 1000: every coordinate `x` becomes `x * 1000 / norm`, rounded towards
    /// zero, where `norm` is the integer square root of the sum of squares.
    /// Fails, leaving the embedding untouched, when it is empty or all zero.
    pub fn normalize(&mut self) -> (res: CircuitResult<()>)
        requires
            old(self).data@.len() <= MAX_EMBEDDING_SIZE,
            coordinates_bounded(old(self).data@),
        ensures
            res is Ok <==> old(self).data@.len() > 0 && spec_norm_squared(old(self).data@) > 0,
            res matches Err(e) ==> e is InvalidEmbedding && *final(self) == *old(self),
            res is Ok ==> {
                &&& final(self).normalized
                &&& final(self).size == old(self).size
                &&& final(self).data@.len() == old(self).data@.len()
                &&& exists|norm: int|
                    {
                        &&& norm > 0
                        &&& #[trigger] is_integer_sqrt(spec_norm_squared(old(self).data@), norm)
                        &&& forall|i: int|
                            0 <= i < old(self).data@.len() ==> #[trigger] final(self).data@[i]
                                == spec_scaled(old(self).data@[i] as int, norm)
                    }
                &&& coordinates_bounded(final(self).data@)
            },
    {
        if self.data.len() == 0 {
            return Err(CircuitError::InvalidEmbedding(reason("Cannot normalize empty embedding")));
        }
        let n: usize = self.data.len();
        let mut norm_squared: u64 = 0;
        let mut i: usize = 0;
        while i < n
            invariant
                n == self.data@.len(),
                n <= MAX_EMBEDDING_SIZE,
                0 <= i <= n,
                coordinates_bounded(self.data@),
                norm_squared == spec_norm_squared(self.data@.take(i as int)),
                norm_squared <= i * 1_000_000_000_000,
            decreases n - i,
        {
            let x: i64 = self.data[i];
            proof {
                assert(self.data@.take(i + 1).drop_last() =~= self.data@.take(i as int));
            }
            assert(0 <= x * x <= 1_000_000_000_000) by (nonlinear_arith)
                requires
                    -1_000_000 <= x <= 1_000_000,
            ;
            let square: i64 = x * x;
            norm_squared = norm_squared + (square as u64);
            i = i + 1;
        }
        proof {
            assert(self.data@.take(n as int) =~= self.data@);
        }
        let norm: u64 = integer_sqrt(norm_squared);
        if norm == 0 {
            return Err(CircuitError::InvalidEmbedding(reason("Cannot normalize zero vector")));
        }
        assert(norm_squared > 0) by (nonlinear_arith)
            requires
                norm * norm <= norm_squared,
                norm > 0,
        ;
        let ghost before = self.data@;
        let mut j: usize = 0;
        while j < n
            invariant
                n == self.data@.len(),
                n == before.len(),
                0 <= j <= n,
                0 < norm <= 0xffff_ffff,
                coordinates_bounded(before),
                is_integer_sqrt(spec_norm_squared(before), norm as int),
                self.size == old(self).size,
                self.normalized == old(self).normalized,
                forall|k: int| 0 <= k < j ==> #[trigger] self.data@[k] == spec_scaled(before[k] as int, norm as int),
                forall|k: int| 0 <= k < j ==> -MAX_COORDINATE <= #[trigger] self.data@[k] <= MAX_COORDINATE,
                forall|k: int| j <= k < n ==> #[trigger] self.data@[k] == before[k],
            decreases n - j,
        {
            let x: i64 = self.data[j];
            proof {
                lemma_norm_squared_dominates(before, j as int);
                let r: int = norm as int;
                let v: int = x as int;
                assert(-r <= v <= r) by (nonlinear_arith)
                    requires
                        v * v < (r + 1) * (r + 1),
                        r >= 0,
                ;
            }
            let scaled: i64 = scale_coordinate(x, norm);
            self.data.set(j, scaled);
            j = j + 1;
        }
        self.normalized = true;
        Ok(())
    }

    /// The squared Euclidean distance to `other`; fails when the two
    /// embeddings differ in size.
    pub fn compute_distance_squared(&self, other: &Self) -> (res: CircuitResult<u64>)
        requires
            self.is_valid(),
            other.is_valid(),
        ensures
            res is Ok <==> self.size == other.size,
            res matches Ok(d) ==> d == spec_squared_distance(self.data@, other.data@),
            res matches Err(e) ==> e is InvalidEmbedding,
    {
        if self.size != other.size {
            return Err(CircuitError::InvalidEmbedding(reason("Embedding size mismatch")));
        }
        Ok(squared_distance(self.data.as_slice(), other.data.as_slice()))
    }
}

/// `value * 1000 / norm`, rounded towards zero, for a bounded coordinate.
pub fn scale_coordinate(value: i64, norm: u64) -> (scaled: i64)
    requires
        -MAX_COORDINATE <= value <= MAX_COORDINATE,
        0 < norm <= 0xffff_ffff,
        -norm <= value <= norm,
    ensures
        scaled == spec_scaled(value as int, norm as int),
        -1000 <= scaled <= 1000,
{
    let magnitude: u64 = if value >= 0 {
        value as u64
    } else {
        (-value) as u64
    };
    let quotient: u64 = (magnitude * 1000) / norm;
    proof {
        let m: int = magnitude as int * 1000;
        let d: int = norm as int;
        assert(0 <= m / d <= 1000) by (nonlinear_arith)
            requires
                0 <= m <= 1000 * d,
                1 <= d,
        ;
    }
    if value >= 0 {
        quotient as i64
    } else {
        -(quotient as i64)
    }
}

/// A commitment to biometric data as it is stored: the commitment itself,
/// the blinding factor that opens it, and a digest binding the two.
#[derive(Debug, Clone)]
pub struct BiometricCommitment {
    pub commitment: Vec<u8>,
    pub blinding_factor: Vec<u8>,
    pub hash: Vec<u8>,
}

impl BiometricCommitment {
    /// Bundles the three byte strings unchanged.
    pub fn new(commitment: Vec<u8>, blinding_factor: Vec<u8>, hash: Vec<u8>) -> (c: Self)
        ensures
            c.commitment@ == commitment@,
            c.blinding_factor@ == blinding_factor@,
            c.hash@ == hash@,
    {
        BiometricCommitment { commitment, blinding_factor, hash }
    }
}

} // verus!
