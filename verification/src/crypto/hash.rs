//! Digests of byte strings, of embeddings and of lists of commitments.

use vstd::prelude::*;
use vstd::bytes::spec_u64_from_le_bytes;
use vstd::bytes::spec_u64_to_le_bytes;
use vstd::bytes::u64_from_le_bytes;
use vstd::bytes::u64_to_le_bytes;
use crate::types::embedding::CircuitError;
use crate::types::embedding::CircuitResult;
use crate::types::embedding::reason;

verus! {

/// The BLAKE3 digest of `data` (32 bytes).
pub uninterp spec fn blake3_digest(data: Seq<u8>) -> Seq<u8>;

/// The SHA-256 digest of `data` (32 bytes).
pub uninterp spec fn sha256_digest(data: Seq<u8>) -> Seq<u8>;

/// `parts`, one after the other.
pub open spec fn concat_all(parts: Seq<Seq<u8>>) -> Seq<u8>
    decreases parts.len(),
{
    if parts.len() == 0 {
        Seq::<u8>::empty()
    } else {
        concat_all(parts.drop_last()) + parts.last()
    }
}

/// The eight little-endian bytes of the two's-complement form of each
/// coordinate, one coordinate after the other.
pub open spec fn embedding_bytes(embedding: Seq<i64>) -> Seq<u8>
    decreases embedding.len(),
{
    if embedding.len() == 0 {
        Seq::<u8>::empty()
    } else {
        embedding_bytes(embedding.drop_last()) + spec_u64_to_le_bytes(embedding.last() as u64)
    }
}

/// The eight little-endian bytes of each word, one word after the other.
pub open spec fn words_bytes(words: Seq<u64>) -> Seq<u8>
    decreases words.len(),
{
    if words.len() == 0 {
        Seq::<u8>::empty()
    } else {
        words_bytes(words.drop_last()) + spec_u64_to_le_bytes(words.last())
    }
}

/// The embeddings of a batch, one after the other.
pub open spec fn batch_coordinates(embeddings: Seq<Seq<i64>>) -> Seq<i64>
    decreases embeddings.len(),
{
    if embeddings.len() == 0 {
        Seq::<i64>::empty()
    } else {
        batch_coordinates(embeddings.drop_last()) + embeddings.last()
    }
}

/// The number that a digest of the field-friendly hash stands for: the
/// first eight bytes, read in little-endian order.
pub open spec fn spec_poseidon(inputs: Seq<u64>) -> u64 {
    spec_u64_from_le_bytes(blake3_digest(words_bytes(inputs)).take(8))
}

/// The bytes of an embedding grow coordinate by coordinate.
pub proof fn lemma_embedding_bytes_append(a: Seq<i64>, b: Seq<i64>)
    ensures
        embedding_bytes(a + b) == embedding_bytes(a) + embedding_bytes(b),
    decreases b.len(),
{
    if b.len() > 0 {
        lemma_embedding_bytes_append(a, b.drop_last());
        assert((a + b).drop_last() =~= a + b.drop_last());
    }
}

/// BLAKE3.  Calls `blake3::hash`, whose result is the 32-byte digest of its
/// argument.
#[verifier::external_body]
fn blake3_of(data: &[u8]) -> (digest: Vec<u8>)
    ensures
        digest@ == blake3_digest(data@),
        digest@.len() == 32,
{
    blake3::hash(data).as_bytes().to_vec()
}

/// SHA-256.  Calls `Sha256::digest` of `sha2`, whose result is the 32-byte
/// digest of its argument.
#[verifier::external_body]
fn sha256_of(data: &[u8]) -> (digest: Vec<u8>)
    ensures
        digest@ == sha256_digest(data@),
        digest@.len() == 32,
{
    <sha2::Sha256 as sha2::Digest>::digest(data).to_vec()
}

/// The bytes that `hash_embedding` digests.
pub fn encode_embedding(embedding: &[i64]) -> (bytes: Vec<u8>)
    ensures
        bytes@ == embedding_bytes(embedding@),
{
    let n: usize = embedding.len();
    let mut buffer: Vec<u8> = Vec::new();
    let mut i: usize = 0;
    while i < n
        invariant
            n == embedding@.len(),
            0 <= i <= n,
            buffer@ == embedding_bytes(embedding@.take(i as int)),
        decreases n - i,
    {
        let word: u64 = embedding[i] as u64;
        let mut encoded = u64_to_le_bytes(word);
        proof {
            assert(embedding@.take(i + 1).drop_last() =~= embedding@.take(i as int));
        }
        buffer.append(&mut encoded);
        i = i + 1;
    }
    proof {
        assert(embedding@.take(n as int) =~= embedding@);
    }
    buffer
}

/// The bytes that `poseidon_simulate` digests.
pub fn encode_words(words: &[u64]) -> (bytes: Vec<u8>)
    ensures
        bytes@ == words_bytes(words@),
{
    let n: usize = words.len();
    let mut buffer: Vec<u8> = Vec::new();
    let mut i: usize = 0;
    while i < n
        invariant
            n == words@.len(),
            0 <= i <= n,
            buffer@ == words_bytes(words@.take(i as int)),
        decreases n - i,
    {
        let mut encoded = u64_to_le_bytes(words[i]);
        proof {
            assert(words@.take(i + 1).drop_last() =~= words@.take(i as int));
        }
        buffer.append(&mut encoded);
        i = i + 1;
    }
    proof {
        assert(words@.take(n as int) =~= words@);
    }
    buffer
}

/// `parts`, one after the other, in one buffer.
pub fn concat_parts(parts: &[&[u8]]) -> (bytes: Vec<u8>)
    ensures
        bytes@ == concat_all(parts@.map_values(|p: &[u8]| p@)),
{
    let ghost views = parts@.map_values(|p: &[u8]| p@);
    let n: usize = parts.len();
    let mut buffer: Vec<u8> = Vec::new();
    let mut i: usize = 0;
    while i < n
        invariant
            n == parts@.len(),
            views == parts@.map_values(|p: &[u8]| p@),
            0 <= i <= n,
            buffer@ == concat_all(views.take(i as int)),
        decreases n - i,
    {
        proof {
            assert(views.take(i + 1).drop_last() =~= views.take(i as int));
        }
        buffer.extend_from_slice(parts[i]);
        i = i + 1;
    }
    proof {
        assert(views.take(n as int) =~= views);
    }
    buffer
}

/// Digests of byte strings, embeddings and lists of byte strings.
pub struct HashUtils;

impl HashUtils {
    /// The BLAKE3 digest of `data`.
    pub fn blake3_hash(data: &[u8]) -> (digest: Vec<u8>)
        ensures
            digest@ == blake3_digest(data@),
            digest@.len() == 32,
    {
        blake3_of(data)
    }

    /// The SHA-256 digest of `data`.
    pub fn sha256_hash(data: &[u8]) -> (digest: Vec<u8>)
        ensures
            digest@ == sha256_digest(data@),
            digest@.len() == 32,
    {
        sha256_of(data)
    }

    /// The BLAKE3 digest of the coordinates of an embedding, each as its
    /// eight little-endian bytes.
    pub fn hash_embedding(embedding: &[i64]) -> (digest: Vec<u8>)
        ensures
            digest@ == blake3_digest(embedding_bytes(embedding@)),
            digest@.len() == 32,
    {
        let bytes = encode_embedding(embedding);
        blake3_of(bytes.as_slice())
    }

    /// The BLAKE3 digest of `components`, one after the other.
    pub fn commitment_hash(components: &[&[u8]]) -> (digest: Vec<u8>)
        ensures
            digest@ == blake3_digest(concat_all(components@.map_values(|p: &[u8]| p@))),
            digest@.len() == 32,
    {
        let bytes = concat_parts(components);
        blake3_of(bytes.as_slice())
    }

    /// The BLAKE3 digest of the commitments of a proof, one after the
    /// other.
    pub fn commitments_digest(commitments: &Vec<Vec<u8>>) -> (digest: Vec<u8>)
        ensures
            digest@ == blake3_digest(concat_all(commitments@.map_values(|c: Vec<u8>| c@))),
            digest@.len() == 32,
    {
        let n: usize = commitments.len();
        let mut components: Vec<&[u8]> = Vec::new();
        let mut i: usize = 0;
        while i < n
            invariant
                n == commitments@.len(),
                0 <= i <= n,
                components@.len() == i,
                forall|k: int| 0 <= k < i ==> (#[trigger] components@[k])@ == commitments@[k]@,
            decreases n - i,
        {
            components.push(commitments[i].as_slice());
            i = i + 1;
        }
        proof {
            assert(components@.map_values(|p: &[u8]| p@) =~= commitments@.map_values(
                |c: Vec<u8>| c@,
            ));
        }
        HashUtils::commitment_hash(components.as_slice())
    }

    /// Whether the two digests are equal.  Every byte is looked at, whatever
    /// the outcome, so that the time taken tells nothing about where the
    /// digests differ.
    pub fn verify_hash(expected: &[u8], actual: &[u8]) -> (equal: bool)
        ensures
            equal == (expected@ == actual@),
    {
        if expected.len() != actual.len() {
            return false;
        }
        let n: usize = expected.len();
        let mut difference: u8 = 0;
        let mut i: usize = 0;
        while i < n
            invariant
                n == expected@.len(),
                n == actual@.len(),
                0 <= i <= n,
                difference == 0 <==> expected@.take(i as int) =~= actual@.take(i as int),
            decreases n - i,
        {
            let a: u8 = expected[i];
            let b: u8 = actual[i];
            let next: u8 = difference | (a ^ b);
            proof {
                assert((difference | (a ^ b)) == 0u8 <==> difference == 0u8 && a == b)
                    by (bit_vector);
                if expected@.take(i + 1) == actual@.take(i + 1) {
                    assert(expected@.take(i + 1)[i as int] == actual@.take(i + 1)[i as int]);
                }
            }
            difference = next;
            i = i + 1;
        }
        proof {
            assert(expected@.take(n as int) =~= expected@);
            assert(actual@.take(n as int) =~= actual@);
        }
        difference == 0
    }

    /// The BLAKE3 digest of the coordinates of all the embeddings of a
    /// batch, in order.
    pub fn hash_embedding_batch(embeddings: &[&[i64]]) -> (digest: Vec<u8>)
        ensures
            digest@ == blake3_digest(
                embedding_bytes(batch_coordinates(embeddings@.map_values(|e: &[i64]| e@))),
            ),
            digest@.len() == 32,
    {
        let ghost views = embeddings@.map_values(|e: &[i64]| e@);
        let n: usize = embeddings.len();
        let mut buffer: Vec<u8> = Vec::new();
        let mut i: usize = 0;
        while i < n
            invariant
                n == embeddings@.len(),
                views == embeddings@.map_values(|e: &[i64]| e@),
                0 <= i <= n,
                buffer@ == embedding_bytes(batch_coordinates(views.take(i as int))),
            decreases n - i,
        {
            let mut encoded = encode_embedding(embeddings[i]);
            proof {
                assert(views.take(i + 1).drop_last() =~= views.take(i as int));
                lemma_embedding_bytes_append(
                    batch_coordinates(views.take(i as int)),
                    embeddings@[i as int]@,
                );
            }
            buffer.append(&mut encoded);
            i = i + 1;
        }
        proof {
            assert(views.take(n as int) =~= views);
        }
        blake3_of(buffer.as_slice())
    }
}

/// A field-friendly hash of words, built on BLAKE3.
pub struct CircuitHash;

impl CircuitHash {
    /// The first eight bytes, read in little-endian order, of the BLAKE3
    /// digest of the words, each as its eight little-endian bytes.  Fails
    /// exactly on an empty input.
    pub fn poseidon_simulate(inputs: &[u64]) -> (res: CircuitResult<u64>)
        ensures
            res is Ok <==> inputs@.len() > 0,
            res matches Ok(h) ==> h == spec_poseidon(inputs@),
            res matches Err(e) ==> e is InvalidParameter,
    {
        if inputs.len() == 0 {
            return Err(CircuitError::InvalidParameter(reason("Cannot hash empty input")));
        }
        let bytes = encode_words(inputs);
        let digest = blake3_of(bytes.as_slice());
        let mut head: Vec<u8> = Vec::new();
        let mut i: usize = 0;
        while i < 8
            invariant
                0 <= i <= 8,
                digest@.len() == 32,
                head@ == digest@.take(i as int),
            decreases 8 - i,
        {
            head.push(digest[i]);
            i = i + 1;
        }
        Ok(u64_from_le_bytes(head.as_slice()))
    }

    /// The hash of the two words `left` and `right`.  Never fails.
    pub fn hash_pair(left: u64, right: u64) -> (res: CircuitResult<u64>)
        ensures
            res matches Ok(h) && h == spec_poseidon(seq![left, right]),
    {
        let mut pair: Vec<u64> = Vec::new();
        pair.push(left);
        pair.push(right);
        proof {
            assert(pair@ =~= seq![left, right]);
        }
        CircuitHash::poseidon_simulate(pair.as_slice())
    }
}

} // verus!
