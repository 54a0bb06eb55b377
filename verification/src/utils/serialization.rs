//! The wire forms of a proof record: the length-prefixed binary form, and
//! its hexadecimal and base64 transcriptions.

use vstd::prelude::*;
use vstd::bytes::lemma_auto_spec_u32_to_from_le_bytes;
use vstd::bytes::lemma_auto_spec_u64_to_from_le_bytes;
use vstd::bytes::spec_u32_from_le_bytes;
use vstd::bytes::spec_u32_to_le_bytes;
use vstd::bytes::spec_u64_from_le_bytes;
use vstd::bytes::spec_u64_to_le_bytes;
use vstd::bytes::u32_from_le_bytes;
use vstd::bytes::u32_to_le_bytes;
use vstd::bytes::u64_from_le_bytes;
use vstd::bytes::u64_to_le_bytes;
use vstd::slice::slice_subrange;
use vstd::slice::slice_to_vec;
use vstd::utf8::decode_utf8;
use vstd::utf8::encode_utf8;
use vstd::utf8::encode_utf8_decode_utf8;
use vstd::utf8::encode_utf8_valid_utf8;
use vstd::utf8::valid_utf8;
use crate::config::AGGREGATION_SIZE;
use crate::config::RANGE_BITS;
use crate::config::TRANSCRIPT_LABEL;
use crate::types::embedding::CircuitError;
use crate::types::embedding::CircuitResult;
use crate::types::embedding::reason;
use crate::types::proof_data::BiometricProof;
use crate::types::proof_data::CircuitParams;
use crate::types::proof_data::ProofContent;
use crate::types::proof_data::ProofMetadata;
use crate::types::proof_data::ProofPublicInputs;

verus! {

/// A byte string behind its length, as four little-endian bytes.
pub open spec fn put_block(block: Seq<u8>) -> Seq<u8> {
    spec_u32_to_le_bytes(block.len() as u32) + block
}

/// Byte strings, each behind its length, one after the other.
pub open spec fn put_blocks(blocks: Seq<Seq<u8>>) -> Seq<u8>
    decreases blocks.len(),
{
    if blocks.len() == 0 {
        Seq::<u8>::empty()
    } else {
        put_blocks(blocks.drop_last()) + put_block(blocks.last())
    }
}

/// Whether every length in `content` fits the four bytes the binary form
/// has for it.
pub open spec fn encodable(content: ProofContent) -> bool {
    &&& content.proof.len() <= u32::MAX
    &&& content.commitments.len() <= u32::MAX
    &&& forall|i: int|
        0 <= i < content.commitments.len() ==> (#[trigger] content.commitments[i]).len()
            <= u32::MAX
    &&& content.embedding_size <= u32::MAX
    &&& content.commitment_hash.len() <= u32::MAX
    &&& encode_utf8(content.version).len() <= u32::MAX
}

/// The binary form of `content`:
/// proof, number of commitments, commitments, threshold, dimension,
/// commitment digest, timestamp, version; every byte string behind its
/// length, every number in little-endian order.
pub open spec fn binary_form(content: ProofContent) -> Seq<u8> {
    put_block(content.proof) + spec_u32_to_le_bytes(content.commitments.len() as u32)
        + put_blocks(content.commitments) + spec_u64_to_le_bytes(content.threshold)
        + spec_u32_to_le_bytes(content.embedding_size as u32) + put_block(
        content.commitment_hash,
    ) + spec_u64_to_le_bytes(content.timestamp) + put_block(encode_utf8(content.version))
}

/// The 32-bit number at position `at` and the position behind it; `None`
/// where fewer than four bytes are left.
pub open spec fn take_u32(data: Seq<u8>, at: int) -> Option<(u32, int)> {
    if 0 <= at && at + 4 <= data.len() {
        Some((spec_u32_from_le_bytes(data.subrange(at, at + 4)), at + 4))
    } else {
        None
    }
}

/// The 64-bit number at position `at` and the position behind it; `None`
/// where fewer than eight bytes are left.
pub open spec fn take_u64(data: Seq<u8>, at: int) -> Option<(u64, int)> {
    if 0 <= at && at + 8 <= data.len() {
        Some((spec_u64_from_le_bytes(data.subrange(at, at + 8)), at + 8))
    } else {
        None
    }
}

/// The length-prefixed byte string at position `at` and the position
/// behind it; `None` where the length or the bytes it announces are not
/// there.
pub open spec fn take_block(data: Seq<u8>, at: int) -> Option<(Seq<u8>, int)> {
    match take_u32(data, at) {
        Some((length, start)) => {
            if start + length <= data.len() {
                Some((data.subrange(start, start + length), start + length))
            } else {
                None
            }
        },
        None => None,
    }
}

/// `count` length-prefixed byte strings from position `at` on, and the
/// position behind them.
pub open spec fn take_blocks(data: Seq<u8>, at: int, count: nat) -> Option<(Seq<Seq<u8>>, int)>
    decreases count,
{
    if count == 0 {
        Some((Seq::<Seq<u8>>::empty(), at))
    } else {
        match take_block(data, at) {
            Some((block, next)) => match take_blocks(data, next, (count - 1) as nat) {
                Some((blocks, end)) => Some((seq![block] + blocks, end)),
                None => None,
            },
            None => None,
        }
    }
}

/// The record that `data` is the binary form of; `None` where `data` is
/// truncated or its version is not UTF-8.  Bytes behind the record are not
/// looked at.  The circuit parameters, which the binary form does not
/// carry, are this library's.
pub open spec fn parse_binary(data: Seq<u8>) -> Option<ProofContent> {
    match take_block(data, 0) {
        Some((proof, at1)) => match take_u32(data, at1) {
            Some((count, at2)) => match take_blocks(data, at2, count as nat) {
                Some((commitments, at3)) => match take_u64(data, at3) {
                    Some((threshold, at4)) => match take_u32(data, at4) {
                        Some((embedding_size, at5)) => match take_block(data, at5) {
                            Some((commitment_hash, at6)) => match take_u64(data, at6) {
                                Some((timestamp, at7)) => match take_block(data, at7) {
                                    Some((version, _)) => {
                                        if valid_utf8(version) {
                                            Some(
                                                ProofContent {
                                                    proof,
                                                    commitments,
                                                    threshold,
                                                    embedding_size: embedding_size as usize,
                                                    commitment_hash,
                                                    timestamp,
                                                    version: decode_utf8(version),
                                                    range_bits: RANGE_BITS,
                                                    aggregation_size: AGGREGATION_SIZE,
                                                    transcript_label: TRANSCRIPT_LABEL@,
                                                },
                                            )
                                        } else {
                                            None
                                        }
                                    },
                                    None => None,
                                },
                                None => None,
                            },
                            None => None,
                        },
                        None => None,
                    },
                    None => None,
                },
                None => None,
            },
            None => None,
        },
        None => None,
    }
}

/// A number written at `at` is read back from there.
pub proof fn lemma_take_put_u32(data: Seq<u8>, at: int, x: u32)
    requires
        0 <= at,
        at + 4 <= data.len(),
        data.subrange(at, at + 4) == spec_u32_to_le_bytes(x),
    ensures
        take_u32(data, at) == Some((x, at + 4)),
{
    lemma_auto_spec_u32_to_from_le_bytes();
    assert(spec_u32_to_le_bytes(x).len() == 4);
}

/// A number written at `at` is read back from there.
pub proof fn lemma_take_put_u64(data: Seq<u8>, at: int, x: u64)
    requires
        0 <= at,
        at + 8 <= data.len(),
        data.subrange(at, at + 8) == spec_u64_to_le_bytes(x),
    ensures
        take_u64(data, at) == Some((x, at + 8)),
{
    lemma_auto_spec_u64_to_from_le_bytes();
}

/// A block written at `at` is read back from there.
pub proof fn lemma_take_put_block(data: Seq<u8>, at: int, block: Seq<u8>)
    requires
        0 <= at,
        block.len() <= u32::MAX,
        at + put_block(block).len() <= data.len(),
        data.subrange(at, at + put_block(block).len()) == put_block(block),
    ensures
        put_block(block).len() == 4 + block.len(),
        take_block(data, at) == Some((block, at + 4 + block.len())),
{
    lemma_auto_spec_u32_to_from_le_bytes();
    let written = put_block(block);
    let length = block.len() as u32;
    assert(data.subrange(at, at + 4) =~= written.subrange(0, 4));
    assert(written.subrange(0, 4) =~= spec_u32_to_le_bytes(length));
    lemma_take_put_u32(data, at, length);
    let end = 4 + block.len() as int;
    assert(data.subrange(at + 4, at + end) =~= written.subrange(4, end));
}

/// The blocks of a longer list start with the blocks of a shorter one.
pub proof fn lemma_put_blocks_front(first: Seq<u8>, rest: Seq<Seq<u8>>)
    ensures
        put_blocks(seq![first] + rest) == put_block(first) + put_blocks(rest),
    decreases rest.len(),
{
    let all = seq![first] + rest;
    if rest.len() == 0 {
        assert(put_blocks(all.drop_last()) =~= Seq::<u8>::empty());
    } else {
        lemma_put_blocks_front(first, rest.drop_last());
        assert(all.drop_last() =~= seq![first] + rest.drop_last());
    }
}

/// Blocks written at `at` are read back from there.
pub proof fn lemma_take_put_blocks(data: Seq<u8>, at: int, blocks: Seq<Seq<u8>>)
    requires
        0 <= at,
        forall|i: int| 0 <= i < blocks.len() ==> (#[trigger] blocks[i]).len() <= u32::MAX,
        at + put_blocks(blocks).len() <= data.len(),
        data.subrange(at, at + put_blocks(blocks).len()) == put_blocks(blocks),
    ensures
        take_blocks(data, at, blocks.len()) == Some((blocks, at + put_blocks(blocks).len())),
    decreases blocks.len(),
{
    if blocks.len() > 0 {
        let first = blocks[0];
        let rest = blocks.drop_first();
        assert(blocks =~= seq![first] + rest);
        lemma_put_blocks_front(first, rest);
        let head = put_block(first);
        let tail = put_blocks(rest);
        let whole = put_blocks(blocks);
        assert(data.subrange(at, at + head.len()) =~= whole.subrange(0, head.len() as int));
        assert(whole.subrange(0, head.len() as int) =~= head);
        lemma_take_put_block(data, at, first);
        let next = at + head.len();
        assert(data.subrange(next, next + tail.len()) =~= whole.subrange(
            head.len() as int,
            whole.len() as int,
        ));
        assert(whole.subrange(head.len() as int, whole.len() as int) =~= tail);
        lemma_take_put_blocks(data, next, rest);
    }
}

/// The round trip of the binary form: the binary form of a record whose
/// lengths fit, with this library's circuit parameters, parses to that
/// same record, whatever bytes follow it.
pub proof fn lemma_binary_round_trip(content: ProofContent, trailing: Seq<u8>)
    requires
        encodable(content),
        content.has_standard_params(),
    ensures
        parse_binary(binary_form(content) + trailing) == Some(content),
{
    lemma_auto_spec_u32_to_from_le_bytes();
    lemma_auto_spec_u64_to_from_le_bytes();
    let version = encode_utf8(content.version);
    encode_utf8_valid_utf8(content.version);
    encode_utf8_decode_utf8(content.version);
    let part0 = put_block(content.proof);
    let part1 = spec_u32_to_le_bytes(content.commitments.len() as u32);
    let part2 = put_blocks(content.commitments);
    let part3 = spec_u64_to_le_bytes(content.threshold);
    let part4 = spec_u32_to_le_bytes(content.embedding_size as u32);
    let part5 = put_block(content.commitment_hash);
    let part6 = spec_u64_to_le_bytes(content.timestamp);
    let part7 = put_block(version);
    let data = binary_form(content) + trailing;
    let at1 = part0.len() as int;
    let at2 = at1 + part1.len();
    let at3 = at2 + part2.len();
    let at4 = at3 + part3.len();
    let at5 = at4 + part4.len();
    let at6 = at5 + part5.len();
    let at7 = at6 + part6.len();
    let at8 = at7 + part7.len();
    assert(data.subrange(0, at1) =~= part0);
    assert(data.subrange(at1, at2) =~= part1);
    assert(data.subrange(at2, at3) =~= part2);
    assert(data.subrange(at3, at4) =~= part3);
    assert(data.subrange(at4, at5) =~= part4);
    assert(data.subrange(at5, at6) =~= part5);
    assert(data.subrange(at6, at7) =~= part6);
    assert(data.subrange(at7, at8) =~= part7);
    lemma_take_put_block(data, 0, content.proof);
    lemma_take_put_u32(data, at1, content.commitments.len() as u32);
    lemma_take_put_blocks(data, at2, content.commitments);
    lemma_take_put_u64(data, at3, content.threshold);
    lemma_take_put_u32(data, at4, content.embedding_size as u32);
    lemma_take_put_block(data, at5, content.commitment_hash);
    lemma_take_put_u64(data, at6, content.timestamp);
    lemma_take_put_block(data, at7, version);
}

/// The string of UTF-8 bytes.  Calls `String::from_utf8`, which returns
/// the string exactly when the bytes are valid UTF-8.
#[verifier::external_body]
pub(crate) fn utf8_string(bytes: Vec<u8>) -> (text: Option<String>)
    ensures
        text is Some <==> valid_utf8(bytes@),
        text matches Some(s) ==> s@ == decode_utf8(bytes@),
{
    String::from_utf8(bytes).ok()
}

/// The 32-bit number at `offset`, and the offset behind it.
pub fn read_u32(data: &[u8], offset: usize) -> (res: Option<(u32, usize)>)
    requires
        offset <= data@.len(),
    ensures
        res is Some <==> take_u32(data@, offset as int) is Some,
        res matches Some(pair) ==> take_u32(data@, offset as int) == Some((pair.0, pair.1 as int))
            && pair.1 <= data@.len(),
{
    if data.len() - offset < 4 {
        return None;
    }
    let word = slice_subrange(data, offset, offset + 4);
    Some((u32_from_le_bytes(word), offset + 4))
}

/// The 64-bit number at `offset`, and the offset behind it.
pub fn read_u64(data: &[u8], offset: usize) -> (res: Option<(u64, usize)>)
    requires
        offset <= data@.len(),
    ensures
        res is Some <==> take_u64(data@, offset as int) is Some,
        res matches Some(pair) ==> take_u64(data@, offset as int) == Some((pair.0, pair.1 as int))
            && pair.1 <= data@.len(),
{
    if data.len() - offset < 8 {
        return None;
    }
    let word = slice_subrange(data, offset, offset + 8);
    Some((u64_from_le_bytes(word), offset + 8))
}

/// The length-prefixed byte string at `offset`, and the offset behind it.
/// The length is held against what is left of `data` before anything is
/// read.
pub fn read_block(data: &[u8], offset: usize) -> (res: Option<(Vec<u8>, usize)>)
    requires
        offset <= data@.len(),
    ensures
        res is Some <==> take_block(data@, offset as int) is Some,
        res matches Some(pair) ==> take_block(data@, offset as int) == Some(
            (pair.0@, pair.1 as int),
        ) && pair.1 <= data@.len(),
{
    let (length, start) = match read_u32(data, offset) {
        Some(pair) => pair,
        None => {
            return None;
        },
    };
    if data.len() - start < length as usize {
        return None;
    }
    let end: usize = start + length as usize;
    let block = slice_to_vec(slice_subrange(data, start, end));
    Some((block, end))
}

/// Appends `block` behind its length.
pub fn write_block(buffer: &mut Vec<u8>, block: &[u8])
    requires
        block@.len() <= u32::MAX,
    ensures
        final(buffer)@ == old(buffer)@ + put_block(block@),
{
    let mut length = u32_to_le_bytes(block.len() as u32);
    buffer.append(&mut length);
    buffer.extend_from_slice(block);
}

/// The compact binary form.
pub struct BinarySerializer;

impl BinarySerializer {
    /// The binary form of `proof`.  Fails exactly when a length does not
    /// fit the four bytes the form has for it.
    pub fn serialize_proof_binary(proof: &BiometricProof) -> (res: CircuitResult<Vec<u8>>)
        ensures
            res is Ok <==> encodable(proof@),
            res matches Ok(bytes) ==> bytes@ == binary_form(proof@),
            res matches Err(e) ==> e is SerializationError,
    {
        let version = proof.metadata.version.as_str().as_bytes();
        if proof.proof.len() > u32::MAX as usize || proof.commitments.len() > u32::MAX as usize
            || proof.public_inputs.embedding_size > u32::MAX as usize
            || proof.public_inputs.commitment_hash.len() > u32::MAX as usize || version.len()
            > u32::MAX as usize {
            return Err(CircuitError::SerializationError(reason("Length does not fit 32 bits")));
        }
        let ghost content = proof@;
        let mut buffer: Vec<u8> = Vec::new();
        write_block(&mut buffer, proof.proof.as_slice());
        let mut count = u32_to_le_bytes(proof.commitments.len() as u32);
        buffer.append(&mut count);
        let ghost head = buffer@;
        let n: usize = proof.commitments.len();
        let mut i: usize = 0;
        while i < n
            invariant
                n == proof.commitments@.len(),
                content == proof@,
                0 <= i <= n,
                buffer@ == head + put_blocks(content.commitments.take(i as int)),
                forall|k: int|
                    0 <= k < i ==> (#[trigger] content.commitments[k]).len() <= u32::MAX,
            decreases n - i,
        {
            if proof.commitments[i].len() > u32::MAX as usize {
                return Err(
                    CircuitError::SerializationError(reason("Length does not fit 32 bits")),
                );
            }
            write_block(&mut buffer, proof.commitments[i].as_slice());
            proof {
                assert(content.commitments.take(i + 1).drop_last() =~= content.commitments.take(
                    i as int,
                ));
            }
            i = i + 1;
        }
        proof {
            assert(content.commitments.take(n as int) =~= content.commitments);
        }
        let mut threshold = u64_to_le_bytes(proof.public_inputs.threshold);
        buffer.append(&mut threshold);
        let mut dimension = u32_to_le_bytes(proof.public_inputs.embedding_size as u32);
        buffer.append(&mut dimension);
        write_block(&mut buffer, proof.public_inputs.commitment_hash.as_slice());
        let mut timestamp = u64_to_le_bytes(proof.metadata.timestamp);
        buffer.append(&mut timestamp);
        write_block(&mut buffer, version);
        Ok(buffer)
    }

    /// The commitments of a record: `count` length-prefixed byte strings
    /// from `offset` on, and the offset behind them.
    pub fn read_blocks(data: &[u8], offset: usize, count: usize) -> (res: Option<
        (Vec<Vec<u8>>, usize),
    >)
        requires
            offset <= data@.len(),
        ensures
            res is Some <==> take_blocks(data@, offset as int, count as nat) is Some,
            res matches Some(pair) ==> take_blocks(data@, offset as int, count as nat) == Some(
                (pair.0@.map_values(|b: Vec<u8>| b@), pair.1 as int),
            ) && pair.1 <= data@.len(),
    {
        let mut blocks: Vec<Vec<u8>> = Vec::new();
        let mut at: usize = offset;
        let mut i: usize = 0;
        let ghost whole = take_blocks(data@, offset as int, count as nat);
        proof {
            if take_blocks(data@, at as int, count as nat) is Some {
                let rest = take_blocks(data@, at as int, count as nat)->0;
            }
        }
        while i < count
            invariant
                0 <= i <= count,
                at <= data@.len(),
                whole == take_blocks(data@, offset as int, count as nat),
                whole == (match take_blocks(data@, at as int, (count - i) as nat) {
                    Some((rest, end)) => Some((blocks@.map_values(|b: Vec<u8>| b@) + rest, end)),
                    None => None,
                }),
            decreases count - i,
        {
            match read_block(data, at) {
                Some((block, next)) => {
                    proof {
                        let rest = take_blocks(data@, next as int, (count - i - 1) as nat);
                    }
                    blocks.push(block);
                    at = next;
                },
                None => {
                    return None;
                },
            }
            i = i + 1;
        }
        Some((blocks, at))
    }

    /// The record that `data` is the binary form of.  Every length is held
    /// against what is left of `data` before anything is read; truncated
    /// data and a version that is not UTF-8 are serialization errors.
    pub fn deserialize_proof_binary(data: &[u8]) -> (res: CircuitResult<BiometricProof>)
        ensures
            res is Ok <==> parse_binary(data@) is Some,
            res matches Ok(record) ==> parse_binary(data@) == Some(record@),
            res matches Err(e) ==> e is SerializationError,
    {
        let (proof, at1) = match read_block(data, 0) {
            Some(pair) => pair,
            None => {
                return Err(
                    CircuitError::SerializationError(reason("Insufficient data for proof")),
                );
            },
        };
        let (count, at2) = match read_u32(data, at1) {
            Some(pair) => pair,
            None => {
                return Err(
                    CircuitError::SerializationError(
                        reason("Insufficient data for commitments count"),
                    ),
                );
            },
        };
        let (commitments, at3) = match BinarySerializer::read_blocks(data, at2, count as usize) {
            Some(pair) => pair,
            None => {
                return Err(
                    CircuitError::SerializationError(reason("Insufficient data for commitment")),
                );
            },
        };
        let (threshold, at4) = match read_u64(data, at3) {
            Some(pair) => pair,
            None => {
                return Err(
                    CircuitError::SerializationError(reason("Insufficient data for threshold")),
                );
            },
        };
        let (embedding_size, at5) = match read_u32(data, at4) {
            Some(pair) => pair,
            None => {
                return Err(
                    CircuitError::SerializationError(
                        reason("Insufficient data for embedding size"),
                    ),
                );
            },
        };
        let (commitment_hash, at6) = match read_block(data, at5) {
            Some(pair) => pair,
            None => {
                return Err(
                    CircuitError::SerializationError(
                        reason("Insufficient data for commitment hash"),
                    ),
                );
            },
        };
        let (timestamp, at7) = match read_u64(data, at6) {
            Some(pair) => pair,
            None => {
                return Err(
                    CircuitError::SerializationError(reason("Insufficient data for timestamp")),
                );
            },
        };
        let (version_bytes, _) = match read_block(data, at7) {
            Some(pair) => pair,
            None => {
                return Err(
                    CircuitError::SerializationError(reason("Insufficient data for version")),
                );
            },
        };
        let version = match utf8_string(version_bytes) {
            Some(version) => version,
            None => {
                return Err(CircuitError::SerializationError(reason("Version is not UTF-8")));
            },
        };
        let record = BiometricProof {
            proof,
            commitments,
            public_inputs: ProofPublicInputs {
                threshold,
                embedding_size: embedding_size as usize,
                commitment_hash,
            },
            metadata: ProofMetadata {
                timestamp,
                version,
                circuit_params: CircuitParams {
                    range_bits: RANGE_BITS,
                    aggregation_size: AGGREGATION_SIZE,
                    transcript_label: reason(TRANSCRIPT_LABEL),
                },
            },
        };
        Ok(record)
    }
}

/// The lower-case hexadecimal digit of a number below sixteen.
pub open spec fn hex_digit(value: nat) -> char {
    if value < 10 {
        (48 + value) as char
    } else {
        (87 + value) as char
    }
}

/// The number that a hexadecimal digit, of either case, stands for.
pub open spec fn digit_value(digit: char) -> Option<nat> {
    let code = digit as u32;
    if 48 <= code <= 57 {
        Some((code - 48) as nat)
    } else if 97 <= code <= 102 {
        Some((code - 87) as nat)
    } else if 65 <= code <= 70 {
        Some((code - 55) as nat)
    } else {
        None
    }
}

/// The hexadecimal transcription of `data`: two lower-case digits for
/// every byte, the high half first.
pub open spec fn hex_text(data: Seq<u8>) -> Seq<char>
    decreases data.len(),
{
    if data.len() == 0 {
        Seq::<char>::empty()
    } else {
        hex_text(data.drop_last()).push(hex_digit((data.last() / 16) as nat)).push(
            hex_digit((data.last() % 16) as nat),
        )
    }
}

/// The bytes that `text` transcribes: `None` where the number of
/// characters is odd or one of them is no hexadecimal digit.
pub open spec fn hex_bytes(text: Seq<char>) -> Option<Seq<u8>>
    decreases text.len(),
{
    if text.len() == 0 {
        Some(Seq::<u8>::empty())
    } else if text.len() == 1 {
        None
    } else {
        match (
            hex_bytes(text.take(text.len() - 2)),
            digit_value(text[text.len() - 2]),
            digit_value(text[text.len() - 1]),
        ) {
            (Some(bytes), Some(high), Some(low)) => Some(bytes.push((16 * high + low) as u8)),
            _ => None,
        }
    }
}

/// The hexadecimal form of `content`: the transcription of its binary
/// form.
pub open spec fn hex_form(content: ProofContent) -> Seq<char> {
    hex_text(binary_form(content))
}

/// The record that `text` is the hexadecimal form of.
pub open spec fn parse_hex(text: Seq<char>) -> Option<ProofContent> {
    match hex_bytes(text) {
        Some(bytes) => parse_binary(bytes),
        None => None,
    }
}

/// The base64 transcription of `data`, in the standard alphabet with
/// padding.
pub uninterp spec fn base64_text(data: Seq<u8>) -> Seq<char>;

/// The bytes that `text` transcribes in base64; `None` where `text` is no
/// base64 text.
pub uninterp spec fn base64_octets(text: Seq<char>) -> Option<Seq<u8>>;

/// The base64 form of `content`: the transcription of its binary form.
pub open spec fn base64_form(content: ProofContent) -> Seq<char> {
    base64_text(binary_form(content))
}

/// The record that `text` is the base64 form of.
pub open spec fn parse_base64(text: Seq<char>) -> Option<ProofContent> {
    match base64_octets(text) {
        Some(bytes) => parse_binary(bytes),
        None => None,
    }
}

/// A hexadecimal digit stands for the number it was made of.
pub proof fn lemma_digit_round_trip(value: nat)
    requires
        value < 16,
    ensures
        digit_value(hex_digit(value)) == Some(value),
{
    if value < 10 {
        let c = (48 + value) as char;
    } else {
        let c = (87 + value) as char;
    }
}

/// The round trip of the hexadecimal transcription.
pub proof fn lemma_hex_bytes_of_text(data: Seq<u8>)
    ensures
        hex_text(data).len() == 2 * data.len(),
        hex_bytes(hex_text(data)) == Some(data),
    decreases data.len(),
{
    if data.len() > 0 {
        let front = data.drop_last();
        lemma_hex_bytes_of_text(front);
        let high = (data.last() / 16) as nat;
        let low = (data.last() % 16) as nat;
        lemma_digit_round_trip(high);
        lemma_digit_round_trip(low);
        let text = hex_text(data);
        assert(text.take(text.len() - 2) =~= hex_text(front));
    }
}

/// The round trip of the hexadecimal form: the hexadecimal form of a
/// record whose lengths fit, with this library's circuit parameters, parses
/// to that same record.
pub proof fn lemma_hex_round_trip(content: ProofContent)
    requires
        encodable(content),
        content.has_standard_params(),
    ensures
        parse_hex(hex_form(content)) == Some(content),
{
    lemma_hex_bytes_of_text(binary_form(content));
    lemma_binary_round_trip(content, Seq::<u8>::empty());
}

/// The hexadecimal transcription.  Calls `hex::encode`, which writes two
/// lower-case digits for every byte, the high half first.
#[verifier::external_body]
fn hex_encode(data: &[u8]) -> (text: String)
    ensures
        text@ == hex_text(data@),
{
    hex::encode(data)
}

/// The bytes of a hexadecimal transcription.  Calls `hex::decode`, which
/// fails on an odd length and on any byte that is no hexadecimal digit of
/// either case.  It works on the UTF-8 bytes of the text; a character
/// outside ASCII has no byte that is a digit, so the outcome is the same
/// read character by character.
#[verifier::external_body]
fn hex_decode(text: &str) -> (bytes: Option<Vec<u8>>)
    ensures
        bytes is Some <==> hex_bytes(text@) is Some,
        bytes matches Some(b) ==> hex_bytes(text@) == Some(b@),
{
    hex::decode(text).ok()
}

/// The base64 transcription.  Calls `base64::encode`, which uses the
/// standard alphabet with padding.
#[verifier::external_body]
fn base64_encode(data: &[u8]) -> (text: String)
    ensures
        text@ == base64_text(data@),
{
    base64::encode(data)
}

/// The bytes of a base64 transcription.  Calls `base64::decode`, which
/// reads the standard alphabet with padding, and gives back the bytes of
/// whatever `base64::encode` has transcribed.
#[verifier::external_body]
fn base64_decode(text: &str) -> (bytes: Option<Vec<u8>>)
    ensures
        bytes is Some <==> base64_octets(text@) is Some,
        bytes matches Some(b) ==> base64_octets(text@) == Some(b@),
        bytes is None ==> (forall|data: Seq<u8>| text@ != #[trigger] base64_text(data)),
        bytes matches Some(b) ==> (forall|data: Seq<u8>|
            text@ == #[trigger] base64_text(data) ==> b@ == data),
{
    base64::decode(text).ok()
}

/// The textual wire forms of a proof record.
pub struct SerializationUtils;

impl SerializationUtils {
    /// The hexadecimal form of `proof`.  Fails exactly when a length does
    /// not fit the four bytes the binary form has for it.
    pub fn proof_to_hex(proof: &BiometricProof) -> (res: CircuitResult<String>)
        ensures
            res is Ok <==> encodable(proof@),
            res matches Ok(text) ==> text@ == hex_form(proof@),
            res matches Err(e) ==> e is SerializationError,
    {
        match BinarySerializer::serialize_proof_binary(proof) {
            Ok(bytes) => Ok(hex_encode(bytes.as_slice())),
            Err(error) => Err(error),
        }
    }

    /// The record that `hex_string` is the hexadecimal form of.  Text that
    /// is no hexadecimal transcription, and bytes that are no binary form,
    /// are serialization errors.
    pub fn proof_from_hex(hex_string: &str) -> (res: CircuitResult<BiometricProof>)
        ensures
            res is Ok <==> parse_hex(hex_string@) is Some,
            res matches Ok(record) ==> parse_hex(hex_string@) == Some(record@),
            res matches Err(e) ==> e is SerializationError,
    {
        match hex_decode(hex_string) {
            Some(bytes) => BinarySerializer::deserialize_proof_binary(bytes.as_slice()),
            None => Err(CircuitError::SerializationError(reason("Invalid hex string"))),
        }
    }

    /// The base64 form of `proof`.  Fails exactly when a length does not
    /// fit the four bytes the binary form has for it.
    pub fn proof_to_base64(proof: &BiometricProof) -> (res: CircuitResult<String>)
        ensures
            res is Ok <==> encodable(proof@),
            res matches Ok(text) ==> text@ == base64_form(proof@),
            res matches Err(e) ==> e is SerializationError,
    {
        match BinarySerializer::serialize_proof_binary(proof) {
            Ok(bytes) => Ok(base64_encode(bytes.as_slice())),
            Err(error) => Err(error),
        }
    }

    /// The record that `base64_string` is the base64 form of.  Text that
    /// is no base64 transcription, and bytes that are no binary form, are
    /// serialization errors.  The base64 form of a record whose lengths
    /// fit, with this library's circuit parameters, gives that same record.
    pub fn proof_from_base64(base64_string: &str) -> (res: CircuitResult<BiometricProof>)
        ensures
            res is Ok <==> parse_base64(base64_string@) is Some,
            res matches Ok(record) ==> parse_base64(base64_string@) == Some(record@),
            res matches Err(e) ==> e is SerializationError,
            forall|content: ProofContent|
                encodable(content) && content.has_standard_params() && base64_string@
                    == #[trigger] base64_form(content) ==> (res matches Ok(record) && record@
                    == content),
    {
        let decoded = base64_decode(base64_string);
        proof {
            assert forall|content: ProofContent|
                encodable(content) && content.has_standard_params() && base64_string@
                    == #[trigger] base64_form(content) implies (decoded matches Some(b) && b@
                == binary_form(content) && parse_binary(b@) == Some(content)) by {
                lemma_binary_round_trip(content, Seq::<u8>::empty());
            }
        }
        match decoded {
            Some(bytes) => BinarySerializer::deserialize_proof_binary(bytes.as_slice()),
            None => Err(CircuitError::SerializationError(reason("Invalid base64 string"))),
        }
    }
}

} // verus!
