//! Byte-level encoding shared by the image components.
//!
//! Every multi-byte field of the on-disk format is little-endian; a word
//! sequence (a bitmap's storage) is laid out as consecutive little-endian
//! 32-bit words.

use vstd::bytes::*;
use vstd::prelude::*;

verus! {

/// Failure while rebuilding an image from backing bytes: the source ended
/// before a deserialization step got the bytes it required.
#[derive(Clone, Copy, Debug, PartialEq, Eq, Structural)]
pub enum LoadError {
    Truncated,
}

/// Raw little-endian bytes of a word sequence: word `k` occupies bytes
/// `4k .. 4k + 4`.
pub open spec fn spec_words_bytes(ws: Seq<u32>) -> Seq<u8> {
    Seq::new(4 * ws.len(), |i: int| spec_u32_to_le_bytes(ws[i / 4])[i % 4])
}

/// The word sequence read back from raw little-endian bytes.
pub open spec fn spec_parse_words(bytes: Seq<u8>) -> Seq<u32> {
    Seq::new(bytes.len() / 4, |k: int| spec_u32_from_le_bytes(bytes.subrange(4 * k, 4 * k + 4)))
}

/// Serializing one more word appends exactly its four bytes.
pub proof fn lemma_words_bytes_push(ws: Seq<u32>, k: int)
    requires
        0 <= k < ws.len(),
    ensures
        spec_words_bytes(ws.take(k + 1))
            == spec_words_bytes(ws.take(k)) + spec_u32_to_le_bytes(ws[k]),
{
    lemma_auto_spec_u32_to_from_le_bytes();
    assert forall|i: int| 4 * k <= i < 4 * k + 4 implies
        spec_words_bytes(ws.take(k + 1))[i]
            == (spec_words_bytes(ws.take(k)) + spec_u32_to_le_bytes(ws[k]))[i] by
    {
        assert(i / 4 == k && i % 4 == i - 4 * k);
    }
    assert(spec_words_bytes(ws.take(k + 1))
        =~= spec_words_bytes(ws.take(k)) + spec_u32_to_le_bytes(ws[k]));
}

/// Reading back the raw bytes of a word sequence yields the words unchanged.
pub proof fn lemma_parse_words_of_words_bytes(ws: Seq<u32>)
    ensures
        spec_parse_words(spec_words_bytes(ws)) == ws,
{
    lemma_auto_spec_u32_to_from_le_bytes();
    let bytes = spec_words_bytes(ws);
    assert forall|k: int| 0 <= k < ws.len() implies
        spec_parse_words(bytes)[k] == ws[k] by
    {
        assert forall|j: int| 0 <= j < 4 implies
            bytes.subrange(4 * k, 4 * k + 4)[j] == spec_u32_to_le_bytes(ws[k])[j] by
        {
            assert((4 * k + j) / 4 == k && (4 * k + j) % 4 == j);
        }
        assert(bytes.subrange(4 * k, 4 * k + 4) =~= spec_u32_to_le_bytes(ws[k]));
    }
    assert(spec_parse_words(bytes) =~= ws);
}

/// Append the four little-endian bytes of `x`.
pub fn push_u32_le(out: &mut Vec<u8>, x: u32)
    ensures
        final(out)@ == old(out)@ + spec_u32_to_le_bytes(x),
{
    let mut b = u32_to_le_bytes(x);
    out.append(&mut b);
}

/// Append the two little-endian bytes of `x`.
pub fn push_u16_le(out: &mut Vec<u8>, x: u16)
    ensures
        final(out)@ == old(out)@ + spec_u16_to_le_bytes(x),
{
    let mut b = u16_to_le_bytes(x);
    out.append(&mut b);
}

/// Read the little-endian `u32` at byte offset `off`.
pub fn read_u32_le(bytes: &[u8], off: usize) -> (r: u32)
    requires
        off + 4 <= bytes@.len(),
    ensures
        r == spec_u32_from_le_bytes(bytes@.subrange(off as int, off as int + 4)),
{
    let n: usize = bytes.len();
    proof {
        assert(off + 4 <= n);
    }
    let s = vstd::slice::slice_subrange(bytes, off, off + 4);
    u32_from_le_bytes(s)
}

/// Read the little-endian `u16` at byte offset `off`.
pub fn read_u16_le(bytes: &[u8], off: usize) -> (r: u16)
    requires
        off + 2 <= bytes@.len(),
    ensures
        r == spec_u16_from_le_bytes(bytes@.subrange(off as int, off as int + 2)),
{
    let n: usize = bytes.len();
    proof {
        assert(off + 2 <= n);
    }
    let s = vstd::slice::slice_subrange(bytes, off, off + 2);
    u16_from_le_bytes(s)
}

} // verus!
