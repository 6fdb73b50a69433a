//! The image's global metadata: capacity counts and the two allocation
//! bitmaps, with their byte-exact on-disk form.

use crate::bitmap::Bitmap;
use crate::codec::{
    lemma_parse_words_of_words_bytes, push_u32_le, read_u32_le, spec_parse_words,
    spec_words_bytes, LoadError,
};
use vstd::bytes::*;
use vstd::prelude::*;

verus! {

/// Mathematical model of a superblock.
#[verifier::ext_equal]
pub ghost struct SuperBlockView {
    pub inode_count: u32,
    pub block_count: u32,
    pub used_inodes: Seq<u32>,
    pub used_blocks: Seq<u32>,
}

impl SuperBlockView {
    /// Each bitmap holds exactly one word per 32 resources of its count.
    pub open spec fn wf(self) -> bool {
        &&& self.used_inodes.len() == self.inode_count / 32
        &&& self.used_blocks.len() == self.block_count / 32
    }
}

/// On-disk bytes of a superblock: both counts little-endian, then the raw
/// words of the inode-usage bitmap, then of the block-usage bitmap.
pub open spec fn spec_sb_bytes(v: SuperBlockView) -> Seq<u8> {
    spec_u32_to_le_bytes(v.inode_count) + spec_u32_to_le_bytes(v.block_count) + spec_words_bytes(
        v.used_inodes,
    ) + spec_words_bytes(v.used_blocks)
}

/// Number of bytes a superblock with these counts occupies on disk.
pub open spec fn spec_sb_byte_len(inode_count: u32, block_count: u32) -> int {
    8 + 4 * (inode_count / 32) + 4 * (block_count / 32)
}

/// The superblock read from the front of `bytes`, or `None` when `bytes`
/// ends before the counts or either bitmap's words are complete.
pub open spec fn spec_parse_sb(bytes: Seq<u8>) -> Option<SuperBlockView> {
    if bytes.len() < 8 {
        None
    } else {
        let ic = spec_u32_from_le_bytes(bytes.subrange(0, 4));
        let bc = spec_u32_from_le_bytes(bytes.subrange(4, 8));
        if bytes.len() < spec_sb_byte_len(ic, bc) {
            None
        } else {
            Some(
                SuperBlockView {
                    inode_count: ic,
                    block_count: bc,
                    used_inodes: spec_parse_words(bytes.subrange(8, 8 + 4 * (ic / 32))),
                    used_blocks: spec_parse_words(
                        bytes.subrange(8 + 4 * (ic / 32), spec_sb_byte_len(ic, bc)),
                    ),
                },
            )
        }
    }
}

/// Global image metadata: how many inodes and data blocks the image holds,
/// and which of each are in use.
#[derive(Debug)]
pub struct SuperBlock {
    inode_count: u32,
    block_count: u32,
    used_inodes: Bitmap,
    used_blocks: Bitmap,
}

impl View for SuperBlock {
    type V = SuperBlockView;

    closed spec fn view(&self) -> SuperBlockView {
        SuperBlockView {
            inode_count: self.inode_count,
            block_count: self.block_count,
            used_inodes: self.used_inodes@,
            used_blocks: self.used_blocks@,
        }
    }
}

impl PartialEq for SuperBlock {
    /// Superblocks are equal exactly when their counts and bitmaps are.
    fn eq(&self, other: &SuperBlock) -> (r: bool) {
        let r = self.inode_count == other.inode_count && self.block_count == other.block_count
            && self.used_inodes == other.used_inodes && self.used_blocks == other.used_blocks;
        proof {
            if r {
                assert(self@ =~= other@);
            }
        }
        r
    }
}

impl vstd::std_specs::cmp::PartialEqSpecImpl for SuperBlock {
    open spec fn obeys_eq_spec() -> bool {
        true
    }

    open spec fn eq_spec(&self, other: &SuperBlock) -> bool {
        self@ == other@
    }
}

impl SuperBlock {
    pub open spec fn wf(&self) -> bool {
        self@.wf()
    }

    /// A fresh superblock. Both counts must be multiples of 32 — anything
    /// else is a caller error — and both bitmaps start all zero.
    pub fn new(inode_count: u32, block_count: u32) -> (r: SuperBlock)
        requires
            inode_count % 32 == 0,
            block_count % 32 == 0,
        ensures
            r.wf(),
            r@.inode_count == inode_count,
            r@.block_count == block_count,
            r@.used_inodes == Seq::new((inode_count / 32) as nat, |i: int| 0u32),
            r@.used_blocks == Seq::new((block_count / 32) as nat, |i: int| 0u32),
    {
        let used_inodes = Bitmap::new(inode_count).unwrap();
        let used_blocks = Bitmap::new(block_count).unwrap();
        SuperBlock { inode_count, block_count, used_inodes, used_blocks }
    }

    /// Number of inodes the image holds.
    pub fn inode_count(&self) -> (r: u32)
        ensures
            r == self@.inode_count,
    {
        self.inode_count
    }

    /// Number of data blocks the image holds.
    pub fn block_count(&self) -> (r: u32)
        ensures
            r == self@.block_count,
    {
        self.block_count
    }

    /// Bytes this superblock occupies on disk.
    pub fn byte_len(&self) -> (r: u64)
        ensures
            r == spec_sb_byte_len(self@.inode_count, self@.block_count),
    {
        8u64 + 4 * ((self.inode_count / 32) as u64) + 4 * ((self.block_count / 32) as u64)
    }

    /// Append this superblock's on-disk bytes.
    pub fn dump(&self, image: &mut Vec<u8>)
        ensures
            final(image)@ == old(image)@ + spec_sb_bytes(self@),
    {
        push_u32_le(image, self.inode_count);
        push_u32_le(image, self.block_count);
        self.used_inodes.dump(image);
        self.used_blocks.dump(image);
        proof {
            assert(image@ =~= old(image)@ + spec_sb_bytes(self@));
        }
    }

    /// Rebuild a superblock from the front of `image`: the two counts, then
    /// exactly `inode_count / 32` and `block_count / 32` raw bitmap words.
    /// Fails when the bytes end before any of those steps is complete; bytes
    /// past the superblock are ignored.
    pub fn load_from_file(image: &[u8]) -> (r: Result<SuperBlock, LoadError>)
        ensures
            r matches Ok(sb) ==> spec_parse_sb(image@) == Some(sb@) && sb.wf(),
            r is Err <==> spec_parse_sb(image@) is None,
    {
        let ilen: usize = image.len();
        if ilen < 8 {
            return Err(LoadError::Truncated);
        }
        let inode_count = read_u32_le(image, 0);
        let block_count = read_u32_le(image, 4);
        let need: u64 = 8 + 4 * ((inode_count / 32) as u64) + 4 * ((block_count / 32) as u64);
        if (ilen as u64) < need {
            return Err(LoadError::Truncated);
        }
        let iwords: usize = (inode_count / 32) as usize;
        let bwords: usize = (block_count / 32) as usize;
        let used_inodes = Bitmap::load(image, 8, iwords);
        let used_blocks = Bitmap::load(image, 8 + 4 * iwords, bwords);
        let sb = SuperBlock { inode_count, block_count, used_inodes, used_blocks };
        proof {
            assert(spec_parse_sb(image@) matches Some(v) && v =~= sb@);
        }
        Ok(sb)
    }
}

/// A serialized superblock parses back to itself, whatever bytes follow it:
/// its byte length is exactly `spec_sb_byte_len` of its counts, and parsing
/// recovers the counts and both bitmaps' words.
pub proof fn lemma_sb_round_trip(v: SuperBlockView, tail: Seq<u8>)
    requires
        v.wf(),
    ensures
        spec_sb_bytes(v).len() == spec_sb_byte_len(v.inode_count, v.block_count),
        spec_parse_sb(spec_sb_bytes(v) + tail) == Some(v),
{
    lemma_auto_spec_u32_to_from_le_bytes();
    let sb = spec_sb_bytes(v);
    let bytes = sb + tail;
    let iwb = 4 * (v.inode_count / 32);
    let total = spec_sb_byte_len(v.inode_count, v.block_count);
    assert(bytes.subrange(0, 4) =~= spec_u32_to_le_bytes(v.inode_count));
    assert(bytes.subrange(4, 8) =~= spec_u32_to_le_bytes(v.block_count));
    assert(bytes.subrange(8, 8 + iwb) =~= spec_words_bytes(v.used_inodes));
    assert(bytes.subrange(8 + iwb, total) =~= spec_words_bytes(v.used_blocks));
    lemma_parse_words_of_words_bytes(v.used_inodes);
    lemma_parse_words_of_words_bytes(v.used_blocks);
    assert(spec_parse_sb(bytes) matches Some(p) && p =~= v);
}

} // verus!
