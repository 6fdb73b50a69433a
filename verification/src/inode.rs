//! Fixed-size inode records and their 20-byte on-disk form.

use crate::codec::{push_u16_le, push_u32_le, read_u16_le, read_u32_le};
use vstd::bytes::*;
use vstd::prelude::*;

verus! {

/// Size in bytes of one on-disk inode record: the packed fields followed by
/// three bytes of explicit padding, so the record is a multiple of 4 bytes
/// and carries no undefined bytes.
pub const INODE_RECORD_SIZE: usize = 20;

/// One file or directory's metadata: size in bytes, owner and group ids, the
/// first direct data-block index, the index of an indirect block holding
/// further block indices, and the mode (type + permission) bits.
#[derive(Clone, Copy, Debug, PartialEq, Eq, Structural)]
pub struct Inode {
    pub size: u32,
    pub owner: u16,
    pub group: u16,
    pub data_p: u32,
    pub double_data_p: u32,
    pub mode: u8,
}

/// The all-zero record every inode starts as.
pub open spec fn spec_zero_inode() -> Inode {
    Inode { size: 0, owner: 0, group: 0, data_p: 0, double_data_p: 0, mode: 0 }
}

impl Default for Inode {
    /// The all-zero record.
    fn default() -> (r: Inode)
        ensures
            r == spec_zero_inode(),
    {
        Inode { size: 0, owner: 0, group: 0, data_p: 0, double_data_p: 0, mode: 0 }
    }
}

/// On-disk bytes of one record: the fields little-endian in declaration
/// order, then three zero pad bytes.
pub open spec fn spec_inode_bytes(ino: Inode) -> Seq<u8> {
    spec_u32_to_le_bytes(ino.size) + spec_u16_to_le_bytes(ino.owner) + spec_u16_to_le_bytes(
        ino.group,
    ) + spec_u32_to_le_bytes(ino.data_p) + spec_u32_to_le_bytes(ino.double_data_p) + seq![
        ino.mode,
        0u8,
        0u8,
        0u8,
    ]
}

/// The record read back from one 20-byte span; the pad bytes carry no value.
pub open spec fn spec_parse_inode(bytes: Seq<u8>) -> Inode
    recommends
        bytes.len() == INODE_RECORD_SIZE,
{
    Inode {
        size: spec_u32_from_le_bytes(bytes.subrange(0, 4)),
        owner: spec_u16_from_le_bytes(bytes.subrange(4, 6)),
        group: spec_u16_from_le_bytes(bytes.subrange(6, 8)),
        data_p: spec_u32_from_le_bytes(bytes.subrange(8, 12)),
        double_data_p: spec_u32_from_le_bytes(bytes.subrange(12, 16)),
        mode: bytes[16],
    }
}

impl Inode {
    /// Append this record's on-disk bytes.
    pub fn dump(&self, image: &mut Vec<u8>)
        ensures
            final(image)@ == old(image)@ + spec_inode_bytes(*self),
    {
        push_u32_le(image, self.size);
        push_u16_le(image, self.owner);
        push_u16_le(image, self.group);
        push_u32_le(image, self.data_p);
        push_u32_le(image, self.double_data_p);
        image.push(self.mode);
        image.push(0u8);
        image.push(0u8);
        image.push(0u8);
        proof {
            assert(image@ =~= old(image)@ + spec_inode_bytes(*self));
        }
    }

    /// Read the record stored at byte offset `off`.
    pub fn read_at(image: &[u8], off: usize) -> (r: Inode)
        requires
            off + INODE_RECORD_SIZE <= image@.len(),
        ensures
            r == spec_parse_inode(
                image@.subrange(off as int, off as int + INODE_RECORD_SIZE as int),
            ),
    {
        let n: usize = image.len();
        proof {
            assert(off + INODE_RECORD_SIZE <= n);
        }
        let size = read_u32_le(image, off);
        let owner = read_u16_le(image, off + 4);
        let group = read_u16_le(image, off + 6);
        let data_p = read_u32_le(image, off + 8);
        let double_data_p = read_u32_le(image, off + 12);
        let mode = *vstd::slice::slice_index_get(image, off + 16);
        let r = Inode { size, owner, group, data_p, double_data_p, mode };
        proof {
            let o = off as int;
            let sub = image@.subrange(o, o + 20);
            assert(image@.subrange(o, o + 4) =~= sub.subrange(0, 4));
            assert(image@.subrange(o + 4, o + 6) =~= sub.subrange(4, 6));
            assert(image@.subrange(o + 6, o + 8) =~= sub.subrange(6, 8));
            assert(image@.subrange(o + 8, o + 12) =~= sub.subrange(8, 12));
            assert(image@.subrange(o + 12, o + 16) =~= sub.subrange(12, 16));
            assert(image@[o + 16] == sub[16]);
        }
        r
    }
}

/// The on-disk record size is a multiple of 4 bytes, and reading a record's
/// bytes back yields the record unchanged, padding contributing nothing.
pub proof fn lemma_inode_record_round_trip(ino: Inode)
    ensures
        spec_inode_bytes(ino).len() == INODE_RECORD_SIZE,
        INODE_RECORD_SIZE % 4 == 0,
        spec_parse_inode(spec_inode_bytes(ino)) == ino,
{
    lemma_auto_spec_u32_to_from_le_bytes();
    lemma_auto_spec_u16_to_from_le_bytes();
    let bytes = spec_inode_bytes(ino);
    assert(bytes.subrange(0, 4) =~= spec_u32_to_le_bytes(ino.size));
    assert(bytes.subrange(4, 6) =~= spec_u16_to_le_bytes(ino.owner));
    assert(bytes.subrange(6, 8) =~= spec_u16_to_le_bytes(ino.group));
    assert(bytes.subrange(8, 12) =~= spec_u32_to_le_bytes(ino.data_p));
    assert(bytes.subrange(12, 16) =~= spec_u32_to_le_bytes(ino.double_data_p));
    assert(bytes[16] == ino.mode);
}

} // verus!
