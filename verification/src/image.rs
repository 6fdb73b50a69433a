//! The whole image: superblock plus inode table, the byte-exact dump/load
//! protocol over a backing byte store, and the round-trip law.

use crate::codec::LoadError;
use crate::inode::{
    lemma_inode_record_round_trip, spec_inode_bytes, spec_parse_inode, spec_zero_inode, Inode,
    INODE_RECORD_SIZE,
};
use crate::superblock::{
    lemma_sb_round_trip, spec_parse_sb, spec_sb_byte_len, spec_sb_bytes, SuperBlock,
    SuperBlockView,
};
use vstd::prelude::*;

verus! {

/// Size in bytes of one data block.
pub const BLOCK_SIZE: usize = 4096;

/// Mathematical model of a whole image.
#[verifier::ext_equal]
pub ghost struct SfsView {
    pub sb: SuperBlockView,
    pub inodes: Seq<Inode>,
}

impl SfsView {
    /// The superblock is well formed and the table has one record per inode.
    pub open spec fn wf(self) -> bool {
        &&& self.sb.wf()
        &&& self.inodes.len() == self.sb.inode_count
    }
}

/// On-disk bytes of the inode table: record `k` occupies the bytes
/// `k * INODE_RECORD_SIZE` up to `(k + 1) * INODE_RECORD_SIZE`.
pub open spec fn spec_table_bytes(inodes: Seq<Inode>) -> Seq<u8> {
    Seq::new(
        (INODE_RECORD_SIZE as int * inodes.len()) as nat,
        |i: int| spec_inode_bytes(inodes[i / (INODE_RECORD_SIZE as int)])[i % (
        INODE_RECORD_SIZE as int)],
    )
}

/// `n` zero bytes: the data-block region as dump writes it.
pub open spec fn spec_zero_bytes(n: int) -> Seq<u8> {
    Seq::new(n as nat, |i: int| 0u8)
}

/// On-disk bytes of a whole image: superblock, inode table, then one
/// zero-filled page per data block, reserving the image's full size.
pub open spec fn spec_image_bytes(v: SfsView) -> Seq<u8> {
    spec_sb_bytes(v.sb) + spec_table_bytes(v.inodes) + spec_zero_bytes(
        BLOCK_SIZE as int * v.sb.block_count,
    )
}

/// The image read from `bytes`: a superblock, then one record per inode.
/// The data-block region is not read back. `None` when the bytes end before
/// the superblock or the inode table is complete.
pub open spec fn spec_parse_image(bytes: Seq<u8>) -> Option<SfsView> {
    match spec_parse_sb(bytes) {
        None => None,
        Some(sbv) => {
            let off = spec_sb_byte_len(sbv.inode_count, sbv.block_count);
            if bytes.len() < off + INODE_RECORD_SIZE as int * sbv.inode_count {
                None
            } else {
                Some(
                    SfsView {
                        sb: sbv,
                        inodes: Seq::new(
                            sbv.inode_count as nat,
                            |k: int| spec_parse_inode(
                                bytes.subrange(
                                    off + INODE_RECORD_SIZE as int * k,
                                    off + INODE_RECORD_SIZE as int * k + INODE_RECORD_SIZE as int,
                                ),
                            ),
                        ),
                    },
                )
            }
        },
    }
}

/// Serializing one more inode record appends exactly its bytes.
pub proof fn lemma_table_bytes_push(inodes: Seq<Inode>, k: int)
    requires
        0 <= k < inodes.len(),
    ensures
        spec_table_bytes(inodes.take(k + 1)) == spec_table_bytes(inodes.take(k))
            + spec_inode_bytes(inodes[k]),
{
    lemma_inode_record_round_trip(inodes[k]);
    assert forall|i: int| 20 * k <= i < 20 * k + 20 implies
        spec_table_bytes(inodes.take(k + 1))[i] == (spec_table_bytes(inodes.take(k))
            + spec_inode_bytes(inodes[k]))[i] by
    {
        assert(i / 20 == k && i % 20 == i - 20 * k);
    }
    assert(spec_table_bytes(inodes.take(k + 1)) =~= spec_table_bytes(inodes.take(k))
        + spec_inode_bytes(inodes[k]));
}

/// A whole in-memory filesystem image.
#[derive(Debug)]
pub struct SFS {
    sb: SuperBlock,
    inodes: Vec<Inode>,
}

impl PartialEq for SFS {
    /// Images are equal exactly when their superblocks and inode tables are.
    fn eq(&self, other: &SFS) -> (r: bool) {
        if !(self.sb == other.sb) {
            return false;
        }
        if self.inodes.len() != other.inodes.len() {
            return false;
        }
        let n = self.inodes.len();
        let mut i: usize = 0;
        while i < n
            invariant
                n == self.inodes@.len(),
                n == other.inodes@.len(),
                i <= n,
                forall|j: int| 0 <= j < i ==> self.inodes@[j] == other.inodes@[j],
            decreases n - i,
        {
            if !(self.inodes[i] == other.inodes[i]) {
                return false;
            }
            i = i + 1;
        }
        proof {
            assert(self.inodes@ =~= other.inodes@);
            assert(self@ =~= other@);
        }
        true
    }
}

impl vstd::std_specs::cmp::PartialEqSpecImpl for SFS {
    open spec fn obeys_eq_spec() -> bool {
        true
    }

    open spec fn eq_spec(&self, other: &SFS) -> bool {
        self@ == other@
    }
}

impl View for SFS {
    type V = SfsView;

    closed spec fn view(&self) -> SfsView {
        SfsView { sb: self.sb@, inodes: self.inodes@ }
    }
}

impl SFS {
    pub open spec fn wf(&self) -> bool {
        self@.wf()
    }

    /// A fresh image: a new superblock and `inode_count` all-zero records.
    /// Both counts must be multiples of 32; anything else is a caller error.
    pub fn new(inode_count: u32, block_count: u32) -> (r: SFS)
        requires
            inode_count % 32 == 0,
            block_count % 32 == 0,
        ensures
            r.wf(),
            r@.sb.inode_count == inode_count,
            r@.sb.block_count == block_count,
            r@.sb.used_inodes == Seq::new((inode_count / 32) as nat, |i: int| 0u32),
            r@.sb.used_blocks == Seq::new((block_count / 32) as nat, |i: int| 0u32),
            r@.inodes == Seq::new(inode_count as nat, |i: int| spec_zero_inode()),
    {
        let sb = SuperBlock::new(inode_count, block_count);
        let n = inode_count as usize;
        let mut inodes: Vec<Inode> = Vec::new();
        while inodes.len() < n
            invariant
                inodes@.len() <= n,
                forall|i: int| 0 <= i < inodes@.len() ==> inodes@[i] == spec_zero_inode(),
            decreases n - inodes@.len(),
        {
            inodes.push(Inode::default());
        }
        let r = SFS { sb, inodes };
        proof {
            assert(r@.inodes =~= Seq::new(inode_count as nat, |i: int| spec_zero_inode()));
        }
        r
    }

    /// Number of inodes the image holds.
    pub fn inode_count(&self) -> (r: u32)
        ensures
            r == self@.sb.inode_count,
    {
        self.sb.inode_count()
    }

    /// Number of data blocks the image holds.
    pub fn block_count(&self) -> (r: u32)
        ensures
            r == self@.sb.block_count,
    {
        self.sb.block_count()
    }

    /// Append the image's on-disk bytes: the superblock, every inode record,
    /// then `block_count` zero-filled pages for the data-block region.
    pub fn dump(&self, image: &mut Vec<u8>)
        ensures
            final(image)@ == old(image)@ + spec_image_bytes(self@),
    {
        let ghost start = image@;
        self.sb.dump(image);
        let ghost after_sb = image@;
        proof {
            assert(after_sb + spec_table_bytes(self.inodes@.take(0)) =~= after_sb);
        }
        let n = self.inodes.len();
        let mut k: usize = 0;
        while k < n
            invariant
                n == self.inodes@.len(),
                k <= n,
                image@ == after_sb + spec_table_bytes(self.inodes@.take(k as int)),
            decreases n - k,
        {
            let ino = self.inodes[k];
            ino.dump(image);
            proof {
                lemma_table_bytes_push(self.inodes@, k as int);
                assert(image@ =~= after_sb + spec_table_bytes(self.inodes@.take(k as int + 1)));
            }
            k = k + 1;
        }
        proof {
            assert(self.inodes@.take(n as int) =~= self.inodes@);
        }
        let ghost after_table = image@;
        proof {
            assert(after_table + spec_zero_bytes(0) =~= after_table);
        }
        let bc = self.sb.block_count();
        let mut b: u32 = 0;
        while b < bc
            invariant
                b <= bc,
                image@ == after_table + spec_zero_bytes(BLOCK_SIZE as int * b),
            decreases bc - b,
        {
            let mut j: usize = 0;
            while j < BLOCK_SIZE
                invariant
                    j <= BLOCK_SIZE,
                    b < bc,
                    image@ == after_table + spec_zero_bytes(BLOCK_SIZE as int * b + j),
                decreases BLOCK_SIZE - j,
            {
                image.push(0u8);
                proof {
                    assert(image@ =~= after_table + spec_zero_bytes(
                        BLOCK_SIZE as int * b + j + 1,
                    ));
                }
                j = j + 1;
            }
            b = b + 1;
        }
        proof {
            assert(image@ =~= start + spec_image_bytes(self@));
        }
    }

    /// Rebuild an image: the superblock from the front of `image`, then one
    /// record per inode. The data-block region is not read back; bytes past
    /// the inode table are ignored. Fails when the bytes end before the
    /// superblock or the table is complete.
    pub fn load_from_file(image: &[u8]) -> (r: Result<SFS, LoadError>)
        ensures
            r matches Ok(fs) ==> spec_parse_image(image@) == Some(fs@) && fs.wf(),
            r is Err <==> spec_parse_image(image@) is None,
    {
        let ilen: usize = image.len();
        let sb = match SuperBlock::load_from_file(image) {
            Ok(sb) => sb,
            Err(e) => {
                return Err(e);
            },
        };
        let off64: u64 = sb.byte_len();
        let ic = sb.inode_count();
        let need: u64 = off64 + (INODE_RECORD_SIZE as u64) * (ic as u64);
        if (ilen as u64) < need {
            return Err(LoadError::Truncated);
        }
        let off: usize = off64 as usize;
        let n: usize = ic as usize;
        let mut inodes: Vec<Inode> = Vec::new();
        let mut k: usize = 0;
        while k < n
            invariant
                ilen == image@.len(),
                off + INODE_RECORD_SIZE * n <= ilen,
                k <= n,
                inodes@.len() == k,
                forall|j: int| 0 <= j < k ==> inodes@[j] == spec_parse_inode(
                    image@.subrange(
                        off + INODE_RECORD_SIZE as int * j,
                        off + INODE_RECORD_SIZE as int * j + INODE_RECORD_SIZE as int,
                    ),
                ),
            decreases n - k,
        {
            let ino = Inode::read_at(image, off + INODE_RECORD_SIZE * k);
            inodes.push(ino);
            k = k + 1;
        }
        let fs = SFS { sb, inodes };
        proof {
            assert(spec_parse_image(image@) matches Some(v) && v =~= fs@);
        }
        Ok(fs)
    }
}

/// Round trip: dumping a well-formed image and loading the bytes back yields
/// the image unchanged — same counts, same bitmap words, same inode records —
/// and the unread data-block region does not disturb the parse.
pub proof fn lemma_image_round_trip(v: SfsView)
    requires
        v.wf(),
    ensures
        spec_parse_image(spec_image_bytes(v)) == Some(v),
{
    let sbb = spec_sb_bytes(v.sb);
    let tbl = spec_table_bytes(v.inodes);
    let zeros = spec_zero_bytes(BLOCK_SIZE as int * v.sb.block_count);
    let bytes = spec_image_bytes(v);
    let tail = tbl + zeros;
    assert(bytes =~= sbb + tail);
    lemma_sb_round_trip(v.sb, tail);
    let off = spec_sb_byte_len(v.sb.inode_count, v.sb.block_count);
    assert forall|k: int| 0 <= k < v.inodes.len() implies
        spec_parse_inode(bytes.subrange(off + 20 * k, off + 20 * k + 20)) == v.inodes[k] by
    {
        lemma_inode_record_round_trip(v.inodes[k]);
        assert forall|j: int| 0 <= j < 20 implies
            bytes.subrange(off + 20 * k, off + 20 * k + 20)[j]
                == spec_inode_bytes(v.inodes[k])[j] by
        {
            assert((20 * k + j) / 20 == k && (20 * k + j) % 20 == j);
            assert(bytes[off + 20 * k + j] == tbl[20 * k + j]);
        }
        assert(bytes.subrange(off + 20 * k, off + 20 * k + 20) =~= spec_inode_bytes(v.inodes[k]));
    }
    assert(spec_parse_image(bytes) matches Some(p) && p =~= v);
}

} // verus!
