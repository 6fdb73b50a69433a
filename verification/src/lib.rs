//! A simple block-based filesystem image.
//!
//! The crate models the on-disk structure of an image — a superblock holding
//! allocation bitmaps, a fixed-size inode table, and a zero-filled data-block
//! region — together with the byte-exact serialization that moves the image
//! to and from a backing store. Reading and writing actual files is left to
//! callers; the library works on plain byte vectors.
//!
//! On-disk layout, offsets in bytes from the start of the image:
//!
//! ```text
//! [0..4)    inode_count          u32 little-endian
//! [4..8)    block_count          u32 little-endian
//! [8..X)    used-inodes bitmap   inode_count/32 words, little-endian
//! [X..Y)    used-blocks bitmap   block_count/32 words, little-endian
//! [Y..Z)    inode table          inode_count records of 20 bytes
//! [Z..end)  data-block region    block_count pages of 4096 zero bytes
//! ```
//!
//! Every multi-byte field is little-endian by definition, so images move
//! between machines of any endianness. Loading reads everything up to the
//! data-block region and ignores the rest: the region only reserves the
//! image's full size on disk.

pub mod bitmap;
pub mod codec;
pub mod inode;
pub mod superblock;
pub mod image;
