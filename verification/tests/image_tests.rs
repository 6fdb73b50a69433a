use sfs::codec::LoadError;
use sfs::image::{BLOCK_SIZE, SFS};
use sfs::inode::{Inode, INODE_RECORD_SIZE};
use sfs::superblock::SuperBlock;

#[test]
fn test_dump_and_load() {
    let kb_size: u32 = 16 * 1024;
    let inode_count: u32 = kb_size;
    let block_count: u32 = kb_size / 4;
    let sfs = SFS::new(inode_count, block_count);
    let mut image: Vec<u8> = Vec::new();
    sfs.dump(&mut image);
    let loaded_sfs = SFS::load_from_file(&image).expect("Failed to load FS from disk");
    assert_eq!(sfs, loaded_sfs);
}

#[test]
fn test_superblock_dump_and_load() {
    let sb = SuperBlock::new(64, 32);
    let mut bytes: Vec<u8> = Vec::new();
    sb.dump(&mut bytes);
    assert_eq!(bytes.len(), 8 + 8 + 4);
    let loaded = SuperBlock::load_from_file(&bytes).expect("superblock should load");
    assert_eq!(loaded.inode_count(), 64);
    assert_eq!(loaded.block_count(), 32);
    assert_eq!(sb, loaded);
}

#[test]
fn test_truncated_input_is_rejected() {
    // A source that ends right after the two count fields.
    let sb = SuperBlock::new(32, 32);
    let mut bytes: Vec<u8> = Vec::new();
    sb.dump(&mut bytes);
    bytes.truncate(8);
    assert_eq!(SuperBlock::load_from_file(&bytes), Err(LoadError::Truncated));
    assert_eq!(SFS::load_from_file(&bytes).unwrap_err(), LoadError::Truncated);
}

#[test]
fn test_empty_and_short_inputs_are_rejected() {
    let empty: Vec<u8> = Vec::new();
    assert!(matches!(SFS::load_from_file(&empty), Err(LoadError::Truncated)));
    let short: Vec<u8> = vec![1, 2, 3];
    assert!(matches!(SFS::load_from_file(&short), Err(LoadError::Truncated)));
}

#[test]
fn test_truncated_inode_table_is_rejected() {
    let fs = SFS::new(32, 32);
    let mut bytes: Vec<u8> = Vec::new();
    fs.dump(&mut bytes);
    // Keep the superblock but cut the inode table short.
    bytes.truncate(8 + 4 + 4 + 11);
    assert_eq!(SFS::load_from_file(&bytes).unwrap_err(), LoadError::Truncated);
}

#[test]
fn test_trailing_bytes_are_ignored() {
    let fs = SFS::new(32, 32);
    let mut bytes: Vec<u8> = Vec::new();
    fs.dump(&mut bytes);
    bytes.push(0xFF);
    bytes.push(0xAB);
    let loaded = SFS::load_from_file(&bytes).expect("image should load");
    assert_eq!(fs, loaded);
}

#[test]
fn test_image_layout_is_exact() {
    let fs = SFS::new(32, 32);
    let mut bytes: Vec<u8> = Vec::new();
    fs.dump(&mut bytes);
    // superblock: counts + one word per bitmap; then table; then zero pages
    let expected_len: usize = 8 + 4 + 4 + 32 * INODE_RECORD_SIZE + 32 * BLOCK_SIZE;
    assert_eq!(bytes.len(), expected_len);
    assert_eq!(&bytes[0..4], &[32, 0, 0, 0]);
    assert_eq!(&bytes[4..8], &[32, 0, 0, 0]);
    // a fresh image is zero everywhere past the counts
    assert!(bytes[8..].iter().all(|b| *b == 0));
}

#[test]
fn test_counts_are_little_endian() {
    // 74560 = 0x12340, a multiple of 32
    let fs = SFS::new(74560, 32);
    let mut bytes: Vec<u8> = Vec::new();
    fs.dump(&mut bytes);
    assert_eq!(&bytes[0..4], &[0x40, 0x23, 0x01, 0x00]);
    assert_eq!(&bytes[4..8], &[0x20, 0x00, 0x00, 0x00]);
}

#[test]
fn test_inode_record_packing() {
    assert_eq!(INODE_RECORD_SIZE % 4, 0);
    let ino = Inode {
        size: 0x1234,
        owner: 7,
        group: 9,
        data_p: 77,
        double_data_p: 0x0102_0304,
        mode: 0xED,
    };
    let mut bytes: Vec<u8> = Vec::new();
    ino.dump(&mut bytes);
    assert_eq!(bytes.len(), INODE_RECORD_SIZE);
    assert_eq!(
        bytes,
        vec![
            0x34, 0x12, 0x00, 0x00, // size
            0x07, 0x00, // owner
            0x09, 0x00, // group
            0x4D, 0x00, 0x00, 0x00, // data_p
            0x04, 0x03, 0x02, 0x01, // double_data_p
            0xED, // mode
            0x00, 0x00, 0x00, // explicit padding
        ]
    );
    let back = Inode::read_at(&bytes, 0);
    assert_eq!(back, ino);
}

#[test]
fn test_loaded_records_match_dumped_records() {
    let fs = SFS::new(64, 32);
    let mut bytes: Vec<u8> = Vec::new();
    fs.dump(&mut bytes);
    let loaded = SFS::load_from_file(&bytes).expect("image should load");
    assert_eq!(loaded.inode_count(), 64);
    assert_eq!(loaded.block_count(), 32);
    let zero = Inode::default();
    let table_start: usize = 8 + 4 + 4;
    for k in 0..64usize {
        let off: usize = table_start + k * INODE_RECORD_SIZE;
        assert_eq!(Inode::read_at(&bytes, off), zero);
    }
}
