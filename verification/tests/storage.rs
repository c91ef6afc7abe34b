use bwfs::storage::{block_file_name, BlockImage, BlockStorage, StorageError};
use image::{GrayImage, Luma};

fn storage(width: u32, height: u32, blocks: u32, fingerprint: &str) -> BlockStorage {
    BlockStorage::new(width, height, blocks, fingerprint.to_string())
}

#[test]
fn bytes_per_block_is_an_eighth_of_the_pixels() {
    assert_eq!(storage(800, 800, 64, "BWFS").bytes_per_block(), 80_000);
    assert_eq!(storage(1000, 1000, 1, "BWFS").bytes_per_block(), 125_000);
    assert_eq!(storage(3, 3, 1, "BWFS").bytes_per_block(), 1);
    assert_eq!(storage(0, 10, 1, "BWFS").bytes_per_block(), 0);
    assert_eq!(storage(8, 8, 7, "BWFS").total_blocks(), 7);
}

#[test]
fn init_block_is_all_white_and_reads_as_ones() {
    let s = storage(16, 4, 4, "BWFS");
    let img = s.init_block(3).unwrap();
    assert_eq!(img.image.dimensions(), (16, 4));
    assert!(img.image.as_raw().iter().all(|&p| p == 255));
    assert_eq!(s.read_block(3, Some(&img)).unwrap(), vec![0xFF; 8]);
}

#[test]
fn init_block_out_of_range_fails() {
    let s = storage(16, 4, 4, "BWFS");
    assert_eq!(s.init_block(4).err(), Some(StorageError::BlockOutOfRange));
    assert_eq!(s.init_block(u32::MAX).err(), Some(StorageError::BlockOutOfRange));
}

#[test]
fn absent_block_reads_as_zeros() {
    let s = storage(16, 4, 4, "BWFS");
    assert_eq!(s.read_block(2, None).unwrap(), vec![0u8; 8]);
}

#[test]
fn read_block_out_of_range_fails() {
    let s = storage(16, 4, 4, "BWFS");
    assert_eq!(s.read_block(4, None).err(), Some(StorageError::BlockOutOfRange));
    let img = s.init_block(0).unwrap();
    assert_eq!(s.read_block(9, Some(&img)).err(), Some(StorageError::BlockOutOfRange));
}

#[test]
fn read_block_decodes_the_luminance_threshold() {
    let s = storage(8, 1, 1, "BWFS");
    let image = GrayImage::from_vec(8, 1, vec![128, 127, 0, 255, 130, 5, 250, 127]).unwrap();
    let data = s.read_block(0, Some(&BlockImage { image })).unwrap();
    assert_eq!(data, vec![0b1001_1010]);
}

#[test]
fn write_block_encodes_bits_as_pixels() {
    let s = storage(8, 2, 2, "BWFS");
    let img = s.write_block(1, &[0xA5]).unwrap();
    assert_eq!(img.image.dimensions(), (8, 2));
    assert_eq!(
        img.image.as_raw(),
        &vec![255, 0, 255, 0, 0, 255, 0, 255, 255, 255, 255, 255, 255, 255, 255, 255]
    );
    assert_eq!(img.image.get_pixel(0, 0), &Luma([255u8]));
    assert_eq!(img.image.get_pixel(1, 0), &Luma([0u8]));
    assert_eq!(img.image.get_pixel(0, 1), &Luma([255u8]));
}

#[test]
fn write_block_refuses_out_of_range_and_oversized_data() {
    let s = storage(8, 2, 2, "BWFS");
    assert_eq!(s.write_block(2, &[1]).err(), Some(StorageError::BlockOutOfRange));
    assert_eq!(s.write_block(0, &[1, 2, 3]).err(), Some(StorageError::DataTooLarge));
    assert_eq!(s.write_block(2, &[1, 2, 3]).err(), Some(StorageError::BlockOutOfRange));
    assert!(s.write_block(0, &[1, 2]).is_ok());
    assert!(s.write_block(0, &[]).is_ok());
}

#[test]
fn block_round_trip_keeps_the_prefix_and_pads_with_ff() {
    let s = storage(16, 4, 4, "BWFS");
    let data = vec![0x68, 0x69, 0x0A];
    let img = s.write_block(1, &data).unwrap();
    let back = s.read_block(1, Some(&img)).unwrap();
    assert_eq!(back.len(), 8);
    assert_eq!(&back[..3], &data[..]);
    assert_eq!(&back[3..], &[0xFF; 5]);
}

#[test]
fn full_block_round_trip_is_exact() {
    let s = storage(800, 800, 64, "BWFS");
    let data = vec![0xAA; 80_000];
    let img = s.write_block(5, &data).unwrap();
    assert_eq!(s.read_block(5, Some(&img)).unwrap(), data);
}

#[test]
fn fingerprint_is_written_at_the_start_of_block_zero() {
    let s = storage(16, 4, 4, "BWFS");
    let img = s.write_fingerprint().unwrap();
    let block = s.read_block(0, Some(&img)).unwrap();
    assert_eq!(block, vec![b'B', b'W', b'F', b'S', 0, 0, 0, 0]);
    assert_eq!(s.verify_fingerprint(Some(&img)), Ok(true));
}

#[test]
fn fingerprint_of_another_filesystem_is_rejected() {
    let ours = storage(16, 4, 4, "BWFS");
    let theirs = storage(16, 4, 4, "OTHER");
    let img = theirs.write_fingerprint().unwrap();
    assert_eq!(ours.verify_fingerprint(Some(&img)), Ok(false));
    assert_eq!(theirs.verify_fingerprint(Some(&img)), Ok(true));
}

#[test]
fn fingerprint_check_on_missing_and_fresh_blocks() {
    let s = storage(16, 4, 4, "BWFS");
    assert_eq!(s.verify_fingerprint(None), Ok(false));
    let white = s.init_block(0).unwrap();
    assert_eq!(s.verify_fingerprint(Some(&white)), Ok(false));
    let empty = storage(16, 4, 4, "");
    assert_eq!(empty.verify_fingerprint(None), Ok(true));
}

#[test]
fn fingerprint_longer_than_a_block_is_cut_and_not_verified() {
    let s = storage(8, 2, 1, "BWFS");
    let img = s.write_fingerprint().unwrap();
    assert_eq!(s.read_block(0, Some(&img)).unwrap(), vec![b'B', b'W']);
    assert_eq!(s.verify_fingerprint(Some(&img)), Ok(false));
}

#[test]
fn fingerprint_needs_a_block_zero() {
    let s = storage(16, 4, 0, "BWFS");
    assert_eq!(s.write_fingerprint().err(), Some(StorageError::BlockOutOfRange));
    assert_eq!(s.verify_fingerprint(None), Err(StorageError::BlockOutOfRange));
}

#[test]
fn fingerprint_bytes_are_utf8() {
    let s = storage(16, 8, 1, "é✓");
    let img = s.write_fingerprint().unwrap();
    let block = s.read_block(0, Some(&img)).unwrap();
    assert_eq!(&block[..5], "é✓".as_bytes());
    assert_eq!(s.verify_fingerprint(Some(&img)), Ok(true));
}

#[test]
fn block_file_names_have_eight_digits() {
    assert_eq!(block_file_name(0), "block_00000000.png");
    assert_eq!(block_file_name(7), "block_00000007.png");
    assert_eq!(block_file_name(1234), "block_00001234.png");
    assert_eq!(block_file_name(99_999_999), "block_99999999.png");
}

#[test]
fn block_file_names_grow_for_large_numbers() {
    assert_eq!(block_file_name(100_000_000), "block_100000000.png");
    assert_eq!(block_file_name(999_999_999), "block_999999999.png");
    assert_eq!(block_file_name(1_000_000_000), "block_1000000000.png");
    assert_eq!(block_file_name(u32::MAX), "block_4294967295.png");
    assert_eq!(block_file_name(u32::MAX), format!("block_{:08}.png", u32::MAX));
}
