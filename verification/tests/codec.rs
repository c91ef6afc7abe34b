use bwfs::codec::{decode, encode, BLACK, WHITE};

#[test]
fn encode_puts_the_most_significant_bit_first() {
    let pixels = encode(&[0b1010_0001], 8);
    assert_eq!(pixels, vec![255, 0, 255, 0, 0, 0, 0, 255]);
}

#[test]
fn encode_pads_with_white_pixels() {
    let pixels = encode(&[0x00], 16);
    assert_eq!(&pixels[..8], &[BLACK; 8]);
    assert_eq!(&pixels[8..], &[WHITE; 8]);
}

#[test]
fn encode_of_nothing_is_all_white() {
    assert_eq!(encode(&[], 8), vec![255; 8]);
    assert_eq!(encode(&[], 0), Vec::<u8>::new());
}

#[test]
fn decode_reads_pixels_above_127_as_one() {
    let data = decode(&[128, 127, 255, 0, 200, 1, 126, 129]);
    assert_eq!(data, vec![0b1010_1001]);
}

#[test]
fn decode_of_a_short_run_fills_the_high_bits() {
    assert_eq!(decode(&[255, 255, 255]), vec![0b1110_0000]);
    assert_eq!(decode(&[]), Vec::<u8>::new());
    assert_eq!(decode(&[255; 9]), vec![0xFF, 0x80]);
}

#[test]
fn round_trip_returns_the_data_as_prefix() {
    let data: Vec<u8> = (0..=255u8).collect();
    let pixels = encode(&data, 8 * 300);
    let back = decode(&pixels);
    assert_eq!(back.len(), 300);
    assert_eq!(&back[..256], &data[..]);
}

#[test]
fn round_trip_pads_the_tail_with_ff() {
    let data = vec![0x12, 0x34, 0x00];
    let back = decode(&encode(&data, 64));
    assert_eq!(back, vec![0x12, 0x34, 0x00, 0xFF, 0xFF, 0xFF, 0xFF, 0xFF]);
}

#[test]
fn round_trip_of_a_full_raster_has_no_padding() {
    let data = vec![0xAA; 10];
    assert_eq!(decode(&encode(&data, 80)), data);
}
