use cs120_project::bits::{gen_random_data, read_compressed_u8_2_data, read_data_2_compressed_u8};
use cs120_project::hexbit::{code_rs_hexbit_2_u8, u8_2_code_rs_hexbit, Hexbit};

#[test]
fn compress_packs_most_significant_bit_first() {
    let bits = vec![1, 0, 1, 1, 0, 0, 0, 1, 1, 1];
    assert_eq!(read_data_2_compressed_u8(bits), vec![0b1011_0001, 0b1100_0000]);
}

#[test]
fn compress_of_nothing_is_nothing() {
    assert_eq!(read_data_2_compressed_u8(Vec::new()), Vec::<u8>::new());
    assert_eq!(read_compressed_u8_2_data(Vec::new()), Vec::<u8>::new());
}

#[test]
fn decompress_spreads_each_byte() {
    assert_eq!(read_compressed_u8_2_data(vec![0xB1, 0x02]), vec![1, 0, 1, 1, 0, 0, 0, 1, 0, 0, 0, 0, 0, 0, 1, 0]);
}

#[test]
fn decompress_then_compress_gives_bytes_back() {
    let bytes: Vec<u8> = (0..=255u8).collect();
    let bits = read_compressed_u8_2_data(bytes.clone());
    assert_eq!(bits.len(), 8 * 256);
    assert_eq!(read_data_2_compressed_u8(bits), bytes);
}

#[test]
fn compress_then_decompress_gives_whole_bytes_of_bits_back() {
    let bits = vec![0, 1, 1, 0, 1, 0, 0, 1, 1, 1, 1, 1, 0, 0, 0, 0];
    let bytes = read_data_2_compressed_u8(bits.clone());
    assert_eq!(read_compressed_u8_2_data(bytes), bits);
}

#[test]
fn random_data_has_the_length_and_only_bits() {
    let data = gen_random_data(1000);
    assert_eq!(data.len(), 1000);
    assert!(data.iter().all(|b| *b < 2));
    assert!(data.iter().any(|b| *b == 0));
    assert!(data.iter().any(|b| *b == 1));
}

#[test]
fn bytes_split_into_hexbits() {
    let hexbits = u8_2_code_rs_hexbit(vec![0xFF, 0x00, 0xAB, 0x12, 0x34, 0x56]);
    let values: Vec<u8> = hexbits.iter().map(|h| h.bits()).collect();
    assert_eq!(values, vec![63, 48, 2, 43, 4, 35, 17, 22]);
}

#[test]
fn hexbits_join_into_bytes() {
    let hexbits: Vec<Hexbit> = [63u8, 48, 2, 43].iter().map(|b| Hexbit::new(*b)).collect();
    assert_eq!(code_rs_hexbit_2_u8(hexbits), vec![0xFF, 0x00, 0xAB]);
}

#[test]
fn hexbit_roundtrip_on_all_byte_values() {
    let bytes: Vec<u8> = (0..=255u8).chain(0..2u8).collect();
    assert_eq!(bytes.len() % 3, 0);
    let hexbits = u8_2_code_rs_hexbit(bytes.clone());
    assert_eq!(hexbits.len(), bytes.len() / 3 * 4);
    assert!(hexbits.iter().all(|h| h.bits() < 64));
    assert_eq!(code_rs_hexbit_2_u8(hexbits), bytes);
}

#[test]
fn hexbit_holds_its_value() {
    assert_eq!(Hexbit::new(0).bits(), 0);
    assert_eq!(Hexbit::new(42).bits(), 42);
    assert_eq!(Hexbit::new(63).bits(), 63);
}
