use code_rs::coding::reed_solomon;
use cs120_project::bits::read_compressed_u8_2_data;
use cs120_project::demodulation::{decode, decode_no_encoding, decoded_frame_bits, dot_product_iter, DemodulationState};
use cs120_project::hexbit::{code_rs_hexbit_2_u8, u8_2_code_rs_hexbit, Hexbit};
use cs120_project::phy_config::frame_bit_lengths;
use cs120_project::phy_frame::{
    hexbits_length_2_usize_length, usize_length_2_hexbits_length, FrameError, PHYFrame,
    FRAME_LENGTH_LENGTH_NO_ENCODING, FRAME_PAYLOAD_LENGTH, MAX_FRAME_DATA_LENGTH,
};

fn values(hs: &[Hexbit]) -> Vec<u8> {
    hs.iter().map(|h| h.bits()).collect()
}

/// A codeword of the (24, 16) Reed-Solomon code with the given data hexbits.
fn codeword(data: [u8; 16]) -> Vec<Hexbit> {
    let mut w = [code_rs::bits::Hexbit::new(0); 24];
    for i in 0..16 {
        w[i] = code_rs::bits::Hexbit::new(data[i]);
    }
    reed_solomon::medium::encode(&mut w);
    w.iter().map(|h| Hexbit::new(h.bits())).collect()
}

fn sample_data() -> [u8; 16] {
    // length 100 in the first two hexbits, then fourteen data hexbits
    [1, 36, 10, 20, 30, 40, 50, 60, 5, 15, 25, 35, 45, 55, 0, 63]
}

#[test]
fn length_in_two_hexbits() {
    assert_eq!(values(&usize_length_2_hexbits_length(100)), vec![1, 36]);
    assert_eq!(values(&usize_length_2_hexbits_length(4095)), vec![63, 63]);
    assert_eq!(values(&usize_length_2_hexbits_length(0)), vec![0, 0]);
    for n in [0usize, 1, 63, 64, 100, 2000, 4095] {
        assert_eq!(hexbits_length_2_usize_length(usize_length_2_hexbits_length(n)), n);
    }
}

#[test]
fn frame_without_coding_is_length_data_and_padding() {
    let (len, bytes) = PHYFrame::new_no_encoding(0x0102, vec![7, 8, 9]);
    assert_eq!(len, 0x0102);
    let mut expected = vec![0x01, 0x02, 7, 8, 9];
    expected.resize(18, 0);
    assert_eq!(bytes, expected);
    assert_eq!((MAX_FRAME_DATA_LENGTH + FRAME_LENGTH_LENGTH_NO_ENCODING) / 8, 18);
}

#[test]
fn frame_without_coding_keeps_long_data_whole() {
    let data: Vec<u8> = (0..20).collect();
    let (_, bytes) = PHYFrame::new_no_encoding(160, data.clone());
    assert_eq!(bytes.len(), 22);
    assert_eq!(&bytes[2..], &data[..]);
}

#[test]
fn too_long_data_is_refused() {
    assert_eq!(PHYFrame::data_2_payload(vec![0; 4], 200).unwrap_err(), FrameError::DataTooLong);
    assert_eq!(PHYFrame::data_2_payload(vec![0; 17], 8).unwrap_err(), FrameError::DataTooLong);
}

#[test]
fn a_clean_codeword_is_read() {
    let word = codeword(sample_data());
    let parity = values(&word[16..]);
    let (data, length) = PHYFrame::payload_2_data(word.clone()).unwrap();
    assert_eq!(length, 100);
    let mut hexbits: Vec<Hexbit> = word[2..22].to_vec();
    assert_eq!(values(&hexbits[14..]), parity[..6].to_vec());
    let expected = code_rs_hexbit_2_u8(std::mem::take(&mut hexbits));
    assert_eq!(data.len(), 15);
    assert_eq!(data, expected);
}

#[test]
fn errors_in_the_data_symbols_are_corrected() {
    let clean = codeword(sample_data());
    let mut noisy = clean.clone();
    noisy[3] = Hexbit::new(noisy[3].bits() ^ 0b101010);
    noisy[9] = Hexbit::new(noisy[9].bits() ^ 0b000001);
    assert_eq!(PHYFrame::payload_2_data(noisy).unwrap(), PHYFrame::payload_2_data(clean).unwrap());
}

#[test]
fn errors_in_the_length_are_corrected() {
    let clean = codeword(sample_data());
    let mut noisy = clean.clone();
    noisy[0] = Hexbit::new(17);
    let (_, length) = PHYFrame::payload_2_data(noisy).unwrap();
    assert_eq!(length, 100);
}

#[test]
fn a_corrected_payload_is_read_as_length_and_data() {
    let word: Vec<Hexbit> = (0..24u8).map(|i| Hexbit::new(if i == 0 { 0 } else { i })).collect();
    let (data, length) = PHYFrame::read_corrected_payload(&word);
    assert_eq!(length, 1);
    let expected = code_rs_hexbit_2_u8(word[2..22].to_vec());
    assert_eq!(data, expected);
}

#[test]
fn received_bits_of_a_frame_are_decoded() {
    let word = codeword(sample_data());
    let bytes = code_rs_hexbit_2_u8(word.clone());
    assert_eq!(bytes.len(), 18);
    assert_eq!(values(&u8_2_code_rs_hexbit(bytes.clone())), values(&word));
    let bits = read_compressed_u8_2_data(bytes);
    assert_eq!(bits.len(), 144);
    assert_eq!(decode(&bits).unwrap(), PHYFrame::payload_2_data(word).unwrap());
}

#[test]
fn decoded_frame_keeps_the_announced_bits() {
    assert_eq!(decoded_frame_bits(vec![0xF0, 0x0F], 6, 16), Some(vec![1, 1, 1, 1, 0, 0]));
    assert_eq!(decoded_frame_bits(vec![0xF0, 0x0F], 17, 16), None);
    assert_eq!(decoded_frame_bits(vec![0xF0, 0x0F], 0, 16), Some(vec![]));
}

#[test]
fn payload_bytes_grouped_by_four() {
    let groups = PHYFrame::construct_payload_format((1..=8).collect());
    assert_eq!(groups, vec![vec![1, 2, 3, 4], vec![5, 6, 7, 8]]);
    assert_eq!(PHYFrame::construct_payload_format(vec![]), Vec::<Vec<u8>>::new());
}

#[test]
fn frame_lengths_from_the_settings() {
    assert_eq!(frame_bit_lengths(true, FRAME_PAYLOAD_LENGTH, MAX_FRAME_DATA_LENGTH, 8, 16, 96), (144, 128));
    assert_eq!(frame_bit_lengths(false, FRAME_PAYLOAD_LENGTH, MAX_FRAME_DATA_LENGTH, 8, 16, 96), (120, 96));
}

#[test]
fn demodulator_states_alternate() {
    let s = DemodulationState::DetectPreamble;
    assert_eq!(s.next(), DemodulationState::RecvFrame);
    assert_eq!(s.next().next(), DemodulationState::DetectPreamble);
    assert_eq!(DemodulationState::Stop.next(), DemodulationState::Stop);
}

#[test]
fn dot_product_over_the_shorter_signal() {
    assert_eq!(dot_product_iter(&[1, 2, 3], &[4, 5, 6]), 32);
    assert_eq!(dot_product_iter(&[1, -2, 3, 100], &[4, 5, 6]), 12);
    assert_eq!(dot_product_iter(&[], &[4, 5, 6]), 0);
    assert_eq!(dot_product_iter(&[-7], &[-6, 1]), 42);
}

#[test]
fn plain_frames_carry_the_length_in_two_bytes() {
    let (_, bytes) = PHYFrame::new_no_encoding(24, vec![0xAB, 0xCD, 0xEF]);
    let bits = read_compressed_u8_2_data(bytes);
    let (data, length) = decode_no_encoding(&bits, 24);
    assert_eq!(length, 24);
    assert_eq!(data, vec![0xAB, 0xCD, 0xEF]);
    let (data, _) = decode_no_encoding(&bits, 128);
    assert_eq!(data.len(), 16);
    assert_eq!(&data[..3], &[0xAB, 0xCD, 0xEF]);
    assert!(data[3..].iter().all(|b| *b == 0));
}
