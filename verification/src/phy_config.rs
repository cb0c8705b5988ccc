//! The frame sizes the physical layer works with, derived from its settings.

use vstd::prelude::*;

verus! {

/// The number of payload bits and of data bits in a frame: with error
/// correction, the encoded payload and the data it holds; without it, the
/// checksum, length and data fields together, and the data field.
pub fn frame_bit_lengths(
    enable_ecc: bool,
    frame_payload_length: usize,
    max_frame_data_length: usize,
    frame_crc_length_no_encoding: usize,
    frame_length_length_no_encoding: usize,
    max_frame_data_length_no_encoding: usize,
) -> (r: (usize, usize))
    requires
        !enable_ecc ==> frame_crc_length_no_encoding + frame_length_length_no_encoding
            + max_frame_data_length_no_encoding <= usize::MAX,
    ensures
        enable_ecc ==> r == (frame_payload_length, max_frame_data_length),
        !enable_ecc ==> r == ((frame_crc_length_no_encoding + frame_length_length_no_encoding
            + max_frame_data_length_no_encoding) as usize, max_frame_data_length_no_encoding),
{
    if enable_ecc {
        (frame_payload_length, max_frame_data_length)
    } else {
        (
            frame_crc_length_no_encoding + frame_length_length_no_encoding
                + max_frame_data_length_no_encoding,
            max_frame_data_length_no_encoding,
        )
    }
}

} // verus!
