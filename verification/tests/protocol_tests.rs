use luck_jingle::dither::MonochromeBitmap;
use luck_jingle::protocol::{encode_print_job, packets_from_hex, to_uhex};

#[test]
fn uhex_renders_uppercase_without_leading_zeros() {
    assert_eq!(to_uhex(0), b"0".to_vec());
    assert_eq!(to_uhex(10), b"A".to_vec());
    assert_eq!(to_uhex(300), b"12C".to_vec());
    assert_eq!(to_uhex(0x1d76), b"1D76".to_vec());
}

#[test]
fn header_short_length_field_keeps_front_and_pads_end() {
    // len = 96 * 7 = 672, so row_units = 7 + 3 = 10 = "A": front "A",
    // end "00"; header hex is the preamble + "A00" padded to 32.
    let hex: Vec<u8> = vec![b'0'; 672];
    let packets = packets_from_hex(&hex);
    let header = &packets[0];
    assert_eq!(header.len(), 128);
    assert_eq!(&header[0..6], &[0x1d, 0x76, 0x30, 0x00, 0x30, 0x00]);
    assert_eq!(header[6], 0xa0);
    assert_eq!(header[7], 0x00);
    // chunks: ceil((672 - 224) / 256) = 2
    assert_eq!(packets.len(), 3);
}

#[test]
fn header_long_length_field_moves_first_digit_to_end() {
    // len = 96 * 297 = 28512, so row_units = 300 = "12C": front "2C",
    // end "01".
    let hex: Vec<u8> = vec![b'0'; 28512];
    let packets = packets_from_hex(&hex);
    let header = &packets[0];
    assert_eq!(&header[0..6], &[0x1d, 0x76, 0x30, 0x00, 0x30, 0x00]);
    assert_eq!(header[6], 0x2c);
    assert_eq!(header[7], 0x01);
}

#[test]
fn chunking_exact_multiple_needs_no_padding() {
    // len = 224 + 256 * 2: exactly two full chunks.
    let hex: Vec<u8> = vec![b'F'; 224 + 512];
    let packets = packets_from_hex(&hex);
    assert_eq!(packets.len(), 3);
    assert_eq!(packets[1].len(), 128);
    assert_eq!(packets[2].len(), 128);
    assert!(packets[1].iter().all(|&b| b == 0xff));
    assert!(packets[2].iter().all(|&b| b == 0xff));
}

#[test]
fn chunking_remainder_pads_the_last_chunk() {
    // len = 224 + 256 * 2 + 100: three chunks, the last 100 characters
    // padded with 156 zeros.
    let hex: Vec<u8> = vec![b'F'; 224 + 512 + 100];
    let packets = packets_from_hex(&hex);
    assert_eq!(packets.len(), 4);
    let last = &packets[3];
    assert_eq!(last.len(), 128);
    assert!(last[0..50].iter().all(|&b| b == 0xff));
    assert!(last[50..128].iter().all(|&b| b == 0x00));
}

#[test]
fn print_job_of_a_white_bitmap() {
    let bm = MonochromeBitmap { height: 3, data: vec![0u8; 144] };
    let job = encode_print_job(&bm);
    // hex length 288: row_units = 288 / 96 + 3 = 6, one padded chunk.
    assert_eq!(job.packets.len(), 3);
    let header = &job.packets[0];
    assert_eq!(&header[0..6], &[0x1d, 0x76, 0x30, 0x00, 0x30, 0x00]);
    assert_eq!(header[6], 0x60);
    assert_eq!(header[7], 0x00);
    assert_eq!(job.packets[1].len(), 128);
    assert!(job.packets[1].iter().all(|&b| b == 0x00));
    assert_eq!(job.packets[2], vec![0x10, 0xff, 0xf1, 0x45]);
}

#[test]
fn packet_hex_round_trips() {
    let hex: Vec<u8> = vec![b'0'; 672];
    let packets = packets_from_hex(&hex);
    // Re-encoding the header's decoded bytes reproduces its hex text.
    let header_hex = luck_jingle::hex::encode_hex(&packets[0]);
    let mut expected: Vec<u8> = b"1D7630003000A00".to_vec();
    expected.extend(std::iter::repeat(b'0').take(17));
    expected.extend(std::iter::repeat(b'0').take(224));
    assert_eq!(header_hex, expected);
}
