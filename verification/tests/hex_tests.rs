use luck_jingle::hex::{decode_hex, encode_hex, HexError};

#[test]
fn encode_simple_bytes() {
    let bytes: Vec<u8> = vec![0x1d, 0x76, 0x30, 0x00, 0xff, 0x0a];
    let hex = encode_hex(&bytes);
    assert_eq!(hex, b"1D763000FF0A".to_vec());
}

#[test]
fn encode_empty() {
    let hex = encode_hex(&Vec::new());
    assert!(hex.is_empty());
}

#[test]
fn decode_uppercase() {
    let hex: Vec<u8> = b"1D763000FF0A".to_vec();
    let bytes = decode_hex(&hex).unwrap();
    assert_eq!(bytes, vec![0x1d, 0x76, 0x30, 0x00, 0xff, 0x0a]);
}

#[test]
fn decode_lowercase() {
    let hex: Vec<u8> = b"ab0f".to_vec();
    let bytes = decode_hex(&hex).unwrap();
    assert_eq!(bytes, vec![0xab, 0x0f]);
}

#[test]
fn decode_odd_length_rejected() {
    let hex: Vec<u8> = b"1D7".to_vec();
    assert_eq!(decode_hex(&hex), Err(HexError::OddLength));
}

#[test]
fn decode_invalid_digit_rejected() {
    let hex: Vec<u8> = b"1G".to_vec();
    assert_eq!(decode_hex(&hex), Err(HexError::InvalidDigit));
    let hex2: Vec<u8> = b"  ".to_vec();
    assert_eq!(decode_hex(&hex2), Err(HexError::InvalidDigit));
}

#[test]
fn round_trip_encode_decode() {
    let bytes: Vec<u8> = (0u16..=255).map(|b| b as u8).collect();
    let hex = encode_hex(&bytes);
    assert_eq!(decode_hex(&hex).unwrap(), bytes);
}

#[test]
fn round_trip_decode_encode() {
    let hex: Vec<u8> = b"0123456789ABCDEF".to_vec();
    let bytes = decode_hex(&hex).unwrap();
    assert_eq!(encode_hex(&bytes), hex);
}
