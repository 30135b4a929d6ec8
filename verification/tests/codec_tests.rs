use tracker_core::codec::{bin2hex, hex2bin};
use tracker_core::ids::InfoHash;

fn sample_bytes() -> Vec<u8> {
    let mut v = Vec::new();
    for i in 0..20u8 {
        v.push(i.wrapping_mul(13).wrapping_add(7));
    }
    v
}

#[test]
fn bin2hex_zero_bytes() {
    let v = vec![0u8; 20];
    assert_eq!(bin2hex(&v), "0000000000000000000000000000000000000000");
}

#[test]
fn bin2hex_known_value() {
    let v = vec![0xde, 0xad, 0xbe, 0xef];
    assert_eq!(bin2hex(&v), "deadbeef");
}

#[test]
fn hex_round_trip_bin_first() {
    let v = sample_bytes();
    let hex = bin2hex(&v);
    let back = hex2bin(hex).unwrap();
    assert_eq!(back, v);
}

#[test]
fn hex_round_trip_text_first_lowercases() {
    let upper = String::from("DEADBEEF00112233445566778899AABBCCDDEEFF");
    let bin = hex2bin(upper).unwrap();
    let hex = bin2hex(&bin);
    assert_eq!(hex, "deadbeef00112233445566778899aabbccddeeff");
}

#[test]
fn hex2bin_rejects_odd_length() {
    assert!(hex2bin(String::from("abc")).is_err());
}

#[test]
fn hex2bin_rejects_short_input() {
    assert!(hex2bin(String::from("deadbeef")).is_err());
}

#[test]
fn hex2bin_rejects_non_hex() {
    assert!(hex2bin(String::from("zz00000000000000000000000000000000000000")).is_err());
}

#[test]
fn hex2bin_takes_first_twenty_bytes() {
    let long = String::from("0000000000000000000000000000000000000001ffff");
    let err = hex2bin(long);
    // 44 characters: valid, decodes, first 20 bytes taken
    let bin = err.unwrap();
    assert_eq!(bin.len(), 20);
    assert_eq!(bin[19], 1);
}

#[test]
fn info_hash_hex_round_trip() {
    let h = InfoHash::new(sample_bytes());
    let hex = h.to_hex();
    let h2 = InfoHash::from_hex(hex.clone()).unwrap();
    assert_eq!(h2.to_hex(), hex);
    assert_eq!(h2.bytes, sample_bytes());
}
