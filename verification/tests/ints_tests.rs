use tracker_core::decimal::{i64_to_dec, parse_dec_u64, u64_to_dec};
use tracker_core::ints::{convert_bytes_to_int, convert_int_to_bytes, read_be, u64_to_be_bytes};

#[test]
fn int_to_bytes_small_values() {
    assert_eq!(convert_int_to_bytes(&0), vec![0u8]);
    assert_eq!(convert_int_to_bytes(&1), vec![1u8]);
    assert_eq!(convert_int_to_bytes(&255), vec![255u8]);
    assert_eq!(convert_int_to_bytes(&256), vec![1u8, 0]);
    assert_eq!(convert_int_to_bytes(&65536), vec![1u8, 0, 0]);
}

#[test]
fn int_to_bytes_large_value_is_empty() {
    // values needing all eight bytes come back empty, as the shortest
    // encoding is capped at seven bytes
    let big = 1u64 << 56;
    assert_eq!(convert_int_to_bytes(&big), Vec::<u8>::new());
    let just_below = (1u64 << 56) - 1;
    assert_eq!(convert_int_to_bytes(&just_below).len(), 7);
}

#[test]
fn bytes_to_int_round_trip() {
    for n in [0u64, 1, 255, 256, 65535, 123456789, (1 << 56) - 1] {
        let b = convert_int_to_bytes(&n);
        assert_eq!(convert_bytes_to_int(&b), n);
    }
}

#[test]
fn bytes_to_int_reads_big_endian() {
    assert_eq!(convert_bytes_to_int(&vec![1u8, 2]), 258);
    assert_eq!(convert_bytes_to_int(&vec![0u8, 0, 0, 0, 0, 0, 0, 1]), 1);
    assert_eq!(convert_bytes_to_int(&Vec::new()), 0);
}

#[test]
fn read_be_at_offset() {
    let v = vec![9u8, 9, 0x12, 0x34, 9];
    assert_eq!(read_be(&v, 2, 2), 0x1234);
}

#[test]
fn be_bytes_fixed_width() {
    let b = u64_to_be_bytes(0xDEADBEEF, 8);
    assert_eq!(b, vec![0, 0, 0, 0, 0xde, 0xad, 0xbe, 0xef]);
}

#[test]
fn dec_rendering() {
    assert_eq!(u64_to_dec(0), "0");
    assert_eq!(u64_to_dec(90210), "90210");
    assert_eq!(u64_to_dec(u64::MAX), "18446744073709551615");
    assert_eq!(i64_to_dec(-5), "-5");
    assert_eq!(i64_to_dec(i64::MIN), "-9223372036854775808");
    assert_eq!(i64_to_dec(7), "7");
}

#[test]
fn dec_parsing() {
    assert_eq!(parse_dec_u64(&b"0".to_vec()), Some(0));
    assert_eq!(parse_dec_u64(&b"6881".to_vec()), Some(6881));
    assert_eq!(parse_dec_u64(&b"18446744073709551615".to_vec()), Some(u64::MAX));
    assert_eq!(parse_dec_u64(&b"18446744073709551616".to_vec()), None);
    assert_eq!(parse_dec_u64(&b"12a".to_vec()), None);
    assert_eq!(parse_dec_u64(&b"".to_vec()), None);
}
