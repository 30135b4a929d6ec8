use tracker_core::query::{parse_query, percent_decode_bytes, QueryMap};

fn get<'a>(qm: &'a QueryMap, key: &str) -> Option<&'a Vec<Vec<u8>>> {
    qm.get(&String::from(key))
}

#[test]
fn repeated_keys_accumulate() {
    let qm = parse_query(Some(String::from("a=1&a=2"))).unwrap();
    let values = get(&qm, "a").unwrap();
    assert_eq!(values.len(), 2);
    assert_eq!(values[0], b"1".to_vec());
    assert_eq!(values[1], b"2".to_vec());
}

#[test]
fn empty_value_is_preserved() {
    let qm = parse_query(Some(String::from("k="))).unwrap();
    let values = get(&qm, "k").unwrap();
    assert_eq!(values.len(), 1);
    assert_eq!(values[0], Vec::<u8>::new());
}

#[test]
fn bare_key_is_preserved() {
    let qm = parse_query(Some(String::from("flag"))).unwrap();
    let values = get(&qm, "flag").unwrap();
    assert_eq!(values.len(), 0);
}

#[test]
fn repeated_bare_key_appends_empty_value() {
    let qm = parse_query(Some(String::from("flag&flag"))).unwrap();
    let values = get(&qm, "flag").unwrap();
    assert_eq!(values.len(), 1);
    assert_eq!(values[0], Vec::<u8>::new());
}

#[test]
fn percent_decoding_applies_to_keys_and_values() {
    let qm = parse_query(Some(String::from("a%20b=c%2Fd"))).unwrap();
    let values = get(&qm, "a b").unwrap();
    assert_eq!(values[0], b"c/d".to_vec());
}

#[test]
fn keys_are_lowercased() {
    let qm = parse_query(Some(String::from("KEY=x"))).unwrap();
    assert!(get(&qm, "key").is_some());
    assert!(get(&qm, "KEY").is_none());
}

#[test]
fn empty_segments_are_skipped() {
    let qm = parse_query(Some(String::from("a=1&&b=2"))).unwrap();
    assert_eq!(get(&qm, "a").unwrap()[0], b"1".to_vec());
    assert_eq!(get(&qm, "b").unwrap()[0], b"2".to_vec());
}

#[test]
fn value_is_cut_at_second_equals() {
    let qm = parse_query(Some(String::from("a=b=c"))).unwrap();
    assert_eq!(get(&qm, "a").unwrap()[0], b"b".to_vec());
}

#[test]
fn missing_query_is_empty() {
    let qm = parse_query(None).unwrap();
    assert!(get(&qm, "a").is_none());
}

#[test]
fn percent_decode_leaves_partial_escapes() {
    assert_eq!(percent_decode_bytes(&b"a%2".to_vec()), b"a%2".to_vec());
    assert_eq!(percent_decode_bytes(&b"%zz".to_vec()), b"%zz".to_vec());
    assert_eq!(percent_decode_bytes(&b"%41%42".to_vec()), b"AB".to_vec());
}
