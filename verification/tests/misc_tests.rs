use tracker_core::bencode::{build_announce_reply, build_failure, build_scrape_reply};
use tracker_core::http::{parse_announce_query, AnnounceParseError};
use tracker_core::ids::{InfoHash, PeerId};
use tracker_core::query::parse_query;
use tracker_core::stats::{StatsBank, StatsEvent};
use tracker_core::torrents::{select_peers, AnnounceEvent, PeerAddr, TorrentStore};
use tracker_core::udp::compact_peers;
use tracker_core::users::{apply_user_delta, user_id_from_row_key, UserStore, UserEntryItem};
use tracker_core::util::{current_time, debug_quote, equal_string_check, return_type};

#[test]
fn bencode_failure_body() {
    let body = build_failure(&b"msg".to_vec());
    assert_eq!(body, b"d14:failure reason3:msge".to_vec());
}

#[test]
fn bencode_announce_body() {
    let peers4 = vec![10u8, 0, 0, 1, 0x1a, 0xe1];
    let body = build_announce_reply(1, 0, 1, 1800, 900, &peers4, &Vec::new(), false);
    let expected = b"d8:completei1e10:downloadedi0e10:incompletei1e8:intervali1800e12:min intervali900e5:peers6:".to_vec();
    assert_eq!(&body[..expected.len()], &expected[..]);
    assert_eq!(&body[expected.len()..expected.len() + 6], &peers4[..]);
    assert_eq!(body[body.len() - 1], b'e');
}

#[test]
fn bencode_announce_body_with_peers6() {
    let body = build_announce_reply(0, 0, 0, 60, 30, &Vec::new(), &Vec::new(), true);
    assert_eq!(
        body,
        b"d8:completei0e10:downloadedi0e10:incompletei0e8:intervali60e12:min intervali30e5:peers0:6:peers60:e".to_vec()
    );
}

#[test]
fn bencode_scrape_body() {
    let hash = vec![0x01u8; 20];
    let body = build_scrape_reply(&vec![(hash.clone(), 1, 2, 3)]);
    let mut expected = b"d5:filesd20:".to_vec();
    expected.extend_from_slice(&hash);
    expected.extend_from_slice(b"d8:completei1e10:downloadedi2e10:incompletei3eeee");
    assert_eq!(body, expected);
}

#[test]
fn http_announce_query_parses() {
    let mut q = String::from("info_hash=");
    for _ in 0..20 {
        q.push_str("%00");
    }
    q.push_str("&peer_id=");
    for _ in 0..20 {
        q.push_str("%01");
    }
    q.push_str("&port=6881&uploaded=10&downloaded=20&left=100&event=started&numwant=50&compact=1");
    let qm = parse_query(Some(q)).unwrap();
    let req = parse_announce_query(&qm).unwrap();
    assert_eq!(req.info_hash.bytes, vec![0u8; 20]);
    assert_eq!(req.peer_id.bytes, vec![1u8; 20]);
    assert_eq!(req.port, 6881);
    assert_eq!(req.uploaded, 10);
    assert_eq!(req.downloaded, 20);
    assert_eq!(req.left, 100);
    assert_eq!(req.event, AnnounceEvent::Started);
    assert_eq!(req.numwant, 50);
    assert!(req.compact);
}

#[test]
fn http_announce_query_defaults_and_caps() {
    let mut q = String::from("info_hash=");
    for _ in 0..20 {
        q.push_str("%00");
    }
    q.push_str("&peer_id=");
    for _ in 0..20 {
        q.push_str("%01");
    }
    q.push_str("&port=1&uploaded=0&downloaded=0&left=0&numwant=500");
    let qm = parse_query(Some(q)).unwrap();
    let req = parse_announce_query(&qm).unwrap();
    assert_eq!(req.event, AnnounceEvent::NoEvent);
    assert_eq!(req.numwant, 72);
    assert!(!req.compact);
}

#[test]
fn http_announce_query_requires_fields() {
    let qm = parse_query(Some(String::from("port=1"))).unwrap();
    assert!(parse_announce_query(&qm).is_err());
}

#[test]
fn sha1_digest_matches_known_vector() {
    let id = user_id_from_row_key(&b"abc".to_vec());
    assert_eq!(id.to_hex(), "a9993e364706816aba3e25717850c26c9cd0d89d");
}

#[test]
fn user_accounting() {
    let mut user = UserEntryItem {
        user_id: Some(1),
        user_uuid: None,
        key: tracker_core::ids::UserId::new(vec![0u8; 20]),
        uploaded: 100,
        downloaded: 50,
        completed: 0,
        updated: 0,
        active: 1,
        torrents_active: tracker_core::idmap::AssocMap::new(),
    };
    let h = InfoHash::new(vec![3u8; 20]);
    apply_user_delta(&mut user, &h, 10, 20, AnnounceEvent::Started, 500);
    assert_eq!(user.uploaded, 110);
    assert_eq!(user.downloaded, 70);
    assert_eq!(user.updated, 500);
    assert_eq!(user.torrents_active.len(), 1);
    apply_user_delta(&mut user, &h, 0, 0, AnnounceEvent::Completed, 600);
    assert_eq!(user.completed, 1);
    assert_eq!(user.torrents_active.len(), 0);
}

#[test]
fn user_store_round_trip() {
    let mut store = UserStore::new();
    let uid = user_id_from_row_key(&b"42".to_vec());
    let item = UserEntryItem {
        user_id: Some(42),
        user_uuid: None,
        key: tracker_core::ids::UserId::new(vec![0u8; 20]),
        uploaded: 0,
        downloaded: 0,
        completed: 0,
        updated: 0,
        active: 1,
        torrents_active: tracker_core::idmap::AssocMap::new(),
    };
    assert!(store.add_user(&uid, item));
    assert!(store.get_user(&uid).is_some());
    assert_eq!(store.len(), 1);
    assert!(store.remove_user(&uid, true).is_some());
    assert_eq!(store.len(), 0);
}

#[test]
fn stats_counters() {
    let mut bank = StatsBank::new();
    assert_eq!(bank.get_stats(StatsEvent::Seeds), 0);
    assert_eq!(bank.update_stats(StatsEvent::Seeds, 5), 5);
    assert_eq!(bank.update_stats(StatsEvent::Seeds, -2), 3);
    assert_eq!(bank.get_stats(StatsEvent::Peers), 0);
    assert_eq!(bank.set_stats(StatsEvent::Completed, 41), 41);
    assert_eq!(bank.get_stats(StatsEvent::Completed), 41);
    assert_eq!(bank.update_stats(StatsEvent::Torrents, i64::MAX), i64::MAX);
    assert_eq!(bank.update_stats(StatsEvent::Torrents, i64::MAX), i64::MAX);
}

#[test]
fn debug_quoting() {
    assert_eq!(debug_quote("abc"), "\"abc\"");
    assert_eq!(debug_quote("a\"b\\c"), "\"a\\\"b\\\\c\"");
    assert_eq!(debug_quote("line\nbreak"), "\"line\\nbreak\"");
    let source = String::from("\"abc\"");
    let check = String::from("abc");
    assert!(equal_string_check(&source, &check));
    assert!(!equal_string_check(&check, &check));
}

#[test]
fn type_reporting_is_quoted() {
    let value = 5u64;
    let name = return_type(&value);
    assert!(name.starts_with('"'));
    assert!(name.ends_with('"'));
}

#[test]
fn clock_advances_from_zero() {
    assert!(current_time() > 1_600_000_000);
}

#[test]
fn sha1_name_is_not_input() {
    // the digest is not the identity on its input
    let d = digest_of(b"aaaaaaaaaaaaaaaaaaaa".to_vec());
    assert_ne!(d, b"aaaaaaaaaaaaaaaaaaaa".to_vec());
}

fn digest_of(v: Vec<u8>) -> Vec<u8> {
    user_id_from_row_key(&v).bytes
}

#[test]
fn announce_query_error_variants() {
    let mut base = String::from("info_hash=");
    for _ in 0..20 {
        base.push_str("%00");
    }
    // missing peer_id
    let qm = parse_query(Some(base.clone())).unwrap();
    assert_eq!((match parse_announce_query(&qm) { Err(e) => e, Ok(_) => panic!("expected an error") }), AnnounceParseError::MissingPeerId);
    // short info_hash
    let qm = parse_query(Some(String::from("info_hash=abc"))).unwrap();
    assert_eq!((match parse_announce_query(&qm) { Err(e) => e, Ok(_) => panic!("expected an error") }), AnnounceParseError::InvalidInfoHash);
    // bad port
    base.push_str("&peer_id=");
    for _ in 0..20 {
        base.push_str("%01");
    }
    let qm = parse_query(Some(format!("{base}&port=99999&uploaded=0&downloaded=0&left=0"))).unwrap();
    assert_eq!((match parse_announce_query(&qm) { Err(e) => e, Ok(_) => panic!("expected an error") }), AnnounceParseError::InvalidPort);
    // missing left
    let qm = parse_query(Some(format!("{base}&port=1&uploaded=0&downloaded=0"))).unwrap();
    assert_eq!((match parse_announce_query(&qm) { Err(e) => e, Ok(_) => panic!("expected an error") }), AnnounceParseError::MissingLeft);
}

#[test]
fn ipv6_peers_get_their_own_compact_blocks() {
    let mut store = TorrentStore::new();
    let h = InfoHash::new(vec![0u8; 20]);
    let p6 = PeerId::new(vec![6u8; 20]);
    let mut ip6 = vec![0u8; 16];
    ip6[15] = 1;
    store.announce(
        &h,
        &p6,
        PeerAddr { is_v6: true, ip: ip6.clone(), port: 7000 },
        0,
        0,
        5,
        AnnounceEvent::Started,
        100,
    );
    let entry = store.get_torrent(&h).unwrap();
    let requester = PeerId::new(vec![9u8; 20]);
    let v6 = select_peers(entry, &requester, true, 72);
    assert_eq!(v6.len(), 1);
    let blocks = compact_peers(&v6);
    assert_eq!(blocks.len(), 18);
    assert_eq!(&blocks[0..16], &ip6[..]);
    assert_eq!(&blocks[16..18], &7000u16.to_be_bytes());
    let v4 = select_peers(entry, &requester, false, 72);
    assert_eq!(v4.len(), 0);
}
