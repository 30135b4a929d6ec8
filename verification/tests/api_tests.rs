use tracker_core::access::{resolve_access, AccessDecision, AccessList, KeysStore};
use tracker_core::api::{
    api_key_add, api_key_delete, api_list_delete, api_list_get, api_list_post, api_stats_update,
    build_torrent_detail, denied_announce_body, event_name, json_status, parse_hash_param,
    validate_api_token,
};
use tracker_core::ids::{InfoHash, PeerId};
use tracker_core::query::parse_query;
use tracker_core::stats::{StatsBank, StatsEvent};
use tracker_core::torrents::{AnnounceEvent, PeerAddr, TorrentStore};

const HEX_AA: &str = "aaaaaaaaaaaaaaaaaaaaaaaaaaaaaaaaaaaaaaaa";

#[test]
fn token_validation() {
    let key = String::from("s3cr3t");
    let qm = parse_query(Some(String::from("token=s3cr3t"))).unwrap();
    assert!(validate_api_token(&key, &qm));
    let qm = parse_query(Some(String::from("token=wrong"))).unwrap();
    assert!(!validate_api_token(&key, &qm));
    let qm = parse_query(Some(String::from("other=s3cr3t"))).unwrap();
    assert!(!validate_api_token(&key, &qm));
    let qm = parse_query(None).unwrap();
    assert!(!validate_api_token(&key, &qm));
}

#[test]
fn json_status_shape() {
    assert_eq!(json_status("ok"), "{\"status\":\"ok\"}");
    assert_eq!(json_status("invalid token"), "{\"status\":\"invalid token\"}");
}

#[test]
fn hash_param_parsing() {
    assert!(parse_hash_param(None).is_err());
    assert!(parse_hash_param(Some(String::from("xyz"))).is_err());
    assert!(parse_hash_param(Some(String::from("zz"))).is_err());
    let h = parse_hash_param(Some(String::from(HEX_AA))).unwrap();
    assert_eq!(h.bytes, vec![0xAA; 20]);
}

#[test]
fn whitelist_handlers_round_trip() {
    let mut wl = AccessList::new();
    let key = String::from("k");
    let good = parse_query(Some(String::from("token=k"))).unwrap();
    let bad = parse_query(Some(String::from("token=no"))).unwrap();

    let r = api_list_post(&mut wl, &key, &bad, Some(String::from(HEX_AA)));
    assert_eq!(r, "{\"status\":\"invalid token\"}");

    let r = api_list_get(&wl, &key, &good, Some(String::from(HEX_AA)));
    assert_eq!(r, "{\"status\":\"not found\"}");

    let r = api_list_post(&mut wl, &key, &good, Some(String::from(HEX_AA)));
    assert_eq!(r, "{\"status\":\"ok\"}");

    let r = api_list_get(&wl, &key, &good, Some(String::from(HEX_AA)));
    assert_eq!(r, "{\"status\":\"ok\"}");

    let r = api_list_get(&wl, &key, &good, None);
    assert_eq!(r, "{\"status\":\"unknown info_hash\"}");

    let r = api_list_get(&wl, &key, &good, Some(String::from("nothex")));
    assert_eq!(r, "{\"status\":\"invalid info_hash\"}");

    let r = api_list_delete(&mut wl, &key, &good, Some(String::from(HEX_AA)), true);
    assert_eq!(r, "{\"status\":\"ok\"}");
    let h = InfoHash::new(vec![0xAA; 20]);
    assert!(!wl.contains(&h));
}

#[test]
fn key_handlers() {
    let mut ks = KeysStore::new();
    let kh = InfoHash::new(vec![7u8; 20]);
    let r = api_key_add(&mut ks, &kh, 60, 1000);
    assert_eq!(r, "{\"status\":\"ok\"}");
    assert!(ks.check_key(&kh, 1059));
    assert!(!ks.check_key(&kh, 1060));
    let r = api_key_delete(&mut ks, &kh, true);
    assert_eq!(r, "{\"status\":\"ok\"}");
    assert!(!ks.check_key(&kh, 0));
}

#[test]
fn whitelist_enforcement_rejects_unlisted_hash() {
    // whitelist enabled, H2 not whitelisted
    let wl = AccessList::new();
    let h2 = InfoHash::new(vec![2u8; 20]);
    let mut stats = StatsBank::new();
    let decision = resolve_access(true, wl.contains(&h2), false, false, false);
    assert_eq!(decision, AccessDecision::NotWhitelisted);
    let body = denied_announce_body(decision);
    assert!(body.starts_with(b"d14:failure reason"));
    assert_eq!(body, b"d14:failure reason25:info_hash not whitelistede".to_vec());
    stats.update_stats(StatsEvent::Tcp4Failure, 1);
    assert_eq!(stats.get_stats(StatsEvent::Tcp4Failure), 1);
    // no torrent entry was created for H2: the engine was never called
    let store = TorrentStore::new();
    assert!(store.get_torrent(&h2).is_none());
}

#[test]
fn api_counters() {
    let mut stats = StatsBank::new();
    api_stats_update(&mut stats, true);
    api_stats_update(&mut stats, true);
    api_stats_update(&mut stats, false);
    assert_eq!(stats.get_stats(StatsEvent::Tcp4ConnectionsHandled), 2);
    assert_eq!(stats.get_stats(StatsEvent::Tcp4ApiHandled), 2);
    assert_eq!(stats.get_stats(StatsEvent::Tcp6ConnectionsHandled), 1);
    assert_eq!(stats.get_stats(StatsEvent::Tcp6ApiHandled), 1);
}

#[test]
fn torrent_detail_payload() {
    let mut store = TorrentStore::new();
    let h1 = InfoHash::new(vec![0xAA; 20]);
    let p1 = PeerId::new(vec![1u8; 20]);
    let p2 = PeerId::new(vec![2u8; 20]);
    store.announce(
        &h1,
        &p1,
        PeerAddr { is_v6: false, ip: vec![10, 0, 0, 1], port: 6881 },
        0,
        0,
        0,
        AnnounceEvent::Started,
        1000,
    );
    store.announce(
        &h1,
        &p2,
        PeerAddr { is_v6: false, ip: vec![10, 0, 0, 2], port: 6882 },
        5,
        6,
        7,
        AnnounceEvent::Started,
        1001,
    );
    let entry = store.get_torrent(&h1).unwrap();
    let detail = build_torrent_detail(&h1, entry);
    assert_eq!(detail.info_hash, HEX_AA);
    assert_eq!(detail.seeders, 1);
    assert_eq!(detail.leechers, 1);
    assert_eq!(detail.completed, 0);
    assert_eq!(detail.peers.len(), 1);
    assert_eq!(detail.peers[0].id_hex, "0202020202020202020202020202020202020202");
    assert_eq!(detail.peers[0].ip, vec![10, 0, 0, 2]);
    assert_eq!(detail.peers[0].port, 6882);
    assert_eq!(detail.peers[0].uploaded, 5);
    assert_eq!(detail.peers[0].left, 7);
    assert_eq!(detail.peers[0].event, "Started");
}

#[test]
fn event_names() {
    assert_eq!(event_name(AnnounceEvent::Started), "Started");
    assert_eq!(event_name(AnnounceEvent::Stopped), "Stopped");
    assert_eq!(event_name(AnnounceEvent::Completed), "Completed");
    assert_eq!(event_name(AnnounceEvent::NoEvent), "None");
}
