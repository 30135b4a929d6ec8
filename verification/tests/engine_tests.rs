use tracker_core::ids::{InfoHash, PeerId};
use tracker_core::torrents::{
    select_peers, AnnounceEvent, PeerAddr, TorrentStore,
};

fn hash(fill: u8) -> InfoHash {
    InfoHash::new(vec![fill; 20])
}

fn peer(fill: u8) -> PeerId {
    PeerId::new(vec![fill; 20])
}

fn v4(a: u8, b: u8, c: u8, d: u8, port: u16) -> PeerAddr {
    PeerAddr { is_v6: false, ip: vec![a, b, c, d], port }
}

#[test]
fn first_time_leecher() {
    let mut store = TorrentStore::new();
    let h1 = hash(0);
    let p1 = peer(1);
    let outcome = store.announce(
        &h1,
        &p1,
        v4(10, 0, 0, 1, 6881),
        0,
        0,
        100,
        AnnounceEvent::Started,
        1000,
    );
    assert!(outcome.created);
    assert_eq!(outcome.complete, 0);
    assert_eq!(outcome.incomplete, 1);
    assert_eq!(outcome.downloaded, 0);
    let entry = store.get_torrent(&h1).unwrap();
    let listed = select_peers(entry, &p1, false, 72);
    assert_eq!(listed.len(), 0);
}

#[test]
fn completion_moves_peer_to_seeds() {
    let mut store = TorrentStore::new();
    let h1 = hash(0);
    let p1 = peer(1);
    store.announce(&h1, &p1, v4(10, 0, 0, 1, 6881), 0, 0, 100, AnnounceEvent::Started, 1000);
    let outcome = store.announce(
        &h1,
        &p1,
        v4(10, 0, 0, 1, 6881),
        0,
        100,
        0,
        AnnounceEvent::Completed,
        1010,
    );
    assert_eq!(outcome.complete, 1);
    assert_eq!(outcome.incomplete, 0);
    assert_eq!(outcome.downloaded, 1);
}

#[test]
fn second_peer_sees_the_seed() {
    let mut store = TorrentStore::new();
    let h1 = hash(0);
    let p1 = peer(1);
    let p2 = peer(2);
    store.announce(&h1, &p1, v4(10, 0, 0, 1, 6881), 0, 0, 100, AnnounceEvent::Started, 1000);
    store.announce(&h1, &p1, v4(10, 0, 0, 1, 6881), 0, 100, 0, AnnounceEvent::Completed, 1010);
    let outcome = store.announce(
        &h1,
        &p2,
        v4(10, 0, 0, 2, 6882),
        0,
        0,
        500,
        AnnounceEvent::Started,
        1020,
    );
    assert_eq!(outcome.complete, 1);
    assert_eq!(outcome.incomplete, 1);
    let entry = store.get_torrent(&h1).unwrap();
    let for_p2 = select_peers(entry, &p2, false, 72);
    assert_eq!(for_p2.len(), 1);
    assert_eq!(for_p2[0].id, vec![1u8; 20]);
    assert_eq!(for_p2[0].addr.ip, vec![10, 0, 0, 1]);
    let for_p1 = select_peers(entry, &p1, false, 72);
    assert_eq!(for_p1.len(), 1);
    assert_eq!(for_p1[0].id, vec![2u8; 20]);
}

#[test]
fn stop_removes_peer_and_keeps_completed() {
    let mut store = TorrentStore::new();
    let h1 = hash(0);
    let p1 = peer(1);
    let p2 = peer(2);
    store.announce(&h1, &p1, v4(10, 0, 0, 1, 6881), 0, 0, 100, AnnounceEvent::Started, 1000);
    store.announce(&h1, &p1, v4(10, 0, 0, 1, 6881), 0, 100, 0, AnnounceEvent::Completed, 1010);
    store.announce(&h1, &p2, v4(10, 0, 0, 2, 6882), 0, 0, 500, AnnounceEvent::Started, 1020);
    let outcome = store.announce(
        &h1,
        &p2,
        v4(10, 0, 0, 2, 6882),
        0,
        0,
        500,
        AnnounceEvent::Stopped,
        1030,
    );
    assert_eq!(outcome.complete, 1);
    assert_eq!(outcome.incomplete, 0);
    assert_eq!(outcome.downloaded, 1);
}

#[test]
fn peer_is_evicted_after_timeout_but_torrent_survives() {
    let mut store = TorrentStore::new();
    let h1 = hash(0);
    let p1 = peer(1);
    store.announce(&h1, &p1, v4(10, 0, 0, 1, 6881), 0, 0, 100, AnnounceEvent::Started, 1000);
    // timeout 60: at 1061 the peer announced 61 seconds ago
    store.clean_peers(1061, 60);
    let entry = store.get_torrent(&h1).unwrap();
    assert_eq!(entry.seeds.len(), 0);
    assert_eq!(entry.peers.len(), 0);
    // a fresh peer is kept
    let p2 = peer(2);
    store.announce(&h1, &p2, v4(10, 0, 0, 2, 6882), 0, 0, 10, AnnounceEvent::Started, 1062);
    store.clean_peers(1070, 60);
    let entry = store.get_torrent(&h1).unwrap();
    assert_eq!(entry.peers.len(), 1);
}

#[test]
fn completed_counter_only_grows() {
    let mut store = TorrentStore::new();
    let h1 = hash(0);
    let mut last = 0u64;
    for i in 0..5u8 {
        let p = peer(i + 1);
        store.announce(&h1, &p, v4(10, 0, 0, i, 6881), 0, 0, 10, AnnounceEvent::Started, 1000);
        let outcome = store.announce(
            &h1,
            &p,
            v4(10, 0, 0, i, 6881),
            0,
            10,
            0,
            AnnounceEvent::Completed,
            1001,
        );
        assert_eq!(outcome.downloaded, last + 1);
        last = outcome.downloaded;
    }
}

#[test]
fn scrape_reports_zeros_for_unknown_hash() {
    let store = TorrentStore::new();
    let (complete, downloaded, incomplete) = store.scrape_torrent(&hash(9));
    assert_eq!((complete, downloaded, incomplete), (0, 0, 0));
}

#[test]
fn scrape_reports_counts() {
    let mut store = TorrentStore::new();
    let h1 = hash(0);
    store.announce(&h1, &peer(1), v4(10, 0, 0, 1, 1), 0, 0, 0, AnnounceEvent::Started, 1000);
    store.announce(&h1, &peer(2), v4(10, 0, 0, 2, 2), 0, 0, 9, AnnounceEvent::Started, 1000);
    let (complete, downloaded, incomplete) = store.scrape_torrent(&h1);
    assert_eq!((complete, downloaded, incomplete), (1, 0, 1));
}

#[test]
fn add_torrent_preserves_existing_entry() {
    let mut store = TorrentStore::new();
    let h1 = hash(0);
    store.announce(&h1, &peer(1), v4(10, 0, 0, 1, 1), 0, 0, 9, AnnounceEvent::Started, 1000);
    let added = store.add_torrent(&h1, tracker_core::torrents::TorrentEntry::empty(0));
    assert!(!added);
    let entry = store.get_torrent(&h1).unwrap();
    assert_eq!(entry.peers.len(), 1);
}

#[test]
fn reset_clears_buckets_and_keeps_completed() {
    let mut store = TorrentStore::new();
    let h1 = hash(0);
    store.announce(&h1, &peer(1), v4(10, 0, 0, 1, 1), 0, 0, 0, AnnounceEvent::Started, 1000);
    store.announce(&h1, &peer(1), v4(10, 0, 0, 1, 1), 0, 1, 0, AnnounceEvent::Completed, 1001);
    store.reset_seeds_peers();
    let entry = store.get_torrent(&h1).unwrap();
    assert_eq!(entry.seeds.len(), 0);
    assert_eq!(entry.peers.len(), 0);
    assert_eq!(entry.completed, 1);
}

#[test]
fn selection_prefers_leechers_and_caps_at_numwant() {
    let mut store = TorrentStore::new();
    let h1 = hash(0);
    store.announce(&h1, &peer(1), v4(10, 0, 0, 1, 1), 0, 0, 0, AnnounceEvent::Started, 1000);
    store.announce(&h1, &peer(2), v4(10, 0, 0, 2, 2), 0, 0, 9, AnnounceEvent::Started, 1000);
    store.announce(&h1, &peer(3), v4(10, 0, 0, 3, 3), 0, 0, 9, AnnounceEvent::Started, 1000);
    let requester = peer(9);
    let entry = store.get_torrent(&h1).unwrap();
    let all = select_peers(entry, &requester, false, 72);
    assert_eq!(all.len(), 3);
    // leechers first, in peer-id order, then seeds
    assert_eq!(all[0].id, vec![2u8; 20]);
    assert_eq!(all[1].id, vec![3u8; 20]);
    assert_eq!(all[2].id, vec![1u8; 20]);
    let capped = select_peers(entry, &requester, false, 2);
    assert_eq!(capped.len(), 2);
    assert_eq!(capped[0].id, vec![2u8; 20]);
    // the requested family is honoured
    let v6_only = select_peers(entry, &requester, true, 72);
    assert_eq!(v6_only.len(), 0);
}
