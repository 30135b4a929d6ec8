use tracker_core::ids::{InfoHash, PeerId};
use tracker_core::torrents::{select_peers, AnnounceEvent, PeerAddr, TorrentStore};
use tracker_core::udp::{
    build_announce_response, build_connect_response, build_error_response, build_scrape_response,
    compact_peers, make_connection_id, parse_announce, parse_connect, parse_scrape,
    verify_connection_id, CONNECT_MAGIC,
};

fn secret() -> Vec<u8> {
    vec![9u8; 32]
}

fn ip() -> Vec<u8> {
    vec![1, 2, 3, 4]
}

#[test]
fn connection_id_is_deterministic() {
    let a = make_connection_id(&secret(), &ip(), 5000);
    let b = make_connection_id(&secret(), &ip(), 5000);
    assert_eq!(a, b);
}

#[test]
fn connection_id_depends_on_input() {
    let a = make_connection_id(&secret(), &ip(), 5000);
    let b = make_connection_id(&secret(), &vec![4, 3, 2, 1], 5000);
    let c = make_connection_id(&vec![8u8; 32], &ip(), 5000);
    assert_ne!(a, b);
    assert_ne!(a, c);
}

#[test]
fn connection_id_valid_within_the_hour() {
    let id = make_connection_id(&secret(), &ip(), 0);
    assert!(verify_connection_id(&secret(), &ip(), 0, id));
    assert!(verify_connection_id(&secret(), &ip(), 3599, id));
    // still within the previous-bucket window
    assert!(verify_connection_id(&secret(), &ip(), 7199, id));
}

#[test]
fn connection_id_expires_after_two_hours() {
    let id = make_connection_id(&secret(), &ip(), 0);
    assert!(!verify_connection_id(&secret(), &ip(), 7200, id));
    assert!(!verify_connection_id(&secret(), &ip(), 90000, id));
}

#[test]
fn connect_round_trip() {
    let mut packet = Vec::new();
    packet.extend_from_slice(&CONNECT_MAGIC.to_be_bytes());
    packet.extend_from_slice(&0u32.to_be_bytes());
    packet.extend_from_slice(&0xDEADBEEFu32.to_be_bytes());
    let req = parse_connect(&packet).unwrap();
    assert_eq!(req.transaction_id, 0xDEADBEEF);
    let id = make_connection_id(&secret(), &ip(), 1000);
    let resp = build_connect_response(req.transaction_id, id);
    assert_eq!(resp.len(), 16);
    assert_eq!(&resp[0..4], &[0, 0, 0, 0]);
    assert_eq!(&resp[4..8], &0xDEADBEEFu32.to_be_bytes());
    assert_eq!(&resp[8..16], &id.to_be_bytes());
}

#[test]
fn connect_rejects_bad_magic_and_short_packets() {
    assert!(parse_connect(&vec![0u8; 15]).is_err());
    let mut packet = vec![0u8; 16];
    packet[7] = 1;
    assert!(parse_connect(&packet).is_err());
}

fn announce_packet(conn_id: u64, txn: u32, hash: &[u8], pid: &[u8], left: u64, event: u32, port: u16) -> Vec<u8> {
    let mut p = Vec::new();
    p.extend_from_slice(&conn_id.to_be_bytes());
    p.extend_from_slice(&1u32.to_be_bytes());
    p.extend_from_slice(&txn.to_be_bytes());
    p.extend_from_slice(hash);
    p.extend_from_slice(pid);
    p.extend_from_slice(&0u64.to_be_bytes()); // downloaded
    p.extend_from_slice(&left.to_be_bytes());
    p.extend_from_slice(&0u64.to_be_bytes()); // uploaded
    p.extend_from_slice(&event.to_be_bytes());
    p.extend_from_slice(&0u32.to_be_bytes()); // ip
    p.extend_from_slice(&0u32.to_be_bytes()); // key
    p.extend_from_slice(&u32::MAX.to_be_bytes()); // numwant: default
    p.extend_from_slice(&port.to_be_bytes());
    p
}

#[test]
fn udp_connect_and_announce_scenario() {
    // two peers already in the swarm: P1 a seed, P2 a leecher
    let mut store = TorrentStore::new();
    let h1 = InfoHash::new(vec![0u8; 20]);
    let p1 = PeerId::new(vec![1u8; 20]);
    let p2 = PeerId::new(vec![2u8; 20]);
    store.announce(
        &h1,
        &p1,
        PeerAddr { is_v6: false, ip: vec![10, 0, 0, 1], port: 6881 },
        0,
        0,
        0,
        AnnounceEvent::Started,
        1000,
    );
    store.announce(
        &h1,
        &p2,
        PeerAddr { is_v6: false, ip: vec![10, 0, 0, 2], port: 6882 },
        0,
        0,
        500,
        AnnounceEvent::Started,
        1000,
    );

    // the client connects
    let mut connect = Vec::new();
    connect.extend_from_slice(&CONNECT_MAGIC.to_be_bytes());
    connect.extend_from_slice(&0u32.to_be_bytes());
    connect.extend_from_slice(&0xDEADBEEFu32.to_be_bytes());
    let creq = parse_connect(&connect).unwrap();
    let conn_id = make_connection_id(&secret(), &ip(), 1000);
    let _ = build_connect_response(creq.transaction_id, conn_id);

    // and announces with the issued id
    let packet = announce_packet(conn_id, 0xDEADBEEF, &[0u8; 20], &[3u8; 20], 10, 2, 6881);
    let areq = parse_announce(&packet).unwrap();
    assert!(verify_connection_id(&secret(), &ip(), 1001, areq.connection_id));
    assert_eq!(areq.transaction_id, 0xDEADBEEF);
    assert_eq!(areq.left, 10);
    assert_eq!(areq.event, AnnounceEvent::Started);
    assert_eq!(areq.port, 6881);

    let outcome = store.announce(
        &areq.info_hash,
        &areq.peer_id,
        PeerAddr { is_v6: false, ip: vec![1, 2, 3, 4], port: areq.port },
        areq.uploaded,
        areq.downloaded,
        areq.left,
        areq.event,
        1001,
    );
    assert_eq!(outcome.complete, 1);
    assert_eq!(outcome.incomplete, 2);

    let entry = store.get_torrent(&areq.info_hash).unwrap();
    let selected = select_peers(entry, &areq.peer_id, false, 72);
    let blocks = compact_peers(&selected);
    // leechers in id order (P2 then the announcer is skipped), then P1
    assert_eq!(blocks.len(), 12);
    assert_eq!(&blocks[0..6], &[10, 0, 0, 2, 0x1a, 0xe2]);
    assert_eq!(&blocks[6..12], &[10, 0, 0, 1, 0x1a, 0xe1]);

    let resp = build_announce_response(
        areq.transaction_id,
        1800,
        outcome.incomplete as u32,
        outcome.complete as u32,
        &selected,
    );
    assert_eq!(&resp[0..4], &[0, 0, 0, 1]);
    assert_eq!(&resp[4..8], &0xDEADBEEFu32.to_be_bytes());
    assert_eq!(&resp[8..12], &1800u32.to_be_bytes());
    assert_eq!(&resp[12..16], &2u32.to_be_bytes());
    assert_eq!(&resp[16..20], &1u32.to_be_bytes());
    assert_eq!(&resp[20..], &blocks[..]);
}

#[test]
fn announce_rejects_wrong_action_or_length() {
    assert!(parse_announce(&vec![0u8; 97]).is_err());
    let packet = announce_packet(1, 2, &[0u8; 20], &[1u8; 20], 0, 0, 1);
    let mut bad = packet.clone();
    bad[11] = 2;
    assert!(parse_announce(&bad).is_err());
}

#[test]
fn scrape_round_trip() {
    let mut packet = Vec::new();
    packet.extend_from_slice(&7u64.to_be_bytes());
    packet.extend_from_slice(&2u32.to_be_bytes());
    packet.extend_from_slice(&0xABCDu32.to_be_bytes());
    packet.extend_from_slice(&[5u8; 20]);
    packet.extend_from_slice(&[6u8; 20]);
    let req = parse_scrape(&packet).unwrap();
    assert_eq!(req.connection_id, 7);
    assert_eq!(req.transaction_id, 0xABCD);
    assert_eq!(req.hashes.len(), 2);
    assert_eq!(req.hashes[0].bytes, vec![5u8; 20]);
    assert_eq!(req.hashes[1].bytes, vec![6u8; 20]);

    let resp = build_scrape_response(0xABCD, &vec![(1, 2, 3), (4, 5, 6)]);
    assert_eq!(&resp[0..4], &[0, 0, 0, 2]);
    assert_eq!(&resp[4..8], &0xABCDu32.to_be_bytes());
    assert_eq!(&resp[8..12], &1u32.to_be_bytes());
    assert_eq!(&resp[12..16], &2u32.to_be_bytes());
    assert_eq!(&resp[16..20], &3u32.to_be_bytes());
    assert_eq!(resp.len(), 8 + 24);
}

#[test]
fn scrape_rejects_ragged_blocks() {
    let mut packet = vec![0u8; 16];
    packet[11] = 2;
    packet.extend_from_slice(&[5u8; 19]);
    assert!(parse_scrape(&packet).is_err());
}

#[test]
fn error_response_echoes_transaction() {
    let resp = build_error_response(0x1234, &b"denied".to_vec());
    assert_eq!(&resp[0..4], &[0, 0, 0, 3]);
    assert_eq!(&resp[4..8], &0x1234u32.to_be_bytes());
    assert_eq!(&resp[8..], b"denied");
}
