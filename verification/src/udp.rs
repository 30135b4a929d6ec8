//! The UDP tracker protocol: stateless connection ids bound to the
//! client's address and the hour, and the exact wire framing of connect,
//! announce, scrape and error packets.

use vstd::prelude::*;
use crate::digest::{sha1_digest, sha1_of};
use crate::errs::CustomError;
use crate::idmap::clone_bytes;
use crate::ids::{InfoHash, PeerId};
use crate::ints::{be_bytes, be_val, lemma_be_bytes_len, lemma_be_val_bound, lemma_pow256_values,
    pow256, read_be, u64_to_be_bytes};
use crate::torrents::{AnnounceEvent, SelectedPeer, SelectedPeerView};

verus! {

/// The magic constant a UDP connect request opens with.
pub const CONNECT_MAGIC: u64 = 0x41727101980;

/// The hour a moment falls in: ids are issued against the hour and stay
/// accepted through the following one.
pub open spec fn time_bucket(t: u64) -> u64 {
    t / 3600
}

/// The message whose SHA-1 binds a connection id to the client's address
/// and the hour: the server secret, the IP bytes, the bucket.
pub open spec fn conn_msg(secret: Seq<u8>, ip: Seq<u8>, bucket: u64) -> Seq<u8> {
    secret + ip + be_bytes(bucket as nat, 8)
}

/// The low 32 bits of a connection id: the first four digest bytes.
pub open spec fn conn_tag(secret: Seq<u8>, ip: Seq<u8>, bucket: u64) -> nat {
    be_val(sha1_of(conn_msg(secret, ip, bucket)).take(4)) % 0x1_0000_0000
}

/// A connection id: the bucket in the high half, the keyed digest tag in
/// the low half. Stateless: any party holding the secret can recompute
/// it, nobody else can forge the tag.
pub open spec fn conn_id_of(secret: Seq<u8>, ip: Seq<u8>, bucket: u64) -> u64 {
    (((bucket % 0x1_0000_0000) * 0x1_0000_0000) + conn_tag(secret, ip, bucket)) as u64
}

/// Which ids a query at `now` accepts: those of the current and of the
/// previous hour bucket.
pub open spec fn conn_id_accepted(secret: Seq<u8>, ip: Seq<u8>, now: u64, id: u64) -> bool {
    ||| id == conn_id_of(secret, ip, time_bucket(now))
    ||| (time_bucket(now) > 0 && id == conn_id_of(secret, ip, (time_bucket(now) - 1) as u64))
}

proof fn lemma_conn_tag_bound(secret: Seq<u8>, ip: Seq<u8>, bucket: u64)
    ensures
        conn_tag(secret, ip, bucket) < 0x1_0000_0000,
{
}

fn conn_id_exec(secret: &Vec<u8>, ip: &Vec<u8>, bucket: u64) -> (r: u64)
    ensures
        r == conn_id_of(secret@, ip@, bucket),
{
    let mut msg = clone_bytes(secret);
    let mut ip_part = clone_bytes(ip);
    msg.append(&mut ip_part);
    proof {
        lemma_pow256_values();
    }
    let mut bucket_part = u64_to_be_bytes(bucket, 8);
    msg.append(&mut bucket_part);
    proof {
        assert(msg@ =~= conn_msg(secret@, ip@, bucket));
    }
    let digest = sha1_digest(&msg);
    let tag = read_be(&digest, 0, 4);
    let high = bucket % 0x1_0000_0000;
    proof {
        assert(digest@.subrange(0, 4) =~= sha1_of(conn_msg(secret@, ip@, bucket)).take(4));
        lemma_be_val_bound(digest@.subrange(0, 4));
        lemma_pow256_values();
        assert(tag < 0x1_0000_0000);
        assert(tag == conn_tag(secret@, ip@, bucket));
        assert(high * 0x1_0000_0000 + tag < 0x1_0000_0000_0000_0000) by (nonlinear_arith)
            requires
                high < 0x1_0000_0000,
                tag < 0x1_0000_0000,
        ;
    }
    high * 0x1_0000_0000 + tag
}

/// Issues the connection id for a connect request arriving at `now`.
pub fn make_connection_id(secret: &Vec<u8>, ip: &Vec<u8>, now: u64) -> (r: u64)
    ensures
        r == conn_id_of(secret@, ip@, time_bucket(now)),
{
    conn_id_exec(secret, ip, now / 3600)
}

/// Checks an announce or scrape's connection id at `now`: the id of the
/// current or the previous hour bucket passes.
pub fn verify_connection_id(secret: &Vec<u8>, ip: &Vec<u8>, now: u64, id: u64) -> (r: bool)
    ensures
        r == conn_id_accepted(secret@, ip@, now, id),
{
    let bucket = now / 3600;
    if id == conn_id_exec(secret, ip, bucket) {
        return true;
    }
    if bucket > 0 && id == conn_id_exec(secret, ip, bucket - 1) {
        return true;
    }
    false
}

/// An id issued less than an hour before the query is always accepted.
pub proof fn lemma_conn_id_valid_window(secret: Seq<u8>, ip: Seq<u8>, t: u64, t2: u64)
    requires
        t <= t2,
        t2 - t < 3600,
    ensures
        conn_id_accepted(secret, ip, t2, conn_id_of(secret, ip, time_bucket(t))),
{
    let b = time_bucket(t);
    let b2 = time_bucket(t2);
    assert(b <= b2 <= b + 1) by (nonlinear_arith)
        requires
            t <= t2 < t + 3600,
            b == t / 3600,
            b2 == t2 / 3600,
    ;
}

/// An id issued two hours or more before the query is never accepted:
/// its bucket is older than both accepted buckets, so the ids differ in
/// their high half.
pub proof fn lemma_conn_id_expired(secret: Seq<u8>, ip: Seq<u8>, t: u64, t2: u64)
    requires
        t + 7200 <= t2,
        time_bucket(t2) < 0x1_0000_0000,
    ensures
        !conn_id_accepted(secret, ip, t2, conn_id_of(secret, ip, time_bucket(t))),
{
    let b = time_bucket(t);
    let b2 = time_bucket(t2);
    assert(b + 2 <= b2) by (nonlinear_arith)
        requires
            t + 7200 <= t2,
            b == t / 3600,
            b2 == t2 / 3600,
    ;
    let b1 = (b2 - 1) as u64;
    lemma_conn_tag_bound(secret, ip, b);
    lemma_conn_tag_bound(secret, ip, b2);
    lemma_conn_tag_bound(secret, ip, b1);
    assert(b % 0x1_0000_0000 == b);
    assert(b2 % 0x1_0000_0000 == b2);
    assert(b1 % 0x1_0000_0000 == b1);
    let tb = conn_tag(secret, ip, b);
    let t2 = conn_tag(secret, ip, b2);
    let t1 = conn_tag(secret, ip, b1);
    assert(b * 0x1_0000_0000 + tb < 0x1_0000_0000_0000_0000) by (nonlinear_arith)
        requires
            b < 0x1_0000_0000,
            tb < 0x1_0000_0000,
    ;
    assert(b2 * 0x1_0000_0000 + t2 < 0x1_0000_0000_0000_0000) by (nonlinear_arith)
        requires
            b2 < 0x1_0000_0000,
            t2 < 0x1_0000_0000,
    ;
    assert(b1 * 0x1_0000_0000 + t1 < 0x1_0000_0000_0000_0000) by (nonlinear_arith)
        requires
            b1 < 0x1_0000_0000,
            t1 < 0x1_0000_0000,
    ;
    assert(b * 0x1_0000_0000 + tb != b2 * 0x1_0000_0000 + t2) by (nonlinear_arith)
        requires
            tb < 0x1_0000_0000,
            t2 < 0x1_0000_0000,
            b != b2,
    ;
    assert(b * 0x1_0000_0000 + tb != b1 * 0x1_0000_0000 + t1) by (nonlinear_arith)
        requires
            tb < 0x1_0000_0000,
            t1 < 0x1_0000_0000,
            b != b1,
    ;
    assert(conn_id_of(secret, ip, b) != conn_id_of(secret, ip, b2));
    assert(conn_id_of(secret, ip, b) != conn_id_of(secret, ip, b1));
}

/// The event field of a UDP announce.
pub open spec fn event_of_code(c: u32) -> AnnounceEvent {
    if c == 1 {
        AnnounceEvent::Completed
    } else if c == 2 {
        AnnounceEvent::Started
    } else if c == 3 {
        AnnounceEvent::Stopped
    } else {
        AnnounceEvent::NoEvent
    }
}

pub struct ConnectRequest {
    pub transaction_id: u32,
}

/// Reads a connect packet: 16 bytes at least, the magic, action zero.
pub fn parse_connect(p: &Vec<u8>) -> (r: Result<ConnectRequest, CustomError>)
    ensures
        match r {
            Ok(c) => p@.len() >= 16 && be_val(p@.subrange(0, 8)) == CONNECT_MAGIC && be_val(
                p@.subrange(8, 12),
            ) == 0 && c.transaction_id == be_val(p@.subrange(12, 16)),
            Err(_) => p@.len() < 16 || be_val(p@.subrange(0, 8)) != CONNECT_MAGIC || be_val(
                p@.subrange(8, 12),
            ) != 0,
        },
{
    if p.len() < 16 {
        return Err(CustomError::new("connect packet too short"));
    }
    let magic = read_be(p, 0, 8);
    if magic != CONNECT_MAGIC {
        return Err(CustomError::new("bad connect magic"));
    }
    let action = read_be(p, 8, 4);
    if action != 0 {
        return Err(CustomError::new("bad connect action"));
    }
    let txn = read_be(p, 12, 4);
    proof {
        lemma_be_val_bound(p@.subrange(12, 16));
        lemma_pow256_values();
        crate::ints::lemma_pow256_mono(p@.subrange(12, 16).len(), 4);
    }
    Ok(ConnectRequest { transaction_id: txn as u32 })
}

pub struct UdpAnnounce {
    pub connection_id: u64,
    pub transaction_id: u32,
    pub info_hash: InfoHash,
    pub peer_id: PeerId,
    pub downloaded: u64,
    pub left: u64,
    pub uploaded: u64,
    pub event: AnnounceEvent,
    pub ip: u32,
    pub key: u32,
    pub numwant: u32,
    pub port: u16,
}

/// Reads an announce packet: 98 bytes at least, action one, every field
/// at its fixed offset.
pub fn parse_announce(p: &Vec<u8>) -> (r: Result<UdpAnnounce, CustomError>)
    ensures
        match r {
            Ok(a) => p@.len() >= 98 && be_val(p@.subrange(8, 12)) == 1 && a.connection_id == be_val(
                p@.subrange(0, 8),
            ) && a.transaction_id == be_val(p@.subrange(12, 16)) && a.info_hash@ == p@.subrange(
                16,
                36,
            ) && a.info_hash.wf() && a.peer_id@ == p@.subrange(36, 56) && a.peer_id.wf()
                && a.downloaded == be_val(p@.subrange(56, 64)) && a.left == be_val(
                p@.subrange(64, 72),
            ) && a.uploaded == be_val(p@.subrange(72, 80)) && a.event == event_of_code(
                be_val(p@.subrange(80, 84)) as u32,
            ) && a.ip == be_val(p@.subrange(84, 88)) && a.key == be_val(p@.subrange(88, 92))
                && a.numwant == be_val(p@.subrange(92, 96)) && a.port == be_val(
                p@.subrange(96, 98),
            ),
            Err(_) => p@.len() < 98 || be_val(p@.subrange(8, 12)) != 1,
        },
{
    if p.len() < 98 {
        return Err(CustomError::new("announce packet too short"));
    }
    let action = read_be(p, 8, 4);
    if action != 1 {
        return Err(CustomError::new("bad announce action"));
    }
    proof {
        lemma_pow256_values();
        lemma_be_val_bound(p@.subrange(12, 16));
        crate::ints::lemma_pow256_mono(4, 4);
        lemma_be_val_bound(p@.subrange(80, 84));
        lemma_be_val_bound(p@.subrange(84, 88));
        lemma_be_val_bound(p@.subrange(88, 92));
        lemma_be_val_bound(p@.subrange(92, 96));
        lemma_be_val_bound(p@.subrange(96, 98));
        crate::ints::lemma_pow256_mono(2, 4);
    }
    let connection_id = read_be(p, 0, 8);
    let transaction_id = read_be(p, 12, 4) as u32;
    let hash_bytes = crate::query::copy_range(p, 16, 36);
    let id_bytes = crate::query::copy_range(p, 36, 56);
    let info_hash = InfoHash::new(hash_bytes);
    let peer_id = PeerId::new(id_bytes);
    let downloaded = read_be(p, 56, 8);
    let left = read_be(p, 64, 8);
    let uploaded = read_be(p, 72, 8);
    let event_code = read_be(p, 80, 4) as u32;
    let event = if event_code == 1 {
        AnnounceEvent::Completed
    } else if event_code == 2 {
        AnnounceEvent::Started
    } else if event_code == 3 {
        AnnounceEvent::Stopped
    } else {
        AnnounceEvent::NoEvent
    };
    let ip = read_be(p, 84, 4) as u32;
    let key = read_be(p, 88, 4) as u32;
    let numwant = read_be(p, 92, 4) as u32;
    let port = read_be(p, 96, 2) as u16;
    Ok(
        UdpAnnounce {
            connection_id,
            transaction_id,
            info_hash,
            peer_id,
            downloaded,
            left,
            uploaded,
            event,
            ip,
            key,
            numwant,
            port,
        },
    )
}

pub struct UdpScrape {
    pub connection_id: u64,
    pub transaction_id: u32,
    pub hashes: Vec<InfoHash>,
}

/// Reads a scrape packet: the 16-byte header, action two, then whole
/// 20-byte info-hash blocks, at least one.
pub fn parse_scrape(p: &Vec<u8>) -> (r: Result<UdpScrape, CustomError>)
    ensures
        match r {
            Ok(s) => p@.len() >= 36 && be_val(p@.subrange(8, 12)) == 2 && (p@.len() - 16) % 20 == 0
                && s.connection_id == be_val(p@.subrange(0, 8)) && s.transaction_id == be_val(
                p@.subrange(12, 16),
            ) && s.hashes@.len() == (p@.len() - 16) / 20 && (forall|i: int|
                0 <= i < s.hashes@.len() ==> (#[trigger] s.hashes@[i])@ == p@.subrange(
                    16 + 20 * i,
                    36 + 20 * i,
                ) && s.hashes@[i].wf()),
            Err(_) => p@.len() < 36 || be_val(p@.subrange(8, 12)) != 2 || (p@.len() - 16) % 20
                != 0,
        },
{
    let len = p.len();
    if len < 36 {
        return Err(CustomError::new("scrape packet too short"));
    }
    if (len - 16) % 20 != 0 {
        return Err(CustomError::new("scrape packet not whole blocks"));
    }
    let action = read_be(p, 8, 4);
    if action != 2 {
        return Err(CustomError::new("bad scrape action"));
    }
    proof {
        lemma_pow256_values();
        lemma_be_val_bound(p@.subrange(12, 16));
        crate::ints::lemma_pow256_mono(4, 4);
    }
    let connection_id = read_be(p, 0, 8);
    let transaction_id = read_be(p, 12, 4) as u32;
    let count = (len - 16) / 20;
    let mut hashes: Vec<InfoHash> = Vec::new();
    let mut i: usize = 0;
    while i < count
        invariant
            0 <= i <= count,
            len == p@.len(),
            count == (len - 16) / 20,
            (len - 16) % 20 == 0,
            len >= 36,
            hashes@.len() == i,
            forall|j: int|
                0 <= j < i ==> (#[trigger] hashes@[j])@ == p@.subrange(16 + 20 * j, 36 + 20 * j)
                    && hashes@[j].wf(),
        decreases count - i,
    {
        let start = 16 + 20 * i;
        let bytes = crate::query::copy_range(p, start, start + 20);
        hashes.push(InfoHash::new(bytes));
        i = i + 1;
    }
    Ok(UdpScrape { connection_id, transaction_id, hashes })
}

/// Appends the big-endian encoding of a value.
fn push_be(out: &mut Vec<u8>, x: u64, len: usize)
    requires
        x < pow256(len as nat),
        len <= 8,
    ensures
        final(out)@ == old(out)@ + be_bytes(x as nat, len as nat),
{
    let mut b = u64_to_be_bytes(x, len);
    out.append(&mut b);
}

/// A connect response: action zero, the transaction echoed, the id.
pub fn build_connect_response(transaction_id: u32, connection_id: u64) -> (r: Vec<u8>)
    ensures
        r@ == be_bytes(0, 4) + be_bytes(transaction_id as nat, 4) + be_bytes(
            connection_id as nat,
            8,
        ),
        r@.len() == 16,
{
    let mut out: Vec<u8> = Vec::new();
    proof {
        lemma_pow256_values();
    }
    push_be(&mut out, 0, 4);
    push_be(&mut out, transaction_id as u64, 4);
    push_be(&mut out, connection_id, 8);
    proof {
        lemma_be_bytes_len(0, 4);
        lemma_be_bytes_len(transaction_id as nat, 4);
        lemma_be_bytes_len(connection_id as nat, 8);
        assert(out@ =~= be_bytes(0, 4) + be_bytes(transaction_id as nat, 4) + be_bytes(
            connection_id as nat,
            8,
        ));
    }
    out
}

/// The compact peer blocks of a response: each peer's IP bytes followed
/// by its big-endian port.
pub open spec fn compact_blocks(peers: Seq<SelectedPeerView>) -> Seq<u8>
    decreases peers.len(),
{
    if peers.len() == 0 {
        Seq::<u8>::empty()
    } else {
        peers[0].ip + be_bytes(peers[0].port as nat, 2) + compact_blocks(peers.drop_first())
    }
}

proof fn lemma_compact_blocks_concat(a: Seq<SelectedPeerView>, b: Seq<SelectedPeerView>)
    ensures
        compact_blocks(a + b) == compact_blocks(a) + compact_blocks(b),
    decreases a.len(),
{
    if a.len() == 0 {
        assert(a + b =~= b);
        assert(compact_blocks(a) + compact_blocks(b) =~= compact_blocks(b));
    } else {
        assert((a + b)[0] == a[0]);
        assert((a + b).drop_first() =~= a.drop_first() + b);
        lemma_compact_blocks_concat(a.drop_first(), b);
        assert(compact_blocks(a + b) =~= compact_blocks(a) + compact_blocks(b));
    }
}

/// The compact peer list of the selected peers, 6 bytes per IPv4 peer and
/// 18 per IPv6 peer.
pub fn compact_peers(peers: &Vec<SelectedPeer>) -> (r: Vec<u8>)
    ensures
        r@ == compact_blocks(crate::torrents::views_of(peers@)),
{
    let mut out: Vec<u8> = Vec::new();
    let mut i: usize = 0;
    let len = peers.len();
    proof {
        assert(crate::torrents::views_of(peers@).take(0) =~= Seq::<SelectedPeerView>::empty());
        assert(out@ =~= compact_blocks(crate::torrents::views_of(peers@).take(0)));
    }
    while i < len
        invariant
            0 <= i <= len,
            len == peers@.len(),
            out@ == compact_blocks(crate::torrents::views_of(peers@).take(i as int)),
        decreases len - i,
    {
        let ghost vs = crate::torrents::views_of(peers@);
        let p = &peers[i];
        let mut ip = clone_bytes(&p.addr.ip);
        out.append(&mut ip);
        proof {
            lemma_pow256_values();
        }
        push_be(&mut out, p.addr.port as u64, 2);
        proof {
            assert(vs.take(i as int + 1) =~= vs.take(i as int) + seq![vs[i as int]]);
            lemma_compact_blocks_concat(vs.take(i as int), seq![vs[i as int]]);
            assert(seq![vs[i as int]].drop_first() =~= Seq::<SelectedPeerView>::empty());
            assert(compact_blocks(Seq::<SelectedPeerView>::empty())
                =~= Seq::<u8>::empty());
            assert(seq![vs[i as int]][0] == vs[i as int]);
            assert(compact_blocks(seq![vs[i as int]]) =~= vs[i as int].ip + be_bytes(
                vs[i as int].port as nat,
                2,
            ));
            assert(out@ =~= compact_blocks(vs.take(i as int + 1)));
        }
        i = i + 1;
    }
    proof {
        assert(crate::torrents::views_of(peers@).take(len as int) =~= crate::torrents::views_of(
            peers@,
        ));
    }
    out
}

/// An announce response: action one, the transaction echoed, the
/// interval, the bucket sizes, then the compact peer list.
pub fn build_announce_response(
    transaction_id: u32,
    interval: u32,
    leechers: u32,
    seeders: u32,
    peers: &Vec<SelectedPeer>,
) -> (r: Vec<u8>)
    ensures
        r@ == be_bytes(1, 4) + be_bytes(transaction_id as nat, 4) + be_bytes(interval as nat, 4)
            + be_bytes(leechers as nat, 4) + be_bytes(seeders as nat, 4) + compact_blocks(
            crate::torrents::views_of(peers@),
        ),
{
    let mut out: Vec<u8> = Vec::new();
    proof {
        lemma_pow256_values();
    }
    push_be(&mut out, 1, 4);
    push_be(&mut out, transaction_id as u64, 4);
    push_be(&mut out, interval as u64, 4);
    push_be(&mut out, leechers as u64, 4);
    push_be(&mut out, seeders as u64, 4);
    let mut blocks = compact_peers(peers);
    out.append(&mut blocks);
    proof {
        assert(out@ =~= be_bytes(1, 4) + be_bytes(transaction_id as nat, 4) + be_bytes(
            interval as nat,
            4,
        ) + be_bytes(leechers as nat, 4) + be_bytes(seeders as nat, 4) + compact_blocks(
            crate::torrents::views_of(peers@),
        ));
    }
    out
}

/// The per-hash blocks of a scrape response.
pub open spec fn scrape_blocks(stats: Seq<(u32, u32, u32)>) -> Seq<u8>
    decreases stats.len(),
{
    if stats.len() == 0 {
        Seq::<u8>::empty()
    } else {
        be_bytes(stats[0].0 as nat, 4) + be_bytes(stats[0].1 as nat, 4) + be_bytes(
            stats[0].2 as nat,
            4,
        ) + scrape_blocks(stats.drop_first())
    }
}

proof fn lemma_scrape_blocks_concat(a: Seq<(u32, u32, u32)>, b: Seq<(u32, u32, u32)>)
    ensures
        scrape_blocks(a + b) == scrape_blocks(a) + scrape_blocks(b),
    decreases a.len(),
{
    if a.len() == 0 {
        assert(a + b =~= b);
        assert(scrape_blocks(a) + scrape_blocks(b) =~= scrape_blocks(b));
    } else {
        assert((a + b)[0] == a[0]);
        assert((a + b).drop_first() =~= a.drop_first() + b);
        lemma_scrape_blocks_concat(a.drop_first(), b);
        assert(scrape_blocks(a + b) =~= scrape_blocks(a) + scrape_blocks(b));
    }
}

/// A scrape response: action two, the transaction echoed, then for each
/// hash `(complete, downloaded, incomplete)`.
pub fn build_scrape_response(transaction_id: u32, stats: &Vec<(u32, u32, u32)>) -> (r: Vec<u8>)
    ensures
        r@ == be_bytes(2, 4) + be_bytes(transaction_id as nat, 4) + scrape_blocks(stats@),
{
    let mut out: Vec<u8> = Vec::new();
    proof {
        lemma_pow256_values();
    }
    push_be(&mut out, 2, 4);
    push_be(&mut out, transaction_id as u64, 4);
    let ghost header = out@;
    let mut i: usize = 0;
    let len = stats.len();
    proof {
        assert(stats@.take(0) =~= Seq::<(u32, u32, u32)>::empty());
        assert(out@ =~= header + scrape_blocks(stats@.take(0)));
    }
    while i < len
        invariant
            0 <= i <= len,
            len == stats@.len(),
            out@ == header + scrape_blocks(stats@.take(i as int)),
        decreases len - i,
    {
        let s = stats[i];
        proof {
            lemma_pow256_values();
        }
        push_be(&mut out, s.0 as u64, 4);
        push_be(&mut out, s.1 as u64, 4);
        push_be(&mut out, s.2 as u64, 4);
        proof {
            assert(stats@.take(i as int + 1) =~= stats@.take(i as int) + seq![stats@[i as int]]);
            lemma_scrape_blocks_concat(stats@.take(i as int), seq![stats@[i as int]]);
            assert(seq![stats@[i as int]].drop_first() =~= Seq::<(u32, u32, u32)>::empty());
            assert(scrape_blocks(Seq::<(u32, u32, u32)>::empty()) =~= Seq::<u8>::empty());
            assert(seq![stats@[i as int]][0] == stats@[i as int]);
            assert(out@ =~= header + scrape_blocks(stats@.take(i as int + 1)));
        }
        i = i + 1;
    }
    proof {
        assert(stats@.take(len as int) =~= stats@);
        assert(out@ =~= be_bytes(2, 4) + be_bytes(transaction_id as nat, 4) + scrape_blocks(
            stats@,
        ));
    }
    out
}

/// An error response: action three, the transaction echoed, the message
/// bytes.
pub fn build_error_response(transaction_id: u32, message: &Vec<u8>) -> (r: Vec<u8>)
    ensures
        r@ == be_bytes(3, 4) + be_bytes(transaction_id as nat, 4) + message@,
{
    let mut out: Vec<u8> = Vec::new();
    proof {
        lemma_pow256_values();
    }
    push_be(&mut out, 3, 4);
    push_be(&mut out, transaction_id as u64, 4);
    let mut msg = clone_bytes(message);
    out.append(&mut msg);
    proof {
        assert(out@ =~= be_bytes(3, 4) + be_bytes(transaction_id as nat, 4) + message@);
    }
    out
}

} // verus!
