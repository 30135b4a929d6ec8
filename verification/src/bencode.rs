//! The bencoded bodies of the HTTP tracker: announce replies with compact
//! peer lists, scrape replies, and `failure reason` rejections.

use vstd::prelude::*;
use crate::idmap::clone_bytes;

verus! {

/// Decimal digit bytes of a natural number, most significant first.
pub open spec fn dec_bytes_of(n: nat) -> Seq<u8>
    decreases n,
{
    if n < 10 {
        seq![(0x30 + n) as u8]
    } else {
        dec_bytes_of(n / 10).push((0x30 + n % 10) as u8)
    }
}

/// Appends `n` in decimal digit bytes.
pub fn push_dec(out: &mut Vec<u8>, n: u64)
    ensures
        final(out)@ == old(out)@ + dec_bytes_of(n as nat),
    decreases n,
{
    if n < 10 {
        out.push(0x30 + (n as u8));
        proof {
            assert(final(out)@ =~= old(out)@ + dec_bytes_of(n as nat));
        }
    } else {
        push_dec(out, n / 10);
        out.push(0x30 + ((n % 10) as u8));
        proof {
            assert(final(out)@ =~= old(out)@ + dec_bytes_of(n as nat));
        }
    }
}

/// A bencoded integer: `i…e`.
pub open spec fn ben_int(n: nat) -> Seq<u8> {
    seq![0x69] + dec_bytes_of(n) + seq![0x65]
}

/// A bencoded byte string: its length, a colon, the bytes.
pub open spec fn ben_str(s: Seq<u8>) -> Seq<u8> {
    dec_bytes_of(s.len()) + seq![0x3a] + s
}

fn push_ben_int(out: &mut Vec<u8>, n: u64)
    ensures
        final(out)@ == old(out)@ + ben_int(n as nat),
{
    out.push(0x69);
    push_dec(out, n);
    out.push(0x65);
    proof {
        assert(final(out)@ =~= old(out)@ + ben_int(n as nat));
    }
}

fn push_ben_str(out: &mut Vec<u8>, s: &Vec<u8>)
    ensures
        final(out)@ == old(out)@ + ben_str(s@),
{
    push_dec(out, s.len() as u64);
    out.push(0x3a);
    let mut body = clone_bytes(s);
    out.append(&mut body);
    proof {
        assert(final(out)@ =~= old(out)@ + ben_str(s@));
    }
}

/// The body of a rejected announce or scrape: a dictionary with the one
/// key `failure reason`.
pub open spec fn bencode_failure(msg: Seq<u8>) -> Seq<u8> {
    seq![0x64, 0x31, 0x34, 0x3a, 0x66, 0x61, 0x69, 0x6c, 0x75, 0x72, 0x65, 0x20, 0x72, 0x65, 0x61,
        0x73, 0x6f, 0x6e] + ben_str(msg) + seq![0x65]
}

pub fn build_failure(msg: &Vec<u8>) -> (r: Vec<u8>)
    ensures
        r@ == bencode_failure(msg@),
{
    let mut out: Vec<u8> = Vec::new();
    out.push(0x64);
    out.push(0x31);
    out.push(0x34);
    out.push(0x3a);
    out.push(0x66);
    out.push(0x61);
    out.push(0x69);
    out.push(0x6c);
    out.push(0x75);
    out.push(0x72);
    out.push(0x65);
    out.push(0x20);
    out.push(0x72);
    out.push(0x65);
    out.push(0x61);
    out.push(0x73);
    out.push(0x6f);
    out.push(0x6e);
    push_ben_str(&mut out, msg);
    out.push(0x65);
    proof {
        assert(out@ =~= bencode_failure(msg@));
    }
    out
}

pub open spec fn complete_key() -> Seq<u8> {
    seq![0x38, 0x3a, 0x63, 0x6f, 0x6d, 0x70, 0x6c, 0x65, 0x74, 0x65]
}

pub open spec fn downloaded_key() -> Seq<u8> {
    seq![0x31, 0x30, 0x3a, 0x64, 0x6f, 0x77, 0x6e, 0x6c, 0x6f, 0x61, 0x64, 0x65, 0x64]
}

pub open spec fn incomplete_key() -> Seq<u8> {
    seq![0x31, 0x30, 0x3a, 0x69, 0x6e, 0x63, 0x6f, 0x6d, 0x70, 0x6c, 0x65, 0x74, 0x65]
}

pub open spec fn interval_key() -> Seq<u8> {
    seq![0x38, 0x3a, 0x69, 0x6e, 0x74, 0x65, 0x72, 0x76, 0x61, 0x6c]
}

pub open spec fn min_interval_key() -> Seq<u8> {
    seq![0x31, 0x32, 0x3a, 0x6d, 0x69, 0x6e, 0x20, 0x69, 0x6e, 0x74, 0x65, 0x72, 0x76, 0x61, 0x6c]
}

pub open spec fn peers_key() -> Seq<u8> {
    seq![0x35, 0x3a, 0x70, 0x65, 0x65, 0x72, 0x73]
}

pub open spec fn peers6_key() -> Seq<u8> {
    seq![0x36, 0x3a, 0x70, 0x65, 0x65, 0x72, 0x73, 0x36]
}


fn push_complete_key(out: &mut Vec<u8>)
    ensures
        final(out)@ == old(out)@ + complete_key(),
{
    out.push(0x38);
    out.push(0x3a);
    out.push(0x63);
    out.push(0x6f);
    out.push(0x6d);
    out.push(0x70);
    out.push(0x6c);
    out.push(0x65);
    out.push(0x74);
    out.push(0x65);
    proof {
        assert(final(out)@ =~= old(out)@ + complete_key());
    }
}

fn push_downloaded_key(out: &mut Vec<u8>)
    ensures
        final(out)@ == old(out)@ + downloaded_key(),
{
    out.push(0x31);
    out.push(0x30);
    out.push(0x3a);
    out.push(0x64);
    out.push(0x6f);
    out.push(0x77);
    out.push(0x6e);
    out.push(0x6c);
    out.push(0x6f);
    out.push(0x61);
    out.push(0x64);
    out.push(0x65);
    out.push(0x64);
    proof {
        assert(final(out)@ =~= old(out)@ + downloaded_key());
    }
}

fn push_incomplete_key(out: &mut Vec<u8>)
    ensures
        final(out)@ == old(out)@ + incomplete_key(),
{
    out.push(0x31);
    out.push(0x30);
    out.push(0x3a);
    out.push(0x69);
    out.push(0x6e);
    out.push(0x63);
    out.push(0x6f);
    out.push(0x6d);
    out.push(0x70);
    out.push(0x6c);
    out.push(0x65);
    out.push(0x74);
    out.push(0x65);
    proof {
        assert(final(out)@ =~= old(out)@ + incomplete_key());
    }
}

fn push_interval_key(out: &mut Vec<u8>)
    ensures
        final(out)@ == old(out)@ + interval_key(),
{
    out.push(0x38);
    out.push(0x3a);
    out.push(0x69);
    out.push(0x6e);
    out.push(0x74);
    out.push(0x65);
    out.push(0x72);
    out.push(0x76);
    out.push(0x61);
    out.push(0x6c);
    proof {
        assert(final(out)@ =~= old(out)@ + interval_key());
    }
}

fn push_min_interval_key(out: &mut Vec<u8>)
    ensures
        final(out)@ == old(out)@ + min_interval_key(),
{
    out.push(0x31);
    out.push(0x32);
    out.push(0x3a);
    out.push(0x6d);
    out.push(0x69);
    out.push(0x6e);
    out.push(0x20);
    out.push(0x69);
    out.push(0x6e);
    out.push(0x74);
    out.push(0x65);
    out.push(0x72);
    out.push(0x76);
    out.push(0x61);
    out.push(0x6c);
    proof {
        assert(final(out)@ =~= old(out)@ + min_interval_key());
    }
}

fn push_peers_key(out: &mut Vec<u8>)
    ensures
        final(out)@ == old(out)@ + peers_key(),
{
    out.push(0x35);
    out.push(0x3a);
    out.push(0x70);
    out.push(0x65);
    out.push(0x65);
    out.push(0x72);
    out.push(0x73);
    proof {
        assert(final(out)@ =~= old(out)@ + peers_key());
    }
}

fn push_peers6_key(out: &mut Vec<u8>)
    ensures
        final(out)@ == old(out)@ + peers6_key(),
{
    out.push(0x36);
    out.push(0x3a);
    out.push(0x70);
    out.push(0x65);
    out.push(0x65);
    out.push(0x72);
    out.push(0x73);
    out.push(0x36);
    proof {
        assert(final(out)@ =~= old(out)@ + peers6_key());
    }
}

/// The body of a successful announce: the aggregate counts, the
/// intervals, and the compact peer list — `peers6` only when the request
/// asked for the IPv6 family as well.
pub open spec fn bencode_announce(
    complete: nat,
    downloaded: nat,
    incomplete: nat,
    interval: nat,
    min_interval: nat,
    peers4: Seq<u8>,
    peers6: Seq<u8>,
    include6: bool,
) -> Seq<u8> {
    seq![0x64] + complete_key() + ben_int(complete) + downloaded_key() + ben_int(downloaded)
        + incomplete_key() + ben_int(incomplete) + interval_key() + ben_int(interval)
        + min_interval_key() + ben_int(min_interval) + peers_key() + ben_str(peers4) + (if include6 {
        peers6_key() + ben_str(peers6)
    } else {
        Seq::<u8>::empty()
    }) + seq![0x65]
}

#[verifier::rlimit(100)]
pub fn build_announce_reply(
    complete: u64,
    downloaded: u64,
    incomplete: u64,
    interval: u64,
    min_interval: u64,
    peers4: &Vec<u8>,
    peers6: &Vec<u8>,
    include6: bool,
) -> (r: Vec<u8>)
    ensures
        r@ == bencode_announce(
            complete as nat,
            downloaded as nat,
            incomplete as nat,
            interval as nat,
            min_interval as nat,
            peers4@,
            peers6@,
            include6,
        ),
{
    let mut out: Vec<u8> = Vec::new();
    out.push(0x64);
    push_complete_key(&mut out);
    push_ben_int(&mut out, complete);
    push_downloaded_key(&mut out);
    push_ben_int(&mut out, downloaded);
    push_incomplete_key(&mut out);
    push_ben_int(&mut out, incomplete);
    push_interval_key(&mut out);
    push_ben_int(&mut out, interval);
    push_min_interval_key(&mut out);
    push_ben_int(&mut out, min_interval);
    push_peers_key(&mut out);
    push_ben_str(&mut out, peers4);
    if include6 {
        push_peers6_key(&mut out);
        push_ben_str(&mut out, peers6);
    }
    out.push(0x65);
    proof {
        assert(out@ =~= bencode_announce(
            complete as nat,
            downloaded as nat,
            incomplete as nat,
            interval as nat,
            min_interval as nat,
            peers4@,
            peers6@,
            include6,
        ));
    }
    out
}

/// The per-hash dictionaries of a scrape body, in input order.
pub open spec fn scrape_files(entries: Seq<(Seq<u8>, nat, nat, nat)>) -> Seq<u8>
    decreases entries.len(),
{
    if entries.len() == 0 {
        Seq::<u8>::empty()
    } else {
        let e = entries[0];
        ben_str(e.0) + seq![0x64] + complete_key() + ben_int(e.1) + downloaded_key() + ben_int(e.2)
            + incomplete_key() + ben_int(e.3) + seq![0x65] + scrape_files(entries.drop_first())
    }
}

/// The body of a scrape reply: a `files` dictionary with one entry per
/// requested hash.
pub open spec fn bencode_scrape(entries: Seq<(Seq<u8>, nat, nat, nat)>) -> Seq<u8> {
    seq![0x64, 0x35, 0x3a, 0x66, 0x69, 0x6c, 0x65, 0x73, 0x64] + scrape_files(entries) + seq![
        0x65,
        0x65,
    ]
}

proof fn lemma_scrape_files_concat(a: Seq<(Seq<u8>, nat, nat, nat)>, b: Seq<(Seq<u8>, nat, nat, nat)>)
    ensures
        scrape_files(a + b) == scrape_files(a) + scrape_files(b),
    decreases a.len(),
{
    if a.len() == 0 {
        assert(a + b =~= b);
        assert(scrape_files(a) + scrape_files(b) =~= scrape_files(b));
    } else {
        assert((a + b)[0] == a[0]);
        assert((a + b).drop_first() =~= a.drop_first() + b);
        lemma_scrape_files_concat(a.drop_first(), b);
        assert(scrape_files(a + b) =~= scrape_files(a) + scrape_files(b));
    }
}

/// The view of one scrape entry: the hash bytes and the three counts.
pub open spec fn scrape_entry_view(e: (Vec<u8>, u64, u64, u64)) -> (Seq<u8>, nat, nat, nat) {
    (e.0@, e.1 as nat, e.2 as nat, e.3 as nat)
}

#[verifier::rlimit(100)]
pub fn build_scrape_reply(entries: &Vec<(Vec<u8>, u64, u64, u64)>) -> (r: Vec<u8>)
    ensures
        r@ == bencode_scrape(entries@.map_values(|e: (Vec<u8>, u64, u64, u64)| scrape_entry_view(e))),
{
    let mut out: Vec<u8> = Vec::new();
    out.push(0x64);
    out.push(0x35);
    out.push(0x3a);
    out.push(0x66);
    out.push(0x69);
    out.push(0x6c);
    out.push(0x65);
    out.push(0x73);
    out.push(0x64);
    let ghost header = out@;
    let ghost vs = entries@.map_values(|e: (Vec<u8>, u64, u64, u64)| scrape_entry_view(e));
    let mut i: usize = 0;
    let len = entries.len();
    proof {
        assert(vs.take(0) =~= Seq::<(Seq<u8>, nat, nat, nat)>::empty());
        assert(out@ =~= header + scrape_files(vs.take(0)));
    }
    while i < len
        invariant
            0 <= i <= len,
            len == entries@.len(),
            vs == entries@.map_values(|e: (Vec<u8>, u64, u64, u64)| scrape_entry_view(e)),
            vs.len() == len,
            out@ == header + scrape_files(vs.take(i as int)),
        decreases len - i,
    {
        let e = &entries[i];
        push_ben_str(&mut out, &e.0);
        out.push(0x64);
        push_complete_key(&mut out);
        push_ben_int(&mut out, e.1);
        push_downloaded_key(&mut out);
        push_ben_int(&mut out, e.2);
        push_incomplete_key(&mut out);
        push_ben_int(&mut out, e.3);
        out.push(0x65);
        proof {
            assert(vs.take(i as int + 1) =~= vs.take(i as int) + seq![vs[i as int]]);
            lemma_scrape_files_concat(vs.take(i as int), seq![vs[i as int]]);
            assert(seq![vs[i as int]].drop_first() =~= Seq::<(Seq<u8>, nat, nat, nat)>::empty());
            assert(scrape_files(Seq::<(Seq<u8>, nat, nat, nat)>::empty()) =~= Seq::<u8>::empty());
            assert(seq![vs[i as int]][0] == vs[i as int]);
            assert(vs[i as int] == scrape_entry_view(entries@[i as int]));
            assert(out@ =~= header + scrape_files(vs.take(i as int + 1)));
        }
        i = i + 1;
    }
    out.push(0x65);
    out.push(0x65);
    proof {
        assert(vs.take(len as int) =~= vs);
        assert(out@ =~= bencode_scrape(vs));
    }
    out
}

} // verus!
