//! The HTTP announce request: pulling the typed announce fields out of a
//! parsed query string, with the same required fields and defaults the
//! announce path demands.

use vstd::prelude::*;
use vstd::string::StringExecFns;
use crate::decimal::{all_dec_digits, dec_val, parse_dec_u64};
use crate::idmap::clone_bytes;
use crate::ids::{InfoHash, PeerId};
use crate::order::bytes_eq;
use crate::query::QueryMap;
use crate::torrents::AnnounceEvent;

verus! {

/// Whether a parsed query carries at least one value under a key.
pub open spec fn has_val(qm: Map<Seq<char>, Seq<Seq<u8>>>, key: Seq<char>) -> bool {
    qm.contains_key(key) && qm[key].len() > 0
}

/// The first value under a key.
pub open spec fn first_val(qm: Map<Seq<char>, Seq<Seq<u8>>>, key: Seq<char>) -> Seq<u8> {
    qm[key][0]
}

/// A numeric field parses when it is all digits and fits.
pub open spec fn num_ok(qm: Map<Seq<char>, Seq<Seq<u8>>>, key: Seq<char>) -> bool {
    &&& has_val(qm, key)
    &&& first_val(qm, key).len() > 0
    &&& all_dec_digits(first_val(qm, key))
    &&& dec_val(first_val(qm, key)) <= u64::MAX
}

pub open spec fn ascii_b(s: Seq<char>) -> Seq<u8> {
    s.map_values(|c: char| ((c as int) % 256) as u8)
}

/// The event an announce query names; anything unrecognized or absent is
/// no event.
pub open spec fn event_of_query(qm: Map<Seq<char>, Seq<Seq<u8>>>) -> AnnounceEvent {
    if has_val(qm, "event"@) {
        if first_val(qm, "event"@) == ascii_b("started"@) {
            AnnounceEvent::Started
        } else if first_val(qm, "event"@) == ascii_b("stopped"@) {
            AnnounceEvent::Stopped
        } else if first_val(qm, "event"@) == ascii_b("completed"@) {
            AnnounceEvent::Completed
        } else {
            AnnounceEvent::NoEvent
        }
    } else {
        AnnounceEvent::NoEvent
    }
}

/// How many peers the response may list: what the query asks for, capped
/// at 72, and 72 where absent or unreadable.
pub open spec fn numwant_of_query(qm: Map<Seq<char>, Seq<Seq<u8>>>) -> u64 {
    if num_ok(qm, "numwant"@) && dec_val(first_val(qm, "numwant"@)) <= 72 {
        dec_val(first_val(qm, "numwant"@)) as u64
    } else {
        72
    }
}

/// Whether the query asks for the compact peer list.
pub open spec fn compact_of_query(qm: Map<Seq<char>, Seq<Seq<u8>>>) -> bool {
    has_val(qm, "compact"@) && first_val(qm, "compact"@) == ascii_b("1"@)
}

/// The typed fields of an HTTP announce.
pub struct HttpAnnounceRequest {
    pub info_hash: InfoHash,
    pub peer_id: PeerId,
    pub port: u16,
    pub uploaded: u64,
    pub downloaded: u64,
    pub left: u64,
    pub event: AnnounceEvent,
    pub numwant: u64,
    pub compact: bool,
}

/// What stopped an announce query from parsing, in the order the fields
/// are checked.
#[derive(Clone, Copy, Debug, PartialEq, Eq, Structural)]
pub enum AnnounceParseError {
    MissingInfoHash,
    InvalidInfoHash,
    MissingPeerId,
    InvalidPeerId,
    MissingPort,
    InvalidPort,
    MissingUploaded,
    MissingDownloaded,
    MissingLeft,
}

/// The conditions under which an announce query parses: the raw 20-byte
/// identifiers, a port that fits, and the three byte counters.
pub open spec fn announce_query_ok(qm: Map<Seq<char>, Seq<Seq<u8>>>) -> bool {
    &&& has_val(qm, "info_hash"@)
    &&& first_val(qm, "info_hash"@).len() == 20
    &&& has_val(qm, "peer_id"@)
    &&& first_val(qm, "peer_id"@).len() == 20
    &&& num_ok(qm, "port"@)
    &&& dec_val(first_val(qm, "port"@)) <= u16::MAX
    &&& num_ok(qm, "uploaded"@)
    &&& num_ok(qm, "downloaded"@)
    &&& num_ok(qm, "left"@)
}

fn get_first<'a>(qm: &'a QueryMap, key: &str) -> (r: Option<&'a Vec<u8>>)
    requires
        qm.wf(),
    ensures
        match r {
            Some(v) => has_val(qm@, key@) && v@ == first_val(qm@, key@),
            None => !has_val(qm@, key@),
        },
{
    let k = String::from_str(key);
    match qm.get(&k) {
        None => None,
        Some(values) => {
            if values.len() == 0 {
                proof {
                    assert(values.deep_view().len() == 0);
                }
                None
            } else {
                proof {
                    assert(values.deep_view()[0] == values@[0]@);
                }
                Some(&values[0])
            }
        },
    }
}

fn parse_num_field(qm: &QueryMap, key: &str) -> (r: Option<u64>)
    requires
        qm.wf(),
    ensures
        match r {
            Some(v) => num_ok(qm@, key@) && v == dec_val(first_val(qm@, key@)),
            None => !num_ok(qm@, key@),
        },
{
    match get_first(qm, key) {
        None => None,
        Some(raw) => parse_dec_u64(raw),
    }
}

/// Pulls the typed announce fields out of a parsed query.
pub fn parse_announce_query(qm: &QueryMap) -> (r: Result<HttpAnnounceRequest, AnnounceParseError>)
    requires
        qm.wf(),
    ensures
        r is Ok <==> announce_query_ok(qm@),
        r matches Ok(a) ==> ({
            &&& a.info_hash@ == first_val(qm@, "info_hash"@)
            &&& a.info_hash.wf()
            &&& a.peer_id@ == first_val(qm@, "peer_id"@)
            &&& a.peer_id.wf()
            &&& a.port == dec_val(first_val(qm@, "port"@))
            &&& a.uploaded == dec_val(first_val(qm@, "uploaded"@))
            &&& a.downloaded == dec_val(first_val(qm@, "downloaded"@))
            &&& a.left == dec_val(first_val(qm@, "left"@))
            &&& a.event == event_of_query(qm@)
            &&& a.numwant == numwant_of_query(qm@)
            &&& a.compact == compact_of_query(qm@)
        }),
{
    proof {
        reveal_strlit("info_hash");
        reveal_strlit("peer_id");
        reveal_strlit("port");
        reveal_strlit("uploaded");
        reveal_strlit("downloaded");
        reveal_strlit("left");
        reveal_strlit("event");
        reveal_strlit("numwant");
        reveal_strlit("compact");
        reveal_strlit("started");
        reveal_strlit("stopped");
        reveal_strlit("completed");
        reveal_strlit("1");
    }
    let info_hash = match get_first(qm, "info_hash") {
        None => {
            return Err(AnnounceParseError::MissingInfoHash);
        },
        Some(raw) => {
            if raw.len() != 20 {
                return Err(AnnounceParseError::InvalidInfoHash);
            }
            InfoHash::new(clone_bytes(raw))
        },
    };
    let peer_id = match get_first(qm, "peer_id") {
        None => {
            return Err(AnnounceParseError::MissingPeerId);
        },
        Some(raw) => {
            if raw.len() != 20 {
                return Err(AnnounceParseError::InvalidPeerId);
            }
            PeerId::new(clone_bytes(raw))
        },
    };
    let port = match get_first(qm, "port") {
        None => {
            return Err(AnnounceParseError::MissingPort);
        },
        Some(raw) => match parse_dec_u64(raw) {
            None => {
                return Err(AnnounceParseError::InvalidPort);
            },
            Some(v) => {
                if v > 65535 {
                    return Err(AnnounceParseError::InvalidPort);
                }
                v as u16
            },
        },
    };
    let uploaded = match parse_num_field(qm, "uploaded") {
        None => {
            return Err(AnnounceParseError::MissingUploaded);
        },
        Some(v) => v,
    };
    let downloaded = match parse_num_field(qm, "downloaded") {
        None => {
            return Err(AnnounceParseError::MissingDownloaded);
        },
        Some(v) => v,
    };
    let left = match parse_num_field(qm, "left") {
        None => {
            return Err(AnnounceParseError::MissingLeft);
        },
        Some(v) => v,
    };
    let event = match get_first(qm, "event") {
        None => AnnounceEvent::NoEvent,
        Some(raw) => {
            let started = crate::api::ascii_bytes_of("started");
            let stopped = crate::api::ascii_bytes_of("stopped");
            let completed = crate::api::ascii_bytes_of("completed");
            if bytes_eq(raw, &started) {
                AnnounceEvent::Started
            } else if bytes_eq(raw, &stopped) {
                AnnounceEvent::Stopped
            } else if bytes_eq(raw, &completed) {
                AnnounceEvent::Completed
            } else {
                AnnounceEvent::NoEvent
            }
        },
    };
    let numwant = match parse_num_field(qm, "numwant") {
        None => 72,
        Some(v) => if v <= 72 {
            v
        } else {
            72
        },
    };
    let compact = match get_first(qm, "compact") {
        None => false,
        Some(raw) => {
            let one = crate::api::ascii_bytes_of("1");
            bytes_eq(raw, &one)
        },
    };
    Ok(HttpAnnounceRequest { info_hash, peer_id, port, uploaded, downloaded, left, event, numwant, compact })
}

} // verus!
