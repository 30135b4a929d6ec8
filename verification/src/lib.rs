//! Verified core of a BitTorrent tracker: identifier codecs, the in-memory
//! swarm engine (torrents, peers, access lists, users, update journals), the
//! UDP protocol framing with stateless connection ids, the query-string
//! parser, and the statement builders of the write-behind persistence
//! pipeline.

pub mod access;
pub mod api;
pub mod bencode;
pub mod codec;
pub mod decimal;
pub mod digest;
pub mod errs;
pub mod http;
pub mod idmap;
pub mod ids;
pub mod ints;
pub mod order;
pub mod query;
pub mod sqlgen;
pub mod stats;
pub mod torrents;
pub mod udp;
pub mod users;
pub mod utf8_text;
pub mod util;
