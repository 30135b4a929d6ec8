//! The compute side of the admin HTTP API and of the HTTP announce
//! rejections: token validation, the info-hash path parameter, the
//! status bodies, and the per-request counter updates. Transport and
//! JSON serialization of larger payloads stay outside the library.

use vstd::prelude::*;
use vstd::string::StrSliceExecFns;
use vstd::string::StringExecFns;
use vstd::utf8::encode_utf8;
use crate::access::{AccessDecision, AccessList, KeysStore};
use crate::bencode::{bencode_failure, build_failure};
use crate::codec::{all_hex_chars, bin2hex, hex_bytes, hex_of};
use crate::idmap::clone_bytes;
use crate::ids::InfoHash;
use crate::order::bytes_eq;
use crate::query::QueryMap;
use crate::stats::{StatsBank, StatsEvent, sat_add_i64};
use crate::torrents::{AnnounceEvent, TorrentEntry};

verus! {

/// Whether a query carries the configured API token: a `token` key with
/// at least one value whose bytes are the token's UTF-8 form.
pub open spec fn token_matches(
    qm: Map<Seq<char>, Seq<Seq<u8>>>,
    api_key: Seq<char>,
) -> bool {
    &&& qm.contains_key("token"@)
    &&& qm["token"@].len() > 0
    &&& qm["token"@][0] == encode_utf8(api_key)
}

/// Checks the `token` query parameter against the configured API key.
pub fn validate_api_token(api_key: &String, query: &QueryMap) -> (r: bool)
    requires
        query.wf(),
    ensures
        r == token_matches(query@, api_key@),
{
    let token_key = String::from_str("token");
    proof {
        reveal_strlit("token");
    }
    match query.get(&token_key) {
        None => false,
        Some(values) => {
            if values.len() == 0 {
                proof {
                    assert(values.deep_view().len() == 0);
                }
                false
            } else {
                let expected = api_key.as_str().as_bytes_vec();
                let r = bytes_eq(&values[0], &expected);
                proof {
                    assert(values.deep_view()[0] == values@[0]@);
                }
                r
            }
        },
    }
}

/// A `{"status": …}` body, as the admin API answers every request.
pub open spec fn json_status_of(status: Seq<char>) -> Seq<char> {
    "{\"status\":\""@ + status + "\"}"@
}

pub fn json_status(status: &str) -> (r: String)
    ensures
        r@ == json_status_of(status@),
{
    let mut s = String::new();
    s.append("{\"status\":\"");
    s.append(status);
    s.append("\"}");
    proof {
        assert(s@ =~= json_status_of(status@));
    }
    s
}

/// Counts an admin API request on the connection counters of its family.
pub fn api_stats_update(stats: &mut StatsBank, is_v4: bool)
    requires
        old(stats).wf(),
    ensures
        final(stats).wf(),
        is_v4 ==> final(stats).counter(StatsEvent::Tcp4ConnectionsHandled) == sat_add_i64(
            old(stats).counter(StatsEvent::Tcp4ConnectionsHandled),
            1,
        ) && final(stats).counter(StatsEvent::Tcp4ApiHandled) == sat_add_i64(
            old(stats).counter(StatsEvent::Tcp4ApiHandled),
            1,
        ),
        !is_v4 ==> final(stats).counter(StatsEvent::Tcp6ConnectionsHandled) == sat_add_i64(
            old(stats).counter(StatsEvent::Tcp6ConnectionsHandled),
            1,
        ) && final(stats).counter(StatsEvent::Tcp6ApiHandled) == sat_add_i64(
            old(stats).counter(StatsEvent::Tcp6ApiHandled),
            1,
        ),
{
    if is_v4 {
        stats.update_stats(StatsEvent::Tcp4ConnectionsHandled, 1);
        stats.update_stats(StatsEvent::Tcp4ApiHandled, 1);
    } else {
        stats.update_stats(StatsEvent::Tcp6ConnectionsHandled, 1);
        stats.update_stats(StatsEvent::Tcp6ApiHandled, 1);
    }
}

/// Why an info-hash path parameter was not usable.
#[derive(Clone, Copy, Debug, PartialEq, Eq, Structural)]
pub enum HashParamError {
    Unknown,
    Invalid,
}

/// Reads the `:info_hash` path parameter: absent is unknown; anything but
/// exactly 40 hex characters is invalid.
pub fn parse_hash_param(param: Option<String>) -> (r: Result<InfoHash, HashParamError>)
    ensures
        match r {
            Ok(h) => param is Some && param->Some_0@.len() == 40 && all_hex_chars(param->Some_0@)
                && h.wf() && h@ == hex_bytes(param->Some_0@),
            Err(e) => (e == HashParamError::Unknown <==> param is None) && (e
                == HashParamError::Invalid ==> !(param->Some_0@.len() == 40 && all_hex_chars(
                param->Some_0@,
            ))),
        },
{
    match param {
        None => Err(HashParamError::Unknown),
        Some(text) => {
            let ghost tv = text@;
            proof {
                assert(param->Some_0@ == tv);
            }
            let len = text.as_str().unicode_len();
            if len != 40 {
                return Err(HashParamError::Invalid);
            }
            match InfoHash::from_hex(text) {
                Ok(h) => {
                    proof {
                        assert(tv.subrange(0, 40) =~= tv);
                    }
                    Ok(h)
                },
                Err(_) => Err(HashParamError::Invalid),
            }
        },
    }
}

/// The admin handler of a whitelist or blacklist query: token, then the
/// path parameter, then membership.
pub fn api_list_get(
    list: &AccessList,
    api_key: &String,
    query: &QueryMap,
    param: Option<String>,
) -> (r: String)
    requires
        list.wf(),
        query.wf(),
    ensures
        !token_matches(query@, api_key@) ==> r@ == json_status_of("invalid token"@),
        token_matches(query@, api_key@) && param is None ==> r@ == json_status_of(
            "unknown info_hash"@,
        ),
        token_matches(query@, api_key@) && param is Some && !(param->Some_0@.len() == 40
            && all_hex_chars(param->Some_0@)) ==> r@ == json_status_of("invalid info_hash"@),
        token_matches(query@, api_key@) && param is Some && param->Some_0@.len() == 40
            && all_hex_chars(param->Some_0@) ==> r@ == (if list.set@.contains_key(
            hex_bytes(param->Some_0@),
        ) {
            json_status_of("ok"@)
        } else {
            json_status_of("not found"@)
        }),
{
    if !validate_api_token(api_key, query) {
        return json_status("invalid token");
    }
    match parse_hash_param(param) {
        Err(HashParamError::Unknown) => json_status("unknown info_hash"),
        Err(HashParamError::Invalid) => json_status("invalid info_hash"),
        Ok(hash) => {
            if list.contains(&hash) {
                json_status("ok")
            } else {
                json_status("not found")
            }
        },
    }
}

/// The admin handler that lists an info-hash.
pub fn api_list_post(
    list: &mut AccessList,
    api_key: &String,
    query: &QueryMap,
    param: Option<String>,
) -> (r: String)
    requires
        old(list).wf(),
        query.wf(),
    ensures
        final(list).wf(),
        !token_matches(query@, api_key@) ==> r@ == json_status_of("invalid token"@) && *final(list)
            == *old(list),
        token_matches(query@, api_key@) && param is None ==> r@ == json_status_of(
            "unknown info_hash"@,
        ) && *final(list) == *old(list),
        token_matches(query@, api_key@) && param is Some && !(param->Some_0@.len() == 40
            && all_hex_chars(param->Some_0@)) ==> r@ == json_status_of("invalid info_hash"@)
            && *final(list) == *old(list),
        token_matches(query@, api_key@) && param is Some && param->Some_0@.len() == 40
            && all_hex_chars(param->Some_0@) ==> r@ == json_status_of("ok"@) && final(list).set@
            == old(list).set@.insert(hex_bytes(param->Some_0@), true) && final(list).journal@
            == crate::access::journal_after_add(old(list).journal@, hex_bytes(param->Some_0@)),
{
    if !validate_api_token(api_key, query) {
        return json_status("invalid token");
    }
    match parse_hash_param(param) {
        Err(HashParamError::Unknown) => json_status("unknown info_hash"),
        Err(HashParamError::Invalid) => json_status("invalid info_hash"),
        Ok(hash) => {
            list.add(&hash);
            json_status("ok")
        },
    }
}

/// The admin handler that unlists an info-hash.
pub fn api_list_delete(
    list: &mut AccessList,
    api_key: &String,
    query: &QueryMap,
    param: Option<String>,
    remove_action: bool,
) -> (r: String)
    requires
        old(list).wf(),
        query.wf(),
    ensures
        final(list).wf(),
        !token_matches(query@, api_key@) ==> r@ == json_status_of("invalid token"@) && *final(list)
            == *old(list),
        token_matches(query@, api_key@) && param is None ==> r@ == json_status_of(
            "unknown info_hash"@,
        ) && *final(list) == *old(list),
        token_matches(query@, api_key@) && param is Some && !(param->Some_0@.len() == 40
            && all_hex_chars(param->Some_0@)) ==> r@ == json_status_of("invalid info_hash"@)
            && *final(list) == *old(list),
        token_matches(query@, api_key@) && param is Some && param->Some_0@.len() == 40
            && all_hex_chars(param->Some_0@) ==> r@ == json_status_of("ok"@) && final(list).set@
            == old(list).set@.remove(hex_bytes(param->Some_0@)) && final(list).journal@
            == crate::access::journal_after_remove(
            old(list).journal@,
            hex_bytes(param->Some_0@),
            remove_action,
        ),
{
    if !validate_api_token(api_key, query) {
        return json_status("invalid token");
    }
    match parse_hash_param(param) {
        Err(HashParamError::Unknown) => json_status("unknown info_hash"),
        Err(HashParamError::Invalid) => json_status("invalid info_hash"),
        Ok(hash) => {
            list.remove(&hash, remove_action);
            json_status("ok")
        },
    }
}

/// Mints a key valid for `seconds_valid` seconds from `now`; the key
/// material is handed in by the caller.
pub fn api_key_add(
    keys: &mut KeysStore,
    key_hash: &InfoHash,
    seconds_valid: u64,
    now: i64,
) -> (r: String)
    requires
        old(keys).wf(),
        0 <= now,
        now + seconds_valid <= i64::MAX,
    ensures
        final(keys).wf(),
        r@ == json_status_of("ok"@),
        final(keys).keys@ == old(keys).keys@.insert(key_hash@, (now + seconds_valid) as i64),
{
    let expiry: i64 = now + (seconds_valid as i64);
    keys.add_key(key_hash, expiry);
    json_status("ok")
}

/// Revokes a key.
pub fn api_key_delete(keys: &mut KeysStore, key_hash: &InfoHash, remove_action: bool) -> (r:
    String)
    requires
        old(keys).wf(),
    ensures
        final(keys).wf(),
        r@ == json_status_of("ok"@),
        final(keys).keys@ == old(keys).keys@.remove(key_hash@),
{
    keys.remove_key(key_hash, remove_action);
    json_status("ok")
}

/// The wire name of an announce event, as the torrent detail lists it.
pub fn event_name(e: AnnounceEvent) -> (r: String)
    ensures
        e == AnnounceEvent::Started ==> r@ == "Started"@,
        e == AnnounceEvent::Stopped ==> r@ == "Stopped"@,
        e == AnnounceEvent::Completed ==> r@ == "Completed"@,
        e == AnnounceEvent::NoEvent ==> r@ == "None"@,
{
    match e {
        AnnounceEvent::Started => String::from_str("Started"),
        AnnounceEvent::Stopped => String::from_str("Stopped"),
        AnnounceEvent::Completed => String::from_str("Completed"),
        AnnounceEvent::NoEvent => String::from_str("None"),
    }
}

/// One peer of the torrent-detail payload, ready for serialization.
pub struct ApiPeerInfo {
    pub id_hex: String,
    pub is_v6: bool,
    pub ip: Vec<u8>,
    pub port: u16,
    pub updated: u64,
    pub uploaded: u64,
    pub downloaded: u64,
    pub left: u64,
    pub event: String,
}

/// The torrent-detail payload of `GET /api/torrent/…`, ready for
/// serialization: the hex hash, the counts, and every leecher.
pub struct ApiTorrentDetail {
    pub info_hash: String,
    pub completed: u64,
    pub seeders: u64,
    pub leechers: u64,
    pub peers: Vec<ApiPeerInfo>,
}

/// Builds the torrent-detail payload from a torrent entry: the counts and
/// the leecher bucket, in peer-id order.
pub fn build_torrent_detail(info_hash: &InfoHash, entry: &TorrentEntry) -> (r: ApiTorrentDetail)
    requires
        entry.wf(),
    ensures
        r.info_hash@ == hex_of(info_hash@),
        r.completed == entry.completed,
        r.seeders == entry.seeds@.dom().len(),
        r.leechers == entry.peers@.dom().len(),
        r.peers@.len() == entry.peers.spec_len(),
        forall|i: int|
            0 <= i < r.peers@.len() ==> ({
                let p = #[trigger] r.peers@[i];
                let src = entry.peers.val_at(i);
                &&& p.id_hex@ == hex_of(entry.peers.key_at(i))
                &&& p.is_v6 == src.addr.is_v6
                &&& p.ip@ == src.addr.ip@
                &&& p.port == src.addr.port
                &&& p.updated == src.updated
                &&& p.uploaded == src.uploaded
                &&& p.downloaded == src.downloaded
                &&& p.left == src.left
            }),
{
    proof {
        entry.seeds.lemma_view();
        entry.peers.lemma_view();
    }
    let mut peers: Vec<ApiPeerInfo> = Vec::new();
    let mut i: usize = 0;
    let len = entry.peers.len();
    while i < len
        invariant
            0 <= i <= len,
            len == entry.peers.spec_len(),
            peers@.len() == i,
            forall|j: int|
                0 <= j < i ==> ({
                    let p = #[trigger] peers@[j];
                    let src = entry.peers.val_at(j);
                    &&& p.id_hex@ == hex_of(entry.peers.key_at(j))
                    &&& p.is_v6 == src.addr.is_v6
                    &&& p.ip@ == src.addr.ip@
                    &&& p.port == src.addr.port
                    &&& p.updated == src.updated
                    &&& p.uploaded == src.uploaded
                    &&& p.downloaded == src.downloaded
                    &&& p.left == src.left
                }),
        decreases len - i,
    {
        let (k, v) = entry.peers.entry_at(i);
        let id_hex = bin2hex(k);
        peers.push(
            ApiPeerInfo {
                id_hex,
                is_v6: v.addr.is_v6,
                ip: clone_bytes(&v.addr.ip),
                port: v.addr.port,
                updated: v.updated,
                uploaded: v.uploaded,
                downloaded: v.downloaded,
                left: v.left,
                event: event_name(v.event),
            },
        );
        i = i + 1;
    }
    ApiTorrentDetail {
        info_hash: bin2hex(&info_hash.bytes),
        completed: entry.completed,
        seeders: entry.seeds.len() as u64,
        leechers: entry.peers.len() as u64,
        peers,
    }
}

/// The bencoded rejection body of a denied announce.
pub fn denied_announce_body(decision: AccessDecision) -> (r: Vec<u8>)
    requires
        decision != AccessDecision::Allowed,
    ensures
        decision == AccessDecision::NotWhitelisted ==> r@ == bencode_failure(
            "info_hash not whitelisted"@.map_values(|c: char| ((c as int) % 256) as u8),
        ),
        decision == AccessDecision::Blacklisted ==> r@ == bencode_failure(
            "info_hash is blacklisted"@.map_values(|c: char| ((c as int) % 256) as u8),
        ),
        decision == AccessDecision::KeyInvalid ==> r@ == bencode_failure(
            "key invalid or expired"@.map_values(|c: char| ((c as int) % 256) as u8),
        ),
{
    let text: &'static str = match decision {
        AccessDecision::NotWhitelisted => "info_hash not whitelisted",
        AccessDecision::Blacklisted => "info_hash is blacklisted",
        _ => "key invalid or expired",
    };
    let msg = ascii_bytes_of(text);
    build_failure(&msg)
}

/// The bytes of an ASCII string, character for character; characters
/// beyond ASCII are folded into a byte.
pub fn ascii_bytes_of(s: &str) -> (r: Vec<u8>)
    ensures
        r@ == s@.map_values(|c: char| ((c as int) % 256) as u8),
{
    let mut r: Vec<u8> = Vec::new();
    let len = s.unicode_len();
    let mut i: usize = 0;
    proof {
        assert(r@ =~= s@.take(0).map_values(|c: char| ((c as int) % 256) as u8));
    }
    while i < len
        invariant
            0 <= i <= len,
            len == s@.len(),
            r@ == s@.take(i as int).map_values(|c: char| ((c as int) % 256) as u8),
        decreases len - i,
    {
        let c = s.get_char(i);
        let code = c as u32;
        r.push((code % 256) as u8);
        proof {
            assert(s@.take(i as int + 1) =~= s@.take(i as int).push(s@[i as int]));
            assert(r@ =~= s@.take(i as int + 1).map_values(|c: char| ((c as int) % 256) as u8));
        }
        i = i + 1;
    }
    proof {
        assert(s@.take(len as int) =~= s@);
    }
    r
}

} // verus!
