//! The write-behind persistence pipeline's statement builders: for each
//! store, the exact SQL text that a drained journal turns into, and the
//! paged queries of the boot-time load. The identifier columns are
//! rendered binary (`X'…'`) or as hex text, by configuration.

use vstd::prelude::*;
use vstd::string::StringExecFns;
use crate::access::UpdatesAction;
use crate::codec::{bin2hex, hex_of};
use crate::decimal::{dec_of, dec_of_int, i64_to_dec, u64_to_dec};
use crate::ids::InfoHash;

verus! {

/// The save-path switches of the database configuration.
pub struct DbSettings {
    pub remove_action: bool,
    pub insert_vacant: bool,
    pub update_peers: bool,
    pub update_completed: bool,
}

/// Table and column names of the torrents table.
pub struct DbTorrentsStructure {
    pub table_name: String,
    pub column_infohash: String,
    pub column_seeds: String,
    pub column_peers: String,
    pub column_completed: String,
    pub bin_type_infohash: bool,
}

/// Table and column names of the whitelist or the blacklist table.
pub struct DbListStructure {
    pub table_name: String,
    pub column_infohash: String,
    pub bin_type_infohash: bool,
}

/// Table and column names of the keys table.
pub struct DbKeysStructure {
    pub table_name: String,
    pub column_hash: String,
    pub column_timeout: String,
    pub bin_type_hash: bool,
}

/// Table and column names of the users table.
pub struct DbUsersStructure {
    pub table_name: String,
    pub column_uuid: String,
    pub column_id: String,
    pub column_key: String,
    pub column_uploaded: String,
    pub column_downloaded: String,
    pub column_completed: String,
    pub column_active: String,
    pub column_updated: String,
    pub id_uuid: bool,
    pub bin_type_key: bool,
}

/// A 20-byte identifier as a SQL literal: binary (`X'…'`) or hex text.
pub open spec fn id_literal(hex: Seq<char>, bin: bool) -> Seq<char> {
    (if bin {
        "X'"@
    } else {
        "'"@
    }) + hex + "'"@
}

pub open spec fn delete_torrent_sql(ts: DbTorrentsStructure, hex: Seq<char>) -> Seq<char> {
    "DELETE FROM `"@ + ts.table_name@ + "` WHERE `"@ + ts.column_infohash@ + "`="@ + id_literal(
        hex,
        ts.bin_type_infohash,
    )
}

pub open spec fn upsert_torrent_counts_sql(
    ts: DbTorrentsStructure,
    hex: Seq<char>,
    seeds: nat,
    peers: nat,
) -> Seq<char> {
    "INSERT INTO `"@ + ts.table_name@ + "` (`"@ + ts.column_infohash@ + "`, `"@ + ts.column_seeds@
        + "`, `"@ + ts.column_peers@ + "`) VALUES ("@ + id_literal(hex, ts.bin_type_infohash)
        + ", "@ + dec_of(seeds) + ", "@ + dec_of(peers) + ") ON CONFLICT (`"@ + ts.column_infohash@
        + "`) DO UPDATE SET `"@ + ts.column_seeds@ + "`=excluded.`"@ + ts.column_seeds@ + "`, `"@
        + ts.column_peers@ + "`=excluded.`"@ + ts.column_peers@ + "`"@
}

pub open spec fn upsert_torrent_completed_sql(
    ts: DbTorrentsStructure,
    hex: Seq<char>,
    completed: nat,
) -> Seq<char> {
    "INSERT INTO `"@ + ts.table_name@ + "` (`"@ + ts.column_infohash@ + "`, `"@
        + ts.column_completed@ + "`) VALUES ("@ + id_literal(hex, ts.bin_type_infohash) + ", "@
        + dec_of(completed) + ") ON CONFLICT (`"@ + ts.column_infohash@ + "`) DO UPDATE SET `"@
        + ts.column_completed@ + "`=excluded.`"@ + ts.column_completed@ + "`"@
}

pub open spec fn update_torrent_counts_sql(
    ts: DbTorrentsStructure,
    hex: Seq<char>,
    seeds: nat,
    peers: nat,
) -> Seq<char> {
    "UPDATE OR IGNORE `"@ + ts.table_name@ + "` SET `"@ + ts.column_seeds@ + "`="@ + dec_of(seeds)
        + ", `"@ + ts.column_peers@ + "`="@ + dec_of(peers) + " WHERE `"@ + ts.column_infohash@
        + "`="@ + id_literal(hex, ts.bin_type_infohash)
}

pub open spec fn update_torrent_completed_sql(
    ts: DbTorrentsStructure,
    hex: Seq<char>,
    completed: nat,
) -> Seq<char> {
    "UPDATE OR IGNORE `"@ + ts.table_name@ + "` SET `"@ + ts.column_completed@ + "`="@ + dec_of(
        completed,
    ) + " WHERE `"@ + ts.column_infohash@ + "`="@ + id_literal(hex, ts.bin_type_infohash)
}

/// The statements one journalled torrent turns into: a delete where
/// removals are enabled, else the configured counter writes, as upserts
/// or as update-only statements.
pub open spec fn torrent_stmts(
    st: DbSettings,
    ts: DbTorrentsStructure,
    hex: Seq<char>,
    seeds: nat,
    peers: nat,
    completed: nat,
    action: UpdatesAction,
) -> Seq<Seq<char>> {
    if action == UpdatesAction::Remove {
        if st.remove_action {
            seq![delete_torrent_sql(ts, hex)]
        } else {
            Seq::<Seq<char>>::empty()
        }
    } else {
        (if st.update_peers {
            if st.insert_vacant {
                seq![upsert_torrent_counts_sql(ts, hex, seeds, peers)]
            } else {
                seq![update_torrent_counts_sql(ts, hex, seeds, peers)]
            }
        } else {
            Seq::<Seq<char>>::empty()
        }) + (if st.update_completed {
            if st.insert_vacant {
                seq![upsert_torrent_completed_sql(ts, hex, completed)]
            } else {
                seq![update_torrent_completed_sql(ts, hex, completed)]
            }
        } else {
            Seq::<Seq<char>>::empty()
        })
    }
}

fn id_literal_exec(out: &mut String, info_hash: &InfoHash, bin: bool)
    ensures
        final(out)@ == old(out)@ + id_literal(hex_of(info_hash@), bin),
{
    if bin {
        out.append("X'");
    } else {
        out.append("'");
    }
    let hex = bin2hex(&info_hash.bytes);
    out.append(hex.as_str());
    out.append("'");
    proof {
        assert(final(out)@ =~= old(out)@ + id_literal(hex_of(info_hash@), bin));
    }
}

/// The statements that persist one journalled torrent.
pub fn save_torrent_stmts(
    st: &DbSettings,
    ts: &DbTorrentsStructure,
    info_hash: &InfoHash,
    seeds: u64,
    peers: u64,
    completed: u64,
    action: UpdatesAction,
) -> (r: Vec<String>)
    ensures
        r.deep_view() == torrent_stmts(
            *st,
            *ts,
            hex_of(info_hash@),
            seeds as nat,
            peers as nat,
            completed as nat,
            action,
        ),
{
    let ghost hex = hex_of(info_hash@);
    let mut r: Vec<String> = Vec::new();
    match action {
        UpdatesAction::Remove => {
            if st.remove_action {
                let mut s = String::new();
                s.append("DELETE FROM `");
                s.append(ts.table_name.as_str());
                s.append("` WHERE `");
                s.append(ts.column_infohash.as_str());
                s.append("`=");
                id_literal_exec(&mut s, info_hash, ts.bin_type_infohash);
                proof {
                    assert(s@ =~= delete_torrent_sql(*ts, hex));
                }
                r.push(s);
                proof {
                    assert(r.deep_view() =~= seq![delete_torrent_sql(*ts, hex)]);
                }
            } else {
                proof {
                    assert(r.deep_view() =~= Seq::<Seq<char>>::empty());
                }
            }
        },
        _ => {
            if st.update_peers {
                let mut s = String::new();
                if st.insert_vacant {
                    s.append("INSERT INTO `");
                    s.append(ts.table_name.as_str());
                    s.append("` (`");
                    s.append(ts.column_infohash.as_str());
                    s.append("`, `");
                    s.append(ts.column_seeds.as_str());
                    s.append("`, `");
                    s.append(ts.column_peers.as_str());
                    s.append("`) VALUES (");
                    id_literal_exec(&mut s, info_hash, ts.bin_type_infohash);
                    s.append(", ");
                    let sd = u64_to_dec(seeds);
                    s.append(sd.as_str());
                    s.append(", ");
                    let pd = u64_to_dec(peers);
                    s.append(pd.as_str());
                    s.append(") ON CONFLICT (`");
                    s.append(ts.column_infohash.as_str());
                    s.append("`) DO UPDATE SET `");
                    s.append(ts.column_seeds.as_str());
                    s.append("`=excluded.`");
                    s.append(ts.column_seeds.as_str());
                    s.append("`, `");
                    s.append(ts.column_peers.as_str());
                    s.append("`=excluded.`");
                    s.append(ts.column_peers.as_str());
                    s.append("`");
                    proof {
                        assert(s@ =~= upsert_torrent_counts_sql(
                            *ts,
                            hex,
                            seeds as nat,
                            peers as nat,
                        ));
                    }
                } else {
                    s.append("UPDATE OR IGNORE `");
                    s.append(ts.table_name.as_str());
                    s.append("` SET `");
                    s.append(ts.column_seeds.as_str());
                    s.append("`=");
                    let sd = u64_to_dec(seeds);
                    s.append(sd.as_str());
                    s.append(", `");
                    s.append(ts.column_peers.as_str());
                    s.append("`=");
                    let pd = u64_to_dec(peers);
                    s.append(pd.as_str());
                    s.append(" WHERE `");
                    s.append(ts.column_infohash.as_str());
                    s.append("`=");
                    id_literal_exec(&mut s, info_hash, ts.bin_type_infohash);
                    proof {
                        assert(s@ =~= update_torrent_counts_sql(
                            *ts,
                            hex,
                            seeds as nat,
                            peers as nat,
                        ));
                    }
                }
                r.push(s);
            }
            if st.update_completed {
                let mut s = String::new();
                if st.insert_vacant {
                    s.append("INSERT INTO `");
                    s.append(ts.table_name.as_str());
                    s.append("` (`");
                    s.append(ts.column_infohash.as_str());
                    s.append("`, `");
                    s.append(ts.column_completed.as_str());
                    s.append("`) VALUES (");
                    id_literal_exec(&mut s, info_hash, ts.bin_type_infohash);
                    s.append(", ");
                    let cd = u64_to_dec(completed);
                    s.append(cd.as_str());
                    s.append(") ON CONFLICT (`");
                    s.append(ts.column_infohash.as_str());
                    s.append("`) DO UPDATE SET `");
                    s.append(ts.column_completed.as_str());
                    s.append("`=excluded.`");
                    s.append(ts.column_completed.as_str());
                    s.append("`");
                    proof {
                        assert(s@ =~= upsert_torrent_completed_sql(*ts, hex, completed as nat));
                    }
                } else {
                    s.append("UPDATE OR IGNORE `");
                    s.append(ts.table_name.as_str());
                    s.append("` SET `");
                    s.append(ts.column_completed.as_str());
                    s.append("`=");
                    let cd = u64_to_dec(completed);
                    s.append(cd.as_str());
                    s.append(" WHERE `");
                    s.append(ts.column_infohash.as_str());
                    s.append("`=");
                    id_literal_exec(&mut s, info_hash, ts.bin_type_infohash);
                    proof {
                        assert(s@ =~= update_torrent_completed_sql(*ts, hex, completed as nat));
                    }
                }
                r.push(s);
            }
            proof {
                assert(r.deep_view() =~= torrent_stmts(
                    *st,
                    *ts,
                    hex,
                    seeds as nat,
                    peers as nat,
                    completed as nat,
                    action,
                ));
            }
        },
    }
    r
}

/// The paged boot-time query of the torrents table: a hex projection of a
/// binary hash column, or the text column as it is.
pub open spec fn load_torrents_sql(ts: DbTorrentsStructure, start: nat, length: nat) -> Seq<char> {
    if ts.bin_type_infohash {
        "SELECT hex(`"@ + ts.column_infohash@ + "`) AS `"@ + ts.column_infohash@ + "`, `"@
            + ts.column_completed@ + "` FROM `"@ + ts.table_name@ + "` LIMIT "@ + dec_of(start)
            + ", "@ + dec_of(length)
    } else {
        "SELECT `"@ + ts.column_infohash@ + "`, `"@ + ts.column_completed@ + "` FROM `"@
            + ts.table_name@ + "` LIMIT "@ + dec_of(start) + ", "@ + dec_of(length)
    }
}

pub fn load_torrents_query(ts: &DbTorrentsStructure, start: u64, length: u64) -> (r: String)
    ensures
        r@ == load_torrents_sql(*ts, start as nat, length as nat),
{
    let mut s = String::new();
    if ts.bin_type_infohash {
        s.append("SELECT hex(`");
        s.append(ts.column_infohash.as_str());
        s.append("`) AS `");
        s.append(ts.column_infohash.as_str());
        s.append("`, `");
    } else {
        s.append("SELECT `");
        s.append(ts.column_infohash.as_str());
        s.append("`, `");
    }
    s.append(ts.column_completed.as_str());
    s.append("` FROM `");
    s.append(ts.table_name.as_str());
    s.append("` LIMIT ");
    let sd = u64_to_dec(start);
    s.append(sd.as_str());
    s.append(", ");
    let ld = u64_to_dec(length);
    s.append(ld.as_str());
    proof {
        assert(s@ =~= load_torrents_sql(*ts, start as nat, length as nat));
    }
    s
}

/// The one statement of the boot-time reset: both counter columns of
/// every torrent to zero.
pub open spec fn reset_seeds_peers_sql(ts: DbTorrentsStructure) -> Seq<char> {
    "UPDATE `"@ + ts.table_name@ + "` SET `"@ + ts.column_seeds@ + "`=0, `"@ + ts.column_peers@
        + "`=0"@
}

pub fn reset_seeds_peers_query(ts: &DbTorrentsStructure) -> (r: String)
    ensures
        r@ == reset_seeds_peers_sql(*ts),
{
    let mut s = String::new();
    s.append("UPDATE `");
    s.append(ts.table_name.as_str());
    s.append("` SET `");
    s.append(ts.column_seeds.as_str());
    s.append("`=0, `");
    s.append(ts.column_peers.as_str());
    s.append("`=0");
    proof {
        assert(s@ =~= reset_seeds_peers_sql(*ts));
    }
    s
}

/// The delete statement of a list table; the whitelist spells the binary
/// literal with `UNHEX`, the blacklist with `X'…'`.
pub open spec fn delete_list_sql(ls: DbListStructure, hex: Seq<char>, unhex: bool) -> Seq<char> {
    "DELETE FROM `"@ + ls.table_name@ + "` WHERE `"@ + ls.column_infohash@ + "`="@ + (if ls.bin_type_infohash {
        if unhex {
            "UNHEX('"@ + hex + "')"@
        } else {
            "X'"@ + hex + "'"@
        }
    } else {
        "'"@ + hex + "'"@
    })
}

pub open spec fn insert_list_sql(ls: DbListStructure, hex: Seq<char>) -> Seq<char> {
    "INSERT OR IGNORE INTO `"@ + ls.table_name@ + "` (`"@ + ls.column_infohash@ + "`) VALUES ("@
        + id_literal(hex, ls.bin_type_infohash) + ")"@
}

/// The statements one journalled list entry turns into.
pub open spec fn list_stmts(
    st: DbSettings,
    ls: DbListStructure,
    hex: Seq<char>,
    action: UpdatesAction,
    unhex: bool,
) -> Seq<Seq<char>> {
    if action == UpdatesAction::Remove {
        if st.remove_action {
            seq![delete_list_sql(ls, hex, unhex)]
        } else {
            Seq::<Seq<char>>::empty()
        }
    } else {
        seq![insert_list_sql(ls, hex)]
    }
}

/// The statements that persist one journalled whitelist or blacklist
/// entry; `unhex` picks the whitelist's spelling of the binary delete.
pub fn save_list_stmts(
    st: &DbSettings,
    ls: &DbListStructure,
    info_hash: &InfoHash,
    action: UpdatesAction,
    unhex: bool,
) -> (r: Vec<String>)
    ensures
        r.deep_view() == list_stmts(*st, *ls, hex_of(info_hash@), action, unhex),
{
    let ghost hex = hex_of(info_hash@);
    let mut r: Vec<String> = Vec::new();
    match action {
        UpdatesAction::Remove => {
            if st.remove_action {
                let mut s = String::new();
                s.append("DELETE FROM `");
                s.append(ls.table_name.as_str());
                s.append("` WHERE `");
                s.append(ls.column_infohash.as_str());
                s.append("`=");
                let hx = bin2hex(&info_hash.bytes);
                if ls.bin_type_infohash {
                    if unhex {
                        s.append("UNHEX('");
                        s.append(hx.as_str());
                        s.append("')");
                    } else {
                        s.append("X'");
                        s.append(hx.as_str());
                        s.append("'");
                    }
                } else {
                    s.append("'");
                    s.append(hx.as_str());
                    s.append("'");
                }
                proof {
                    assert(s@ =~= delete_list_sql(*ls, hex, unhex));
                }
                r.push(s);
                proof {
                    assert(r.deep_view() =~= seq![delete_list_sql(*ls, hex, unhex)]);
                }
            } else {
                proof {
                    assert(r.deep_view() =~= Seq::<Seq<char>>::empty());
                }
            }
        },
        _ => {
            let mut s = String::new();
            s.append("INSERT OR IGNORE INTO `");
            s.append(ls.table_name.as_str());
            s.append("` (`");
            s.append(ls.column_infohash.as_str());
            s.append("`) VALUES (");
            id_literal_exec(&mut s, info_hash, ls.bin_type_infohash);
            s.append(")");
            proof {
                assert(s@ =~= insert_list_sql(*ls, hex));
            }
            r.push(s);
            proof {
                assert(r.deep_view() =~= seq![insert_list_sql(*ls, hex)]);
            }
        },
    }
    r
}

/// The paged boot-time query of a list table.
pub open spec fn load_list_sql(ls: DbListStructure, start: nat, length: nat) -> Seq<char> {
    if ls.bin_type_infohash {
        "SELECT HEX(`"@ + ls.column_infohash@ + "`) AS `"@ + ls.column_infohash@ + "` FROM `"@
            + ls.table_name@ + "` LIMIT "@ + dec_of(start) + ", "@ + dec_of(length)
    } else {
        "SELECT `"@ + ls.column_infohash@ + "` FROM `"@ + ls.table_name@ + "` LIMIT "@ + dec_of(
            start,
        ) + ", "@ + dec_of(length)
    }
}

pub fn load_list_query(ls: &DbListStructure, start: u64, length: u64) -> (r: String)
    ensures
        r@ == load_list_sql(*ls, start as nat, length as nat),
{
    let mut s = String::new();
    if ls.bin_type_infohash {
        s.append("SELECT HEX(`");
        s.append(ls.column_infohash.as_str());
        s.append("`) AS `");
        s.append(ls.column_infohash.as_str());
        s.append("` FROM `");
    } else {
        s.append("SELECT `");
        s.append(ls.column_infohash.as_str());
        s.append("` FROM `");
    }
    s.append(ls.table_name.as_str());
    s.append("` LIMIT ");
    let sd = u64_to_dec(start);
    s.append(sd.as_str());
    s.append(", ");
    let ld = u64_to_dec(length);
    s.append(ld.as_str());
    proof {
        assert(s@ =~= load_list_sql(*ls, start as nat, length as nat));
    }
    s
}

pub open spec fn delete_key_sql(ks: DbKeysStructure, hex: Seq<char>) -> Seq<char> {
    "DELETE FROM `"@ + ks.table_name@ + "` WHERE `"@ + ks.column_hash@ + "`="@ + id_literal(
        hex,
        ks.bin_type_hash,
    )
}

pub open spec fn upsert_key_sql(ks: DbKeysStructure, hex: Seq<char>, timeout: int) -> Seq<char> {
    "INSERT INTO `"@ + ks.table_name@ + "` (`"@ + ks.column_hash@ + "`, `"@ + ks.column_timeout@
        + "`) VALUES ("@ + id_literal(hex, ks.bin_type_hash) + ", "@ + dec_of_int(timeout)
        + ") ON CONFLICT (`"@ + ks.column_hash@ + "`) DO UPDATE SET `"@ + ks.column_timeout@
        + "`=excluded.`"@ + ks.column_timeout@ + "`"@
}

/// The statements one journalled key turns into.
pub open spec fn key_stmts(
    st: DbSettings,
    ks: DbKeysStructure,
    hex: Seq<char>,
    timeout: int,
    action: UpdatesAction,
) -> Seq<Seq<char>> {
    if action == UpdatesAction::Remove {
        if st.remove_action {
            seq![delete_key_sql(ks, hex)]
        } else {
            Seq::<Seq<char>>::empty()
        }
    } else {
        seq![upsert_key_sql(ks, hex, timeout)]
    }
}

/// The statements that persist one journalled key.
pub fn save_key_stmts(
    st: &DbSettings,
    ks: &DbKeysStructure,
    hash: &InfoHash,
    timeout: i64,
    action: UpdatesAction,
) -> (r: Vec<String>)
    ensures
        r.deep_view() == key_stmts(*st, *ks, hex_of(hash@), timeout as int, action),
{
    let ghost hex = hex_of(hash@);
    let mut r: Vec<String> = Vec::new();
    match action {
        UpdatesAction::Remove => {
            if st.remove_action {
                let mut s = String::new();
                s.append("DELETE FROM `");
                s.append(ks.table_name.as_str());
                s.append("` WHERE `");
                s.append(ks.column_hash.as_str());
                s.append("`=");
                id_literal_exec(&mut s, hash, ks.bin_type_hash);
                proof {
                    assert(s@ =~= delete_key_sql(*ks, hex));
                }
                r.push(s);
                proof {
                    assert(r.deep_view() =~= seq![delete_key_sql(*ks, hex)]);
                }
            } else {
                proof {
                    assert(r.deep_view() =~= Seq::<Seq<char>>::empty());
                }
            }
        },
        _ => {
            let mut s = String::new();
            s.append("INSERT INTO `");
            s.append(ks.table_name.as_str());
            s.append("` (`");
            s.append(ks.column_hash.as_str());
            s.append("`, `");
            s.append(ks.column_timeout.as_str());
            s.append("`) VALUES (");
            id_literal_exec(&mut s, hash, ks.bin_type_hash);
            s.append(", ");
            let td = i64_to_dec(timeout);
            s.append(td.as_str());
            s.append(") ON CONFLICT (`");
            s.append(ks.column_hash.as_str());
            s.append("`) DO UPDATE SET `");
            s.append(ks.column_timeout.as_str());
            s.append("`=excluded.`");
            s.append(ks.column_timeout.as_str());
            s.append("`");
            proof {
                assert(s@ =~= upsert_key_sql(*ks, hex, timeout as int));
            }
            r.push(s);
            proof {
                assert(r.deep_view() =~= seq![upsert_key_sql(*ks, hex, timeout as int)]);
            }
        },
    }
    r
}

/// The paged boot-time query of the keys table.
pub open spec fn load_keys_sql(ks: DbKeysStructure, start: nat, length: nat) -> Seq<char> {
    if ks.bin_type_hash {
        "SELECT HEX(`"@ + ks.column_hash@ + "`) AS `"@ + ks.column_hash@ + "`, `"@
            + ks.column_timeout@ + "` FROM `"@ + ks.table_name@ + "` LIMIT "@ + dec_of(start)
            + ", "@ + dec_of(length)
    } else {
        "SELECT `"@ + ks.column_hash@ + "`, `"@ + ks.column_timeout@ + "` FROM `"@ + ks.table_name@
            + "` LIMIT "@ + dec_of(start) + ", "@ + dec_of(length)
    }
}

pub fn load_keys_query(ks: &DbKeysStructure, start: u64, length: u64) -> (r: String)
    ensures
        r@ == load_keys_sql(*ks, start as nat, length as nat),
{
    let mut s = String::new();
    if ks.bin_type_hash {
        s.append("SELECT HEX(`");
        s.append(ks.column_hash.as_str());
        s.append("`) AS `");
        s.append(ks.column_hash.as_str());
        s.append("`, `");
    } else {
        s.append("SELECT `");
        s.append(ks.column_hash.as_str());
        s.append("`, `");
    }
    s.append(ks.column_timeout.as_str());
    s.append("` FROM `");
    s.append(ks.table_name.as_str());
    s.append("` LIMIT ");
    let sd = u64_to_dec(start);
    s.append(sd.as_str());
    s.append(", ");
    let ld = u64_to_dec(length);
    s.append(ld.as_str());
    proof {
        assert(s@ =~= load_keys_sql(*ks, start as nat, length as nat));
    }
    s
}

/// The column a user row is keyed by, as configured.
pub open spec fn user_id_column(us: DbUsersStructure) -> Seq<char> {
    if us.id_uuid {
        us.column_uuid@
    } else {
        us.column_id@
    }
}

/// The key value of a user row: the quoted UUID, or the quoted decimal
/// numeric id.
pub open spec fn user_id_value(us: DbUsersStructure, user: crate::users::UserEntryItem) -> Seq<
    char,
> {
    if us.id_uuid {
        "'"@ + user.user_uuid->Some_0@ + "'"@
    } else {
        "'"@ + dec_of(user.user_id->Some_0 as nat) + "'"@
    }
}

pub open spec fn user_key_value(us: DbUsersStructure, user: crate::users::UserEntryItem) -> Seq<
    char,
> {
    id_literal(hex_of(user.key@), us.bin_type_key)
}

pub open spec fn delete_user_sql(us: DbUsersStructure, user: crate::users::UserEntryItem) -> Seq<
    char,
> {
    "DELETE FROM `"@ + us.table_name@ + "` WHERE `"@ + user_id_column(us) + "`="@ + user_id_value(
        us,
        user,
    )
}

pub open spec fn upsert_user_sql(us: DbUsersStructure, user: crate::users::UserEntryItem) -> Seq<
    char,
> {
    "INSERT INTO `"@ + us.table_name@ + "` (`"@ + user_id_column(us) + "`, `"@
        + us.column_completed@ + "`, `"@ + us.column_active@ + "`, `"@ + us.column_downloaded@
        + "`, `"@ + us.column_key@ + "`, `"@ + us.column_uploaded@ + "`, `"@ + us.column_updated@
        + "`) VALUES ("@ + user_id_value(us, user) + ", "@ + dec_of(user.completed as nat) + ", "@
        + dec_of(user.active as nat) + ", "@ + dec_of(user.downloaded as nat) + ", "@
        + user_key_value(us, user) + ", "@ + dec_of(user.uploaded as nat) + ", "@ + dec_of(
        user.updated as nat,
    ) + ") ON CONFLICT (`"@ + user_id_column(us) + "`) DO UPDATE SET `"@ + us.column_completed@
        + "`=excluded.`"@ + us.column_completed@ + "`, `"@ + us.column_active@ + "`=excluded.`"@
        + us.column_active@ + "`, `"@ + us.column_downloaded@ + "`=excluded.`"@
        + us.column_downloaded@ + "`, `"@ + us.column_key@ + "`=excluded.`"@ + us.column_key@
        + "`, `"@ + us.column_uploaded@ + "`=excluded.`"@ + us.column_uploaded@ + "`, `"@
        + us.column_updated@ + "`=excluded.`"@ + us.column_updated@ + "`"@
}

pub open spec fn update_user_sql(us: DbUsersStructure, user: crate::users::UserEntryItem) -> Seq<
    char,
> {
    "UPDATE OR IGNORE `"@ + us.table_name@ + "` SET `"@ + us.column_completed@ + "`="@ + dec_of(
        user.completed as nat,
    ) + ", `"@ + us.column_active@ + "`="@ + dec_of(user.active as nat) + ", `"@
        + us.column_downloaded@ + "`="@ + dec_of(user.downloaded as nat) + ", `"@ + us.column_key@
        + "`="@ + user_key_value(us, user) + ", `"@ + us.column_uploaded@ + "`="@ + dec_of(
        user.uploaded as nat,
    ) + ", `"@ + us.column_updated@ + "`="@ + dec_of(user.updated as nat) + " WHERE `"@
        + user_id_column(us) + "`="@ + user_id_value(us, user)
}

/// The statements one journalled user turns into.
pub open spec fn user_stmts(
    st: DbSettings,
    us: DbUsersStructure,
    user: crate::users::UserEntryItem,
    action: UpdatesAction,
) -> Seq<Seq<char>> {
    if action == UpdatesAction::Remove {
        if st.remove_action {
            seq![delete_user_sql(us, user)]
        } else {
            Seq::<Seq<char>>::empty()
        }
    } else if st.insert_vacant {
        seq![upsert_user_sql(us, user)]
    } else {
        seq![update_user_sql(us, user)]
    }
}

fn user_id_value_exec(out: &mut String, us: &DbUsersStructure, user: &crate::users::UserEntryItem)
    requires
        us.id_uuid ==> user.user_uuid is Some,
        !us.id_uuid ==> user.user_id is Some,
    ensures
        final(out)@ == old(out)@ + user_id_value(*us, *user),
{
    out.append("'");
    if us.id_uuid {
        match &user.user_uuid {
            Some(uuid) => {
                out.append(uuid.as_str());
            },
            None => {},
        }
    } else {
        match &user.user_id {
            Some(id) => {
                let d = u64_to_dec(*id);
                out.append(d.as_str());
            },
            None => {},
        }
    }
    out.append("'");
    proof {
        assert(final(out)@ =~= old(out)@ + user_id_value(*us, *user));
    }
}

fn user_key_value_exec(out: &mut String, us: &DbUsersStructure, user: &crate::users::UserEntryItem)
    ensures
        final(out)@ == old(out)@ + user_key_value(*us, *user),
{
    if us.bin_type_key {
        out.append("X'");
    } else {
        out.append("'");
    }
    let hex = bin2hex(&user.key.bytes);
    out.append(hex.as_str());
    out.append("'");
    proof {
        assert(final(out)@ =~= old(out)@ + user_key_value(*us, *user));
    }
}

/// The statements that persist one journalled user. The record must carry
/// the identifier of the configured mode: the UUID where rows are keyed
/// by UUID, the numeric id otherwise.
pub fn save_user_stmts(
    st: &DbSettings,
    us: &DbUsersStructure,
    user: &crate::users::UserEntryItem,
    action: UpdatesAction,
) -> (r: Vec<String>)
    requires
        us.id_uuid ==> user.user_uuid is Some,
        !us.id_uuid ==> user.user_id is Some,
    ensures
        r.deep_view() == user_stmts(*st, *us, *user, action),
{
    let mut r: Vec<String> = Vec::new();
    match action {
        UpdatesAction::Remove => {
            if st.remove_action {
                let mut s = String::new();
                s.append("DELETE FROM `");
                s.append(us.table_name.as_str());
                s.append("` WHERE `");
                if us.id_uuid {
                    s.append(us.column_uuid.as_str());
                } else {
                    s.append(us.column_id.as_str());
                }
                s.append("`=");
                user_id_value_exec(&mut s, us, user);
                proof {
                    assert(s@ =~= delete_user_sql(*us, *user));
                }
                r.push(s);
                proof {
                    assert(r.deep_view() =~= seq![delete_user_sql(*us, *user)]);
                }
            } else {
                proof {
                    assert(r.deep_view() =~= Seq::<Seq<char>>::empty());
                }
            }
        },
        _ => {
            let mut s = String::new();
            if st.insert_vacant {
                s.append("INSERT INTO `");
                s.append(us.table_name.as_str());
                s.append("` (`");
                if us.id_uuid {
                    s.append(us.column_uuid.as_str());
                } else {
                    s.append(us.column_id.as_str());
                }
                s.append("`, `");
                s.append(us.column_completed.as_str());
                s.append("`, `");
                s.append(us.column_active.as_str());
                s.append("`, `");
                s.append(us.column_downloaded.as_str());
                s.append("`, `");
                s.append(us.column_key.as_str());
                s.append("`, `");
                s.append(us.column_uploaded.as_str());
                s.append("`, `");
                s.append(us.column_updated.as_str());
                s.append("`) VALUES (");
                user_id_value_exec(&mut s, us, user);
                s.append(", ");
                let cd = u64_to_dec(user.completed);
                s.append(cd.as_str());
                s.append(", ");
                let ad = u64_to_dec(user.active as u64);
                s.append(ad.as_str());
                s.append(", ");
                let dd = u64_to_dec(user.downloaded);
                s.append(dd.as_str());
                s.append(", ");
                user_key_value_exec(&mut s, us, user);
                s.append(", ");
                let ud = u64_to_dec(user.uploaded);
                s.append(ud.as_str());
                s.append(", ");
                let td = u64_to_dec(user.updated);
                s.append(td.as_str());
                s.append(") ON CONFLICT (`");
                if us.id_uuid {
                    s.append(us.column_uuid.as_str());
                } else {
                    s.append(us.column_id.as_str());
                }
                s.append("`) DO UPDATE SET `");
                s.append(us.column_completed.as_str());
                s.append("`=excluded.`");
                s.append(us.column_completed.as_str());
                s.append("`, `");
                s.append(us.column_active.as_str());
                s.append("`=excluded.`");
                s.append(us.column_active.as_str());
                s.append("`, `");
                s.append(us.column_downloaded.as_str());
                s.append("`=excluded.`");
                s.append(us.column_downloaded.as_str());
                s.append("`, `");
                s.append(us.column_key.as_str());
                s.append("`=excluded.`");
                s.append(us.column_key.as_str());
                s.append("`, `");
                s.append(us.column_uploaded.as_str());
                s.append("`=excluded.`");
                s.append(us.column_uploaded.as_str());
                s.append("`, `");
                s.append(us.column_updated.as_str());
                s.append("`=excluded.`");
                s.append(us.column_updated.as_str());
                s.append("`");
                proof {
                    assert(s@ =~= upsert_user_sql(*us, *user));
                }
            } else {
                s.append("UPDATE OR IGNORE `");
                s.append(us.table_name.as_str());
                s.append("` SET `");
                s.append(us.column_completed.as_str());
                s.append("`=");
                let cd = u64_to_dec(user.completed);
                s.append(cd.as_str());
                s.append(", `");
                s.append(us.column_active.as_str());
                s.append("`=");
                let ad = u64_to_dec(user.active as u64);
                s.append(ad.as_str());
                s.append(", `");
                s.append(us.column_downloaded.as_str());
                s.append("`=");
                let dd = u64_to_dec(user.downloaded);
                s.append(dd.as_str());
                s.append(", `");
                s.append(us.column_key.as_str());
                s.append("`=");
                user_key_value_exec(&mut s, us, user);
                s.append(", `");
                s.append(us.column_uploaded.as_str());
                s.append("`=");
                let ud = u64_to_dec(user.uploaded);
                s.append(ud.as_str());
                s.append(", `");
                s.append(us.column_updated.as_str());
                s.append("`=");
                let td = u64_to_dec(user.updated);
                s.append(td.as_str());
                s.append(" WHERE `");
                if us.id_uuid {
                    s.append(us.column_uuid.as_str());
                } else {
                    s.append(us.column_id.as_str());
                }
                s.append("`=");
                user_id_value_exec(&mut s, us, user);
                proof {
                    assert(s@ =~= update_user_sql(*us, *user));
                }
            }
            r.push(s);
            proof {
                assert(r.deep_view() =~= user_stmts(*st, *us, *user, action));
            }
        },
    }
    r
}

/// The paged boot-time query of the users table.
pub open spec fn load_users_sql(us: DbUsersStructure, start: nat, length: nat) -> Seq<char> {
    "SELECT `"@ + user_id_column(us) + "`, "@ + (if us.bin_type_key {
        "HEX(`"@ + us.column_key@ + "`) AS `"@ + us.column_key@ + "`"@
    } else {
        "`"@ + us.column_key@ + "`"@
    }) + ", `"@ + us.column_uploaded@ + "`, `"@ + us.column_downloaded@ + "`, `"@
        + us.column_completed@ + "`, `"@ + us.column_updated@ + "`, `"@ + us.column_active@
        + "` FROM `"@ + us.table_name@ + "` LIMIT "@ + dec_of(start) + ", "@ + dec_of(length)
}

pub fn load_users_query(us: &DbUsersStructure, start: u64, length: u64) -> (r: String)
    ensures
        r@ == load_users_sql(*us, start as nat, length as nat),
{
    let mut s = String::new();
    s.append("SELECT `");
    if us.id_uuid {
        s.append(us.column_uuid.as_str());
    } else {
        s.append(us.column_id.as_str());
    }
    s.append("`, ");
    if us.bin_type_key {
        s.append("HEX(`");
        s.append(us.column_key.as_str());
        s.append("`) AS `");
        s.append(us.column_key.as_str());
        s.append("`");
    } else {
        s.append("`");
        s.append(us.column_key.as_str());
        s.append("`");
    }
    s.append(", `");
    s.append(us.column_uploaded.as_str());
    s.append("`, `");
    s.append(us.column_downloaded.as_str());
    s.append("`, `");
    s.append(us.column_completed.as_str());
    s.append("`, `");
    s.append(us.column_updated.as_str());
    s.append("`, `");
    s.append(us.column_active.as_str());
    s.append("` FROM `");
    s.append(us.table_name.as_str());
    s.append("` LIMIT ");
    let sd = u64_to_dec(start);
    s.append(sd.as_str());
    s.append(", ");
    let ld = u64_to_dec(length);
    s.append(ld.as_str());
    proof {
        assert(s@ =~= load_users_sql(*us, start as nat, length as nat));
    }
    s
}

pub open spec fn create_torrents_sql(ts: DbTorrentsStructure) -> Seq<char> {
    "CREATE TABLE IF NOT EXISTS `"@ + ts.table_name@ + "` (`"@ + ts.column_infohash@ + (if ts.bin_type_infohash {
        "` BLOB PRIMARY KEY NOT NULL, `"@
    } else {
        "` TEXT PRIMARY KEY NOT NULL, `"@
    }) + ts.column_seeds@ + "` INTEGER DEFAULT 0, `"@ + ts.column_peers@ + "` INTEGER DEFAULT 0, `"@
        + ts.column_completed@ + "` INTEGER DEFAULT 0)"@
}

pub open spec fn create_list_sql(ls: DbListStructure) -> Seq<char> {
    "CREATE TABLE IF NOT EXISTS `"@ + ls.table_name@ + "` (`"@ + ls.column_infohash@ + (if ls.bin_type_infohash {
        "` BLOB PRIMARY KEY NOT NULL)"@
    } else {
        "` TEXT PRIMARY KEY NOT NULL)"@
    })
}

pub open spec fn create_keys_sql(ks: DbKeysStructure) -> Seq<char> {
    "CREATE TABLE IF NOT EXISTS `"@ + ks.table_name@ + "` (`"@ + ks.column_hash@ + (if ks.bin_type_hash {
        "` BLOB PRIMARY KEY NOT NULL, `"@
    } else {
        "` TEXT PRIMARY KEY NOT NULL, `"@
    }) + ks.column_timeout@ + "` INTEGER DEFAULT 0)"@
}

pub open spec fn create_users_sql(us: DbUsersStructure) -> Seq<char> {
    "CREATE TABLE IF NOT EXISTS `"@ + us.table_name@ + "` (`"@ + (if us.id_uuid {
        us.column_uuid@ + "` TEXT PRIMARY KEY NOT NULL, `"@
    } else {
        us.column_id@ + "` INTEGER PRIMARY KEY AUTOINCREMENT, `"@
    }) + us.column_key@ + (if us.bin_type_key {
        "` BLOB NOT NULL, `"@
    } else {
        "` TEXT NOT NULL, `"@
    }) + us.column_uploaded@ + "` INTEGER NOT NULL DEFAULT 0, `"@ + us.column_downloaded@
        + "` INTEGER NOT NULL DEFAULT 0, `"@ + us.column_completed@
        + "` INTEGER NOT NULL DEFAULT 0, `"@ + us.column_active@
        + "` INTEGER NOT NULL DEFAULT 0, `"@ + us.column_updated@ + "` INTEGER NOT NULL DEFAULT 0)"@
}

fn create_torrents_query(ts: &DbTorrentsStructure) -> (r: String)
    ensures
        r@ == create_torrents_sql(*ts),
{
    let mut s = String::new();
    s.append("CREATE TABLE IF NOT EXISTS `");
    s.append(ts.table_name.as_str());
    s.append("` (`");
    s.append(ts.column_infohash.as_str());
    if ts.bin_type_infohash {
        s.append("` BLOB PRIMARY KEY NOT NULL, `");
    } else {
        s.append("` TEXT PRIMARY KEY NOT NULL, `");
    }
    s.append(ts.column_seeds.as_str());
    s.append("` INTEGER DEFAULT 0, `");
    s.append(ts.column_peers.as_str());
    s.append("` INTEGER DEFAULT 0, `");
    s.append(ts.column_completed.as_str());
    s.append("` INTEGER DEFAULT 0)");
    proof {
        assert(s@ =~= create_torrents_sql(*ts));
    }
    s
}

fn create_list_query(ls: &DbListStructure) -> (r: String)
    ensures
        r@ == create_list_sql(*ls),
{
    let mut s = String::new();
    s.append("CREATE TABLE IF NOT EXISTS `");
    s.append(ls.table_name.as_str());
    s.append("` (`");
    s.append(ls.column_infohash.as_str());
    if ls.bin_type_infohash {
        s.append("` BLOB PRIMARY KEY NOT NULL)");
    } else {
        s.append("` TEXT PRIMARY KEY NOT NULL)");
    }
    proof {
        assert(s@ =~= create_list_sql(*ls));
    }
    s
}

fn create_keys_query(ks: &DbKeysStructure) -> (r: String)
    ensures
        r@ == create_keys_sql(*ks),
{
    let mut s = String::new();
    s.append("CREATE TABLE IF NOT EXISTS `");
    s.append(ks.table_name.as_str());
    s.append("` (`");
    s.append(ks.column_hash.as_str());
    if ks.bin_type_hash {
        s.append("` BLOB PRIMARY KEY NOT NULL, `");
    } else {
        s.append("` TEXT PRIMARY KEY NOT NULL, `");
    }
    s.append(ks.column_timeout.as_str());
    s.append("` INTEGER DEFAULT 0)");
    proof {
        assert(s@ =~= create_keys_sql(*ks));
    }
    s
}

fn create_users_query(us: &DbUsersStructure) -> (r: String)
    ensures
        r@ == create_users_sql(*us),
{
    let mut s = String::new();
    s.append("CREATE TABLE IF NOT EXISTS `");
    s.append(us.table_name.as_str());
    s.append("` (`");
    if us.id_uuid {
        s.append(us.column_uuid.as_str());
        s.append("` TEXT PRIMARY KEY NOT NULL, `");
    } else {
        s.append(us.column_id.as_str());
        s.append("` INTEGER PRIMARY KEY AUTOINCREMENT, `");
    }
    s.append(us.column_key.as_str());
    if us.bin_type_key {
        s.append("` BLOB NOT NULL, `");
    } else {
        s.append("` TEXT NOT NULL, `");
    }
    s.append(us.column_uploaded.as_str());
    s.append("` INTEGER NOT NULL DEFAULT 0, `");
    s.append(us.column_downloaded.as_str());
    s.append("` INTEGER NOT NULL DEFAULT 0, `");
    s.append(us.column_completed.as_str());
    s.append("` INTEGER NOT NULL DEFAULT 0, `");
    s.append(us.column_active.as_str());
    s.append("` INTEGER NOT NULL DEFAULT 0, `");
    s.append(us.column_updated.as_str());
    s.append("` INTEGER NOT NULL DEFAULT 0)");
    proof {
        assert(s@ =~= create_users_sql(*us));
    }
    s
}

/// The statements of a database-creation run: the connection pragmas,
/// then one `CREATE TABLE` per store.
pub fn create_tables_plan(
    ts: &DbTorrentsStructure,
    wls: &DbListStructure,
    bls: &DbListStructure,
    ks: &DbKeysStructure,
    us: &DbUsersStructure,
) -> (r: Vec<String>)
    ensures
        r.deep_view() == seq![
            "PRAGMA temp_store = memory;"@,
            "PRAGMA mmap_size = 30000000000;"@,
            "PRAGMA page_size = 32768;"@,
            "PRAGMA synchronous = full;"@,
            create_torrents_sql(*ts),
            create_list_sql(*wls),
            create_list_sql(*bls),
            create_keys_sql(*ks),
            create_users_sql(*us),
        ],
{
    let mut r: Vec<String> = Vec::new();
    r.push(String::from_str("PRAGMA temp_store = memory;"));
    r.push(String::from_str("PRAGMA mmap_size = 30000000000;"));
    r.push(String::from_str("PRAGMA page_size = 32768;"));
    r.push(String::from_str("PRAGMA synchronous = full;"));
    r.push(create_torrents_query(ts));
    r.push(create_list_query(wls));
    r.push(create_list_query(bls));
    r.push(create_keys_query(ks));
    r.push(create_users_query(us));
    proof {
        assert(r.deep_view() =~= seq![
            "PRAGMA temp_store = memory;"@,
            "PRAGMA mmap_size = 30000000000;"@,
            "PRAGMA page_size = 32768;"@,
            "PRAGMA synchronous = full;"@,
            create_torrents_sql(*ts),
            create_list_sql(*wls),
            create_list_sql(*bls),
            create_keys_sql(*ks),
            create_users_sql(*us),
        ]);
    }
    r
}

/// A row of the torrents table, as the save statements leave it.
pub struct TorrentRow {
    pub seeds: int,
    pub peers: int,
    pub completed: int,
}

/// One journalled torrent change: the key and the values its statements
/// write.
pub struct TorrentChange {
    pub key: Seq<u8>,
    pub seeds: int,
    pub peers: int,
    pub completed: int,
    pub action: UpdatesAction,
}

/// What the statements of one journalled torrent do to the table, under
/// the back-end's semantics: a delete removes the row; an upsert writes
/// its columns into the existing or a fresh row; an update-only statement
/// writes them only where the row exists.
pub open spec fn apply_torrent_change(
    t: Map<Seq<u8>, TorrentRow>,
    c: TorrentChange,
    st: DbSettings,
) -> Map<Seq<u8>, TorrentRow> {
    if c.action == UpdatesAction::Remove {
        if st.remove_action {
            t.remove(c.key)
        } else {
            t
        }
    } else {
        let t1 = if st.update_peers {
            if st.insert_vacant {
                let row0 = if t.contains_key(c.key) {
                    t[c.key]
                } else {
                    (TorrentRow { seeds: 0, peers: 0, completed: 0 })
                };
                t.insert(c.key, (TorrentRow { seeds: c.seeds, peers: c.peers, completed: row0.completed }))
            } else if t.contains_key(c.key) {
                t.insert(c.key, (TorrentRow { seeds: c.seeds, peers: c.peers, completed: t[c.key].completed }))
            } else {
                t
            }
        } else {
            t
        };
        if st.update_completed {
            if st.insert_vacant {
                let row1 = if t1.contains_key(c.key) {
                    t1[c.key]
                } else {
                    (TorrentRow { seeds: 0, peers: 0, completed: 0 })
                };
                t1.insert(c.key, (TorrentRow { seeds: row1.seeds, peers: row1.peers, completed: c.completed }))
            } else if t1.contains_key(c.key) {
                t1.insert(c.key, (TorrentRow { seeds: t1[c.key].seeds, peers: t1[c.key].peers, completed: c.completed }))
            } else {
                t1
            }
        } else {
            t1
        }
    }
}

/// A whole drained journal applied in order.
pub open spec fn apply_torrent_plan(
    t: Map<Seq<u8>, TorrentRow>,
    plan: Seq<TorrentChange>,
    st: DbSettings,
) -> Map<Seq<u8>, TorrentRow>
    decreases plan.len(),
{
    if plan.len() == 0 {
        t
    } else {
        apply_torrent_plan(apply_torrent_change(t, plan[0], st), plan.drop_first(), st)
    }
}

/// A change touches no other key.
proof fn lemma_change_frame(t: Map<Seq<u8>, TorrentRow>, c: TorrentChange, st: DbSettings, k: Seq<u8>)
    requires
        k != c.key,
    ensures
        apply_torrent_change(t, c, st).contains_key(k) == t.contains_key(k),
        t.contains_key(k) ==> apply_torrent_change(t, c, st)[k] == t[k],
{
}

/// What a change leaves at its own key depends only on what stood there.
proof fn lemma_change_local(
    t1: Map<Seq<u8>, TorrentRow>,
    t2: Map<Seq<u8>, TorrentRow>,
    c: TorrentChange,
    st: DbSettings,
)
    requires
        t1.contains_key(c.key) == t2.contains_key(c.key),
        t1.contains_key(c.key) ==> t1[c.key] == t2[c.key],
    ensures
        apply_torrent_change(t1, c, st).contains_key(c.key) == apply_torrent_change(
            t2,
            c,
            st,
        ).contains_key(c.key),
        apply_torrent_change(t1, c, st).contains_key(c.key) ==> apply_torrent_change(t1, c, st)[c.key]
            == apply_torrent_change(t2, c, st)[c.key],
{
}

/// Applying the same change twice leaves what one application left.
proof fn lemma_change_idempotent(t: Map<Seq<u8>, TorrentRow>, c: TorrentChange, st: DbSettings)
    ensures
        apply_torrent_change(apply_torrent_change(t, c, st), c, st) == apply_torrent_change(
            t,
            c,
            st,
        ),
{
    assert(apply_torrent_change(apply_torrent_change(t, c, st), c, st) =~= apply_torrent_change(
        t,
        c,
        st,
    ));
}

/// Changes of distinct keys commute.
proof fn lemma_change_commute(
    t: Map<Seq<u8>, TorrentRow>,
    c1: TorrentChange,
    c2: TorrentChange,
    st: DbSettings,
)
    requires
        c1.key != c2.key,
    ensures
        apply_torrent_change(apply_torrent_change(t, c1, st), c2, st) == apply_torrent_change(
            apply_torrent_change(t, c2, st),
            c1,
            st,
        ),
{
    let a = apply_torrent_change(apply_torrent_change(t, c1, st), c2, st);
    let b = apply_torrent_change(apply_torrent_change(t, c2, st), c1, st);
    assert forall|k: Seq<u8>| a.contains_key(k) == b.contains_key(k) && (a.contains_key(k)
        ==> a[k] == b[k]) by {
        if k == c1.key {
            lemma_change_frame(apply_torrent_change(t, c1, st), c2, st, k);
            lemma_change_frame(t, c2, st, k);
            lemma_change_local(t, apply_torrent_change(t, c2, st), c1, st);
        } else if k == c2.key {
            lemma_change_frame(apply_torrent_change(t, c2, st), c1, st, k);
            lemma_change_frame(t, c1, st, k);
            lemma_change_local(t, apply_torrent_change(t, c1, st), c2, st);
        } else {
            lemma_change_frame(t, c1, st, k);
            lemma_change_frame(t, c2, st, k);
            lemma_change_frame(apply_torrent_change(t, c1, st), c2, st, k);
            lemma_change_frame(apply_torrent_change(t, c2, st), c1, st, k);
        }
    }
    assert(a =~= b);
}

/// A change whose key a plan does not touch moves past the plan.
proof fn lemma_change_past_plan(
    t: Map<Seq<u8>, TorrentRow>,
    c: TorrentChange,
    plan: Seq<TorrentChange>,
    st: DbSettings,
)
    requires
        forall|i: int| 0 <= i < plan.len() ==> (#[trigger] plan[i]).key != c.key,
    ensures
        apply_torrent_change(apply_torrent_plan(t, plan, st), c, st) == apply_torrent_plan(
            apply_torrent_change(t, c, st),
            plan,
            st,
        ),
    decreases plan.len(),
{
    if plan.len() > 0 {
        let h = plan[0];
        let rest = plan.drop_first();
        assert(forall|i: int| 0 <= i < rest.len() ==> (#[trigger] rest[i]).key != c.key) by {
            assert(forall|i: int| 0 <= i < rest.len() ==> rest[i] == plan[i + 1]);
        }
        lemma_change_past_plan(apply_torrent_change(t, h, st), c, rest, st);
        lemma_change_commute(t, h, c, st);
    }
}

/// Draining the same journal twice leaves the table exactly as one drain
/// does: the statements of a journal with distinct keys are idempotent
/// against the back-end.
pub proof fn lemma_torrent_plan_idempotent(
    t: Map<Seq<u8>, TorrentRow>,
    plan: Seq<TorrentChange>,
    st: DbSettings,
)
    requires
        forall|i: int, j: int|
            0 <= i < j < plan.len() ==> (#[trigger] plan[i]).key != (#[trigger] plan[j]).key,
    ensures
        apply_torrent_plan(apply_torrent_plan(t, plan, st), plan, st) == apply_torrent_plan(
            t,
            plan,
            st,
        ),
    decreases plan.len(),
{
    if plan.len() > 0 {
        let h = plan[0];
        let rest = plan.drop_first();
        assert(forall|i: int| 0 <= i < rest.len() ==> rest[i] == plan[i + 1]);
        assert(forall|i: int| 0 <= i < rest.len() ==> (#[trigger] rest[i]).key != h.key);
        assert(forall|i: int, j: int|
            0 <= i < j < rest.len() ==> (#[trigger] rest[i]).key != (#[trigger] rest[j]).key);
        let t1 = apply_torrent_change(t, h, st);
        let x = apply_torrent_plan(t1, rest, st);
        assert(apply_torrent_plan(t, plan, st) == x);
        lemma_change_past_plan(t1, h, rest, st);
        lemma_change_idempotent(t, h, st);
        assert(apply_torrent_change(x, h, st) == apply_torrent_plan(
            apply_torrent_change(t1, h, st),
            rest,
            st,
        ));
        assert(apply_torrent_change(t1, h, st) == t1);
        assert(apply_torrent_change(x, h, st) == x);
        lemma_torrent_plan_idempotent(t1, rest, st);
        assert(apply_torrent_plan(apply_torrent_plan(t, plan, st), plan, st)
            == apply_torrent_plan(apply_torrent_change(x, h, st), rest, st));
    }
}

/// One journalled whitelist or blacklist change.
pub struct ListChange {
    pub key: Seq<u8>,
    pub action: UpdatesAction,
}

/// What the statements of one journalled list entry do to the table: the
/// delete removes the row, the `INSERT OR IGNORE` makes it present.
pub open spec fn apply_list_change(t: Set<Seq<u8>>, c: ListChange, remove_action: bool) -> Set<
    Seq<u8>,
> {
    if c.action == UpdatesAction::Remove {
        if remove_action {
            t.remove(c.key)
        } else {
            t
        }
    } else {
        t.insert(c.key)
    }
}

pub open spec fn apply_list_plan(t: Set<Seq<u8>>, plan: Seq<ListChange>, remove_action: bool) -> Set<
    Seq<u8>,
>
    decreases plan.len(),
{
    if plan.len() == 0 {
        t
    } else {
        apply_list_plan(apply_list_change(t, plan[0], remove_action), plan.drop_first(), remove_action)
    }
}

proof fn lemma_list_change_commute(t: Set<Seq<u8>>, c1: ListChange, c2: ListChange, ra: bool)
    requires
        c1.key != c2.key,
    ensures
        apply_list_change(apply_list_change(t, c1, ra), c2, ra) == apply_list_change(
            apply_list_change(t, c2, ra),
            c1,
            ra,
        ),
{
    assert(apply_list_change(apply_list_change(t, c1, ra), c2, ra) =~= apply_list_change(
        apply_list_change(t, c2, ra),
        c1,
        ra,
    ));
}

proof fn lemma_list_change_past_plan(t: Set<Seq<u8>>, c: ListChange, plan: Seq<ListChange>, ra: bool)
    requires
        forall|i: int| 0 <= i < plan.len() ==> (#[trigger] plan[i]).key != c.key,
    ensures
        apply_list_change(apply_list_plan(t, plan, ra), c, ra) == apply_list_plan(
            apply_list_change(t, c, ra),
            plan,
            ra,
        ),
    decreases plan.len(),
{
    if plan.len() > 0 {
        let h = plan[0];
        let rest = plan.drop_first();
        assert(forall|i: int| 0 <= i < rest.len() ==> (#[trigger] rest[i]).key != c.key) by {
            assert(forall|i: int| 0 <= i < rest.len() ==> rest[i] == plan[i + 1]);
        }
        lemma_list_change_past_plan(apply_list_change(t, h, ra), c, rest, ra);
        lemma_list_change_commute(t, h, c, ra);
    }
}

/// Draining the same whitelist or blacklist journal twice leaves the
/// table exactly as one drain does.
pub proof fn lemma_list_plan_idempotent(t: Set<Seq<u8>>, plan: Seq<ListChange>, ra: bool)
    requires
        forall|i: int, j: int|
            0 <= i < j < plan.len() ==> (#[trigger] plan[i]).key != (#[trigger] plan[j]).key,
    ensures
        apply_list_plan(apply_list_plan(t, plan, ra), plan, ra) == apply_list_plan(t, plan, ra),
    decreases plan.len(),
{
    if plan.len() > 0 {
        let h = plan[0];
        let rest = plan.drop_first();
        assert(forall|i: int| 0 <= i < rest.len() ==> rest[i] == plan[i + 1]);
        assert(forall|i: int| 0 <= i < rest.len() ==> (#[trigger] rest[i]).key != h.key);
        assert(forall|i: int, j: int|
            0 <= i < j < rest.len() ==> (#[trigger] rest[i]).key != (#[trigger] rest[j]).key);
        let t1 = apply_list_change(t, h, ra);
        let x = apply_list_plan(t1, rest, ra);
        lemma_list_change_past_plan(t1, h, rest, ra);
        assert(apply_list_change(t1, h, ra) =~= t1);
        assert(apply_list_change(x, h, ra) == x);
        lemma_list_plan_idempotent(t1, rest, ra);
        assert(apply_list_plan(apply_list_plan(t, plan, ra), plan, ra) == apply_list_plan(
            apply_list_change(x, h, ra),
            rest,
            ra,
        ));
    }
}

/// One journalled key change: the key and the expiry its upsert writes.
pub struct KeyChange {
    pub key: Seq<u8>,
    pub timeout: int,
    pub action: UpdatesAction,
}

/// What the statements of one journalled key do to the keys table: the
/// delete removes the row, the upsert writes the expiry into the existing
/// or a fresh row.
pub open spec fn apply_key_change(t: Map<Seq<u8>, int>, c: KeyChange, remove_action: bool) -> Map<
    Seq<u8>,
    int,
> {
    if c.action == UpdatesAction::Remove {
        if remove_action {
            t.remove(c.key)
        } else {
            t
        }
    } else {
        t.insert(c.key, c.timeout)
    }
}

pub open spec fn apply_key_plan(t: Map<Seq<u8>, int>, plan: Seq<KeyChange>, remove_action: bool) -> Map<
    Seq<u8>,
    int,
>
    decreases plan.len(),
{
    if plan.len() == 0 {
        t
    } else {
        apply_key_plan(apply_key_change(t, plan[0], remove_action), plan.drop_first(), remove_action)
    }
}

proof fn lemma_key_change_commute(t: Map<Seq<u8>, int>, c1: KeyChange, c2: KeyChange, ra: bool)
    requires
        c1.key != c2.key,
    ensures
        apply_key_change(apply_key_change(t, c1, ra), c2, ra) == apply_key_change(
            apply_key_change(t, c2, ra),
            c1,
            ra,
        ),
{
    assert(apply_key_change(apply_key_change(t, c1, ra), c2, ra) =~= apply_key_change(
        apply_key_change(t, c2, ra),
        c1,
        ra,
    ));
}

proof fn lemma_key_change_past_plan(t: Map<Seq<u8>, int>, c: KeyChange, plan: Seq<KeyChange>, ra: bool)
    requires
        forall|i: int| 0 <= i < plan.len() ==> (#[trigger] plan[i]).key != c.key,
    ensures
        apply_key_change(apply_key_plan(t, plan, ra), c, ra) == apply_key_plan(
            apply_key_change(t, c, ra),
            plan,
            ra,
        ),
    decreases plan.len(),
{
    if plan.len() > 0 {
        let h = plan[0];
        let rest = plan.drop_first();
        assert(forall|i: int| 0 <= i < rest.len() ==> (#[trigger] rest[i]).key != c.key) by {
            assert(forall|i: int| 0 <= i < rest.len() ==> rest[i] == plan[i + 1]);
        }
        lemma_key_change_past_plan(apply_key_change(t, h, ra), c, rest, ra);
        lemma_key_change_commute(t, h, c, ra);
    }
}

/// Draining the same keys journal twice leaves the table exactly as one
/// drain does.
pub proof fn lemma_key_plan_idempotent(t: Map<Seq<u8>, int>, plan: Seq<KeyChange>, ra: bool)
    requires
        forall|i: int, j: int|
            0 <= i < j < plan.len() ==> (#[trigger] plan[i]).key != (#[trigger] plan[j]).key,
    ensures
        apply_key_plan(apply_key_plan(t, plan, ra), plan, ra) == apply_key_plan(t, plan, ra),
    decreases plan.len(),
{
    if plan.len() > 0 {
        let h = plan[0];
        let rest = plan.drop_first();
        assert(forall|i: int| 0 <= i < rest.len() ==> rest[i] == plan[i + 1]);
        assert(forall|i: int| 0 <= i < rest.len() ==> (#[trigger] rest[i]).key != h.key);
        assert(forall|i: int, j: int|
            0 <= i < j < rest.len() ==> (#[trigger] rest[i]).key != (#[trigger] rest[j]).key);
        let t1 = apply_key_change(t, h, ra);
        let x = apply_key_plan(t1, rest, ra);
        lemma_key_change_past_plan(t1, h, rest, ra);
        assert(apply_key_change(t1, h, ra) =~= t1);
        assert(apply_key_change(x, h, ra) == x);
        lemma_key_plan_idempotent(t1, rest, ra);
        assert(apply_key_plan(apply_key_plan(t, plan, ra), plan, ra) == apply_key_plan(
            apply_key_change(x, h, ra),
            rest,
            ra,
        ));
    }
}

/// The paging decision of the boot-time loads: after a page starting at
/// `start`, the next page starts a page further, and the load goes on
/// while the rows seen so far reach that mark.
pub fn next_page(start: u64, length: u64, loaded: u64) -> (r: (bool, u64))
    ensures
        r.1 == (if start + length <= u64::MAX {
            (start + length) as u64
        } else {
            u64::MAX
        }),
        r.0 == (loaded >= r.1),
{
    let next = if start <= u64::MAX - length {
        start + length
    } else {
        u64::MAX
    };
    (loaded >= next, next)
}

} // verus!
