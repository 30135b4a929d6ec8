use tracker_core::access::UpdatesAction;
use tracker_core::idmap::AssocMap;
use tracker_core::ids::{InfoHash, UserId};
use tracker_core::sqlgen::{
    create_tables_plan, load_keys_query, load_list_query, load_torrents_query, load_users_query,
    next_page, reset_seeds_peers_query, save_key_stmts, save_list_stmts, save_torrent_stmts,
    save_user_stmts, DbKeysStructure, DbListStructure, DbSettings, DbTorrentsStructure,
    DbUsersStructure,
};
use tracker_core::users::UserEntryItem;

fn settings(remove_action: bool, insert_vacant: bool) -> DbSettings {
    DbSettings { remove_action, insert_vacant, update_peers: true, update_completed: true }
}

fn torrents_structure(bin: bool) -> DbTorrentsStructure {
    DbTorrentsStructure {
        table_name: String::from("torrents"),
        column_infohash: String::from("info_hash"),
        column_seeds: String::from("seeds"),
        column_peers: String::from("peers"),
        column_completed: String::from("completed"),
        bin_type_infohash: bin,
    }
}

fn list_structure(table: &str, bin: bool) -> DbListStructure {
    DbListStructure {
        table_name: String::from(table),
        column_infohash: String::from("info_hash"),
        bin_type_infohash: bin,
    }
}

fn keys_structure(bin: bool) -> DbKeysStructure {
    DbKeysStructure {
        table_name: String::from("keys"),
        column_hash: String::from("hash"),
        column_timeout: String::from("timeout"),
        bin_type_hash: bin,
    }
}

fn users_structure(id_uuid: bool, bin_key: bool) -> DbUsersStructure {
    DbUsersStructure {
        table_name: String::from("users"),
        column_uuid: String::from("uuid"),
        column_id: String::from("id"),
        column_key: String::from("key"),
        column_uploaded: String::from("uploaded"),
        column_downloaded: String::from("downloaded"),
        column_completed: String::from("completed"),
        column_active: String::from("active"),
        column_updated: String::from("updated"),
        id_uuid,
        bin_type_key: bin_key,
    }
}

fn hash_aa() -> InfoHash {
    InfoHash::new(vec![0xAA; 20])
}

const HEX_AA: &str = "aaaaaaaaaaaaaaaaaaaaaaaaaaaaaaaaaaaaaaaa";

#[test]
fn torrent_upserts() {
    let stmts = save_torrent_stmts(
        &settings(true, true),
        &torrents_structure(true),
        &hash_aa(),
        1,
        2,
        5,
        UpdatesAction::Update,
    );
    assert_eq!(stmts.len(), 2);
    assert_eq!(
        stmts[0],
        format!(
            "INSERT INTO `torrents` (`info_hash`, `seeds`, `peers`) VALUES (X'{HEX_AA}', 1, 2) ON CONFLICT (`info_hash`) DO UPDATE SET `seeds`=excluded.`seeds`, `peers`=excluded.`peers`"
        )
    );
    assert_eq!(
        stmts[1],
        format!(
            "INSERT INTO `torrents` (`info_hash`, `completed`) VALUES (X'{HEX_AA}', 5) ON CONFLICT (`info_hash`) DO UPDATE SET `completed`=excluded.`completed`"
        )
    );
}

#[test]
fn torrent_update_only_and_text_hash() {
    let stmts = save_torrent_stmts(
        &settings(true, false),
        &torrents_structure(false),
        &hash_aa(),
        3,
        4,
        6,
        UpdatesAction::Add,
    );
    assert_eq!(stmts.len(), 2);
    assert_eq!(
        stmts[0],
        format!("UPDATE OR IGNORE `torrents` SET `seeds`=3, `peers`=4 WHERE `info_hash`='{HEX_AA}'")
    );
    assert_eq!(
        stmts[1],
        format!("UPDATE OR IGNORE `torrents` SET `completed`=6 WHERE `info_hash`='{HEX_AA}'")
    );
}

#[test]
fn torrent_remove_respects_remove_action() {
    let with = save_torrent_stmts(
        &settings(true, true),
        &torrents_structure(true),
        &hash_aa(),
        0,
        0,
        0,
        UpdatesAction::Remove,
    );
    assert_eq!(with.len(), 1);
    assert_eq!(with[0], format!("DELETE FROM `torrents` WHERE `info_hash`=X'{HEX_AA}'"));
    let without = save_torrent_stmts(
        &settings(false, true),
        &torrents_structure(true),
        &hash_aa(),
        0,
        0,
        0,
        UpdatesAction::Remove,
    );
    assert_eq!(without.len(), 0);
}

#[test]
fn whitelist_statements_use_unhex_for_binary_deletes() {
    let st = settings(true, true);
    let wl = list_structure("whitelist", true);
    let ins = save_list_stmts(&st, &wl, &hash_aa(), UpdatesAction::Add, true);
    assert_eq!(ins[0], format!("INSERT OR IGNORE INTO `whitelist` (`info_hash`) VALUES (X'{HEX_AA}')"));
    let del = save_list_stmts(&st, &wl, &hash_aa(), UpdatesAction::Remove, true);
    assert_eq!(del[0], format!("DELETE FROM `whitelist` WHERE `info_hash`=UNHEX('{HEX_AA}')"));
}

#[test]
fn blacklist_deletes_use_hex_literal() {
    let st = settings(true, true);
    let bl = list_structure("blacklist", true);
    let del = save_list_stmts(&st, &bl, &hash_aa(), UpdatesAction::Remove, false);
    assert_eq!(del[0], format!("DELETE FROM `blacklist` WHERE `info_hash`=X'{HEX_AA}'"));
}

#[test]
fn key_statements() {
    let st = settings(true, true);
    let ks = keys_structure(true);
    let up = save_key_stmts(&st, &ks, &hash_aa(), 1234, UpdatesAction::Add);
    assert_eq!(
        up[0],
        format!(
            "INSERT INTO `keys` (`hash`, `timeout`) VALUES (X'{HEX_AA}', 1234) ON CONFLICT (`hash`) DO UPDATE SET `timeout`=excluded.`timeout`"
        )
    );
    let del = save_key_stmts(&st, &ks, &hash_aa(), 0, UpdatesAction::Remove);
    assert_eq!(del[0], format!("DELETE FROM `keys` WHERE `hash`=X'{HEX_AA}'"));
}

fn sample_user(id_mode_uuid: bool) -> UserEntryItem {
    UserEntryItem {
        user_id: if id_mode_uuid { None } else { Some(42) },
        user_uuid: if id_mode_uuid { Some(String::from("u-1")) } else { None },
        key: UserId::new(vec![0xAA; 20]),
        uploaded: 200,
        downloaded: 500,
        completed: 3,
        updated: 999,
        active: 1,
        torrents_active: AssocMap::new(),
    }
}

#[test]
fn user_upsert_by_uuid() {
    let stmts = save_user_stmts(
        &settings(true, true),
        &users_structure(true, false),
        &sample_user(true),
        UpdatesAction::Add,
    );
    assert_eq!(
        stmts[0],
        format!(
            "INSERT INTO `users` (`uuid`, `completed`, `active`, `downloaded`, `key`, `uploaded`, `updated`) VALUES ('u-1', 3, 1, 500, '{HEX_AA}', 200, 999) ON CONFLICT (`uuid`) DO UPDATE SET `completed`=excluded.`completed`, `active`=excluded.`active`, `downloaded`=excluded.`downloaded`, `key`=excluded.`key`, `uploaded`=excluded.`uploaded`, `updated`=excluded.`updated`"
        )
    );
}

#[test]
fn user_update_by_numeric_id() {
    let stmts = save_user_stmts(
        &settings(true, false),
        &users_structure(false, true),
        &sample_user(false),
        UpdatesAction::Update,
    );
    assert_eq!(
        stmts[0],
        format!(
            "UPDATE OR IGNORE `users` SET `completed`=3, `active`=1, `downloaded`=500, `key`=X'{HEX_AA}', `uploaded`=200, `updated`=999 WHERE `id`='42'"
        )
    );
}

#[test]
fn user_delete() {
    let stmts = save_user_stmts(
        &settings(true, true),
        &users_structure(true, false),
        &sample_user(true),
        UpdatesAction::Remove,
    );
    assert_eq!(stmts[0], "DELETE FROM `users` WHERE `uuid`='u-1'");
}

#[test]
fn load_queries() {
    assert_eq!(
        load_torrents_query(&torrents_structure(true), 0, 100000),
        "SELECT hex(`info_hash`) AS `info_hash`, `completed` FROM `torrents` LIMIT 0, 100000"
    );
    assert_eq!(
        load_torrents_query(&torrents_structure(false), 100000, 100000),
        "SELECT `info_hash`, `completed` FROM `torrents` LIMIT 100000, 100000"
    );
    assert_eq!(
        load_list_query(&list_structure("whitelist", true), 0, 100000),
        "SELECT HEX(`info_hash`) AS `info_hash` FROM `whitelist` LIMIT 0, 100000"
    );
    assert_eq!(
        load_keys_query(&keys_structure(false), 0, 10),
        "SELECT `hash`, `timeout` FROM `keys` LIMIT 0, 10"
    );
    assert_eq!(
        load_users_query(&users_structure(true, true), 0, 10),
        "SELECT `uuid`, HEX(`key`) AS `key`, `uploaded`, `downloaded`, `completed`, `updated`, `active` FROM `users` LIMIT 0, 10"
    );
}

#[test]
fn reset_statement() {
    assert_eq!(
        reset_seeds_peers_query(&torrents_structure(true)),
        "UPDATE `torrents` SET `seeds`=0, `peers`=0"
    );
}

#[test]
fn create_tables() {
    let plan = create_tables_plan(
        &torrents_structure(true),
        &list_structure("whitelist", true),
        &list_structure("blacklist", false),
        &keys_structure(true),
        &users_structure(false, true),
    );
    assert_eq!(plan.len(), 9);
    assert_eq!(plan[0], "PRAGMA temp_store = memory;");
    assert_eq!(
        plan[4],
        "CREATE TABLE IF NOT EXISTS `torrents` (`info_hash` BLOB PRIMARY KEY NOT NULL, `seeds` INTEGER DEFAULT 0, `peers` INTEGER DEFAULT 0, `completed` INTEGER DEFAULT 0)"
    );
    assert_eq!(
        plan[5],
        "CREATE TABLE IF NOT EXISTS `whitelist` (`info_hash` BLOB PRIMARY KEY NOT NULL)"
    );
    assert_eq!(
        plan[6],
        "CREATE TABLE IF NOT EXISTS `blacklist` (`info_hash` TEXT PRIMARY KEY NOT NULL)"
    );
    assert_eq!(
        plan[7],
        "CREATE TABLE IF NOT EXISTS `keys` (`hash` BLOB PRIMARY KEY NOT NULL, `timeout` INTEGER DEFAULT 0)"
    );
    assert_eq!(
        plan[8],
        "CREATE TABLE IF NOT EXISTS `users` (`id` INTEGER PRIMARY KEY AUTOINCREMENT, `key` BLOB NOT NULL, `uploaded` INTEGER NOT NULL DEFAULT 0, `downloaded` INTEGER NOT NULL DEFAULT 0, `completed` INTEGER NOT NULL DEFAULT 0, `active` INTEGER NOT NULL DEFAULT 0, `updated` INTEGER NOT NULL DEFAULT 0)"
    );
}

#[test]
fn paging() {
    assert_eq!(next_page(0, 100000, 100000), (true, 100000));
    assert_eq!(next_page(0, 100000, 50), (false, 100000));
    assert_eq!(next_page(100000, 100000, 150000), (false, 200000));
}
