use tracker_core::access::{
    resolve_access, AccessDecision, AccessList, KeysStore, UpdatesAction,
};
use tracker_core::ids::InfoHash;

fn hash(fill: u8) -> InfoHash {
    InfoHash::new(vec![fill; 20])
}

#[test]
fn whitelist_membership() {
    let mut wl = AccessList::new();
    let h = hash(1);
    assert!(!wl.contains(&h));
    assert!(wl.add(&h));
    assert!(wl.contains(&h));
    assert!(!wl.add(&h));
    assert_eq!(wl.len(), 1);
    assert!(wl.remove(&h, true));
    assert!(!wl.contains(&h));
}

#[test]
fn journal_records_add_then_remove() {
    let mut wl = AccessList::new();
    let h = hash(1);
    wl.add(&h);
    let snapshot = wl.journal_snapshot();
    assert_eq!(snapshot.len(), 1);
    assert_eq!(snapshot[0].1, UpdatesAction::Add);
    // with removals persisted, a removal is journalled
    wl.remove(&h, true);
    let snapshot = wl.journal_snapshot();
    assert_eq!(snapshot[0].1, UpdatesAction::Remove);
    // adding over a pending removal journals an update
    wl.add(&h);
    let snapshot = wl.journal_snapshot();
    assert_eq!(snapshot[0].1, UpdatesAction::Update);
}

#[test]
fn journal_cancels_add_when_removals_are_not_persisted() {
    let mut wl = AccessList::new();
    let h = hash(1);
    wl.add(&h);
    wl.remove(&h, false);
    let snapshot = wl.journal_snapshot();
    assert_eq!(snapshot.len(), 0);
}

#[test]
fn clear_journal_keeps_the_set() {
    let mut wl = AccessList::new();
    let h = hash(1);
    wl.add(&h);
    wl.clear_journal();
    assert_eq!(wl.journal_snapshot().len(), 0);
    assert!(wl.contains(&h));
}

#[test]
fn blacklist_overrides_whitelist() {
    // a hash on both lists is rejected
    let d = resolve_access(true, true, true, false, false);
    assert_eq!(d, AccessDecision::Blacklisted);
    let d = resolve_access(false, false, true, true, true);
    assert_eq!(d, AccessDecision::Blacklisted);
}

#[test]
fn access_order_and_outcomes() {
    assert_eq!(resolve_access(false, false, false, false, false), AccessDecision::Allowed);
    assert_eq!(resolve_access(true, false, false, false, false), AccessDecision::NotWhitelisted);
    assert_eq!(resolve_access(true, true, false, false, false), AccessDecision::Allowed);
    assert_eq!(resolve_access(false, false, false, true, false), AccessDecision::KeyInvalid);
    assert_eq!(resolve_access(false, false, false, true, true), AccessDecision::Allowed);
}

#[test]
fn keys_expire() {
    let mut ks = KeysStore::new();
    let k = hash(7);
    ks.add_key(&k, 1000);
    assert!(ks.check_key(&k, 999));
    assert!(!ks.check_key(&k, 1000));
    assert!(!ks.check_key(&hash(8), 0));
}

#[test]
fn key_sweep_drops_expired_keys() {
    let mut ks = KeysStore::new();
    ks.add_key(&hash(1), 1000);
    ks.add_key(&hash(2), 2000);
    ks.clean_keys(1500);
    assert!(!ks.check_key(&hash(1), 999));
    assert!(ks.check_key(&hash(2), 1999));
    assert_eq!(ks.len(), 1);
}

#[test]
fn key_journal_carries_timeout() {
    let mut ks = KeysStore::new();
    ks.add_key(&hash(1), 1234);
    let snapshot = ks.journal_snapshot();
    assert_eq!(snapshot.len(), 1);
    assert_eq!(snapshot[0].1, (1234, UpdatesAction::Add));
    ks.remove_key(&hash(1), false);
    assert_eq!(ks.journal_snapshot().len(), 0);
}
