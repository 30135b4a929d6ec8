//! Access control of announces: the whitelist and blacklist of
//! info-hashes, the store of time-limited keys, and the update journals
//! that tell the persistence pipeline what changed.

use vstd::prelude::*;
use crate::idmap::{AssocMap, clone_bytes};
use crate::ids::InfoHash;

verus! {

/// What the persistence pipeline is to do for a journalled key.
#[derive(Clone, Copy, Debug, PartialEq, Eq, Structural)]
pub enum UpdatesAction {
    Add,
    Update,
    Remove,
}

/// The journal after an entry is added to its store: a pending removal
/// turns into an update, anything else is recorded as an addition.
pub open spec fn journal_after_add(
    j: Map<Seq<u8>, UpdatesAction>,
    k: Seq<u8>,
) -> Map<Seq<u8>, UpdatesAction> {
    if j.contains_key(k) && j[k] == UpdatesAction::Remove {
        j.insert(k, UpdatesAction::Update)
    } else {
        j.insert(k, UpdatesAction::Add)
    }
}

/// The journal after an entry is removed from its store: with
/// `remove_action` off, a pending addition is simply cancelled; otherwise
/// a removal is recorded.
pub open spec fn journal_after_remove(
    j: Map<Seq<u8>, UpdatesAction>,
    k: Seq<u8>,
    remove_action: bool,
) -> Map<Seq<u8>, UpdatesAction> {
    if !remove_action && j.contains_key(k) && j[k] == UpdatesAction::Add {
        j.remove(k)
    } else {
        j.insert(k, UpdatesAction::Remove)
    }
}

/// A set of info-hashes with its update journal: the shape of both the
/// whitelist and the blacklist.
pub struct AccessList {
    pub set: AssocMap<bool>,
    pub journal: AssocMap<UpdatesAction>,
}

impl AccessList {
    pub open spec fn wf(self) -> bool {
        self.set.wf() && self.journal.wf()
    }

    pub fn new() -> (r: AccessList)
        ensures
            r.wf(),
            r.set@ == Map::<Seq<u8>, bool>::empty(),
            r.journal@ == Map::<Seq<u8>, UpdatesAction>::empty(),
    {
        AccessList { set: AssocMap::new(), journal: AssocMap::new() }
    }

    /// Whether the info-hash is listed.
    pub fn contains(&self, info_hash: &InfoHash) -> (r: bool)
        requires
            self.wf(),
        ensures
            r == self.set@.contains_key(info_hash@),
    {
        self.set.contains(&info_hash.bytes)
    }

    /// Lists the info-hash and journals the change.
    pub fn add(&mut self, info_hash: &InfoHash) -> (added: bool)
        requires
            old(self).wf(),
        ensures
            final(self).wf(),
            final(self).set@ == old(self).set@.insert(info_hash@, true),
            final(self).journal@ == journal_after_add(old(self).journal@, info_hash@),
            added == !old(self).set@.contains_key(info_hash@),
    {
        let had = self.set.insert(clone_bytes(&info_hash.bytes), true);
        let action = match self.journal.get(&info_hash.bytes) {
            Some(a) => match a {
                UpdatesAction::Remove => UpdatesAction::Update,
                _ => UpdatesAction::Add,
            },
            None => UpdatesAction::Add,
        };
        self.journal.insert(clone_bytes(&info_hash.bytes), action);
        !had
    }

    /// Unlists the info-hash and journals the change.
    pub fn remove(&mut self, info_hash: &InfoHash, remove_action: bool) -> (removed: bool)
        requires
            old(self).wf(),
        ensures
            final(self).wf(),
            final(self).set@ == old(self).set@.remove(info_hash@),
            final(self).journal@ == journal_after_remove(
                old(self).journal@,
                info_hash@,
                remove_action,
            ),
            removed == old(self).set@.contains_key(info_hash@),
    {
        let had = self.set.remove(&info_hash.bytes);
        let cancel = if !remove_action {
            match self.journal.get(&info_hash.bytes) {
                Some(a) => match a {
                    UpdatesAction::Add => true,
                    _ => false,
                },
                None => false,
            }
        } else {
            false
        };
        if cancel {
            self.journal.remove(&info_hash.bytes);
        } else {
            self.journal.insert(clone_bytes(&info_hash.bytes), UpdatesAction::Remove);
        }
        match had {
            Some(_) => true,
            None => false,
        }
    }

    /// How many info-hashes are listed.
    pub fn len(&self) -> (r: usize)
        requires
            self.wf(),
        ensures
            r == self.set@.dom().len(),
    {
        proof {
            self.set.lemma_view();
        }
        self.set.len()
    }

    /// The pending journal entries, in key order, for a persistence run.
    pub fn journal_snapshot(&self) -> (r: Vec<(Vec<u8>, UpdatesAction)>)
        ensures
            r@.len() == self.journal.spec_len(),
            forall|j: int|
                0 <= j < r@.len() ==> (#[trigger] r@[j]).0@ == self.journal.key_at(j) && r@[j].1
                    == self.journal.val_at(j),
            self.wf() ==> forall|i: int, j: int|
                0 <= i < j < r@.len() ==> (#[trigger] r@[i]).0@ != (#[trigger] r@[j]).0@,
    {
        let r = self.journal.snapshot_entries();
        proof {
            if self.wf() {
                assert forall|i: int, j: int| 0 <= i < j < r@.len() implies (#[trigger] r@[i]).0@
                    != (#[trigger] r@[j]).0@ by {
                    crate::order::lemma_lex_irreflexive(r@[i].0@);
                }
            }
        }
        r
    }

    /// Forgets the journalled changes, after a successful persistence run.
    pub fn clear_journal(&mut self)
        requires
            old(self).wf(),
        ensures
            final(self).wf(),
            final(self).set@ == old(self).set@,
            final(self).journal@ == Map::<Seq<u8>, UpdatesAction>::empty(),
    {
        self.journal = AssocMap::new();
    }
}

/// A key is valid at `now` while `now` lies strictly before its expiry.
pub open spec fn key_valid(expiry: i64, now: i64) -> bool {
    now < expiry
}

/// The store of time-limited access keys: 20-byte keys mapped to an
/// absolute expiry in Unix seconds, with the update journal.
pub struct KeysStore {
    pub keys: AssocMap<i64>,
    pub journal: AssocMap<(i64, UpdatesAction)>,
}

impl KeysStore {
    pub open spec fn wf(self) -> bool {
        self.keys.wf() && self.journal.wf()
    }

    pub fn new() -> (r: KeysStore)
        ensures
            r.wf(),
            r.keys@ == Map::<Seq<u8>, i64>::empty(),
            r.journal@ == Map::<Seq<u8>, (i64, UpdatesAction)>::empty(),
    {
        KeysStore { keys: AssocMap::new(), journal: AssocMap::new() }
    }

    /// Files a key with its expiry and journals the change.
    pub fn add_key(&mut self, hash: &InfoHash, timeout: i64) -> (added: bool)
        requires
            old(self).wf(),
        ensures
            final(self).wf(),
            final(self).keys@ == old(self).keys@.insert(hash@, timeout),
            final(self).journal@ == old(self).journal@.insert(
                hash@,
                (
                    timeout,
                    if old(self).journal@.contains_key(hash@) && old(self).journal@[hash@].1
                        == UpdatesAction::Remove {
                        UpdatesAction::Update
                    } else {
                        UpdatesAction::Add
                    },
                ),
            ),
            added == !old(self).keys@.contains_key(hash@),
    {
        let had = self.keys.insert(clone_bytes(&hash.bytes), timeout);
        let action = match self.journal.get(&hash.bytes) {
            Some(a) => match a.1 {
                UpdatesAction::Remove => UpdatesAction::Update,
                _ => UpdatesAction::Add,
            },
            None => UpdatesAction::Add,
        };
        self.journal.insert(clone_bytes(&hash.bytes), (timeout, action));
        !had
    }

    /// Drops a key and journals the change.
    pub fn remove_key(&mut self, hash: &InfoHash, remove_action: bool) -> (removed: bool)
        requires
            old(self).wf(),
        ensures
            final(self).wf(),
            final(self).keys@ == old(self).keys@.remove(hash@),
            ({
                let j = old(self).journal@;
                if !remove_action && j.contains_key(hash@) && j[hash@].1 == UpdatesAction::Add {
                    final(self).journal@ == j.remove(hash@)
                } else {
                    final(self).journal@ == j.insert(hash@, (0i64, UpdatesAction::Remove))
                }
            }),
            removed == old(self).keys@.contains_key(hash@),
    {
        let had = self.keys.remove(&hash.bytes);
        let cancel = if !remove_action {
            match self.journal.get(&hash.bytes) {
                Some(a) => match a.1 {
                    UpdatesAction::Add => true,
                    _ => false,
                },
                None => false,
            }
        } else {
            false
        };
        if cancel {
            self.journal.remove(&hash.bytes);
        } else {
            self.journal.insert(clone_bytes(&hash.bytes), (0i64, UpdatesAction::Remove));
        }
        match had {
            Some(_) => true,
            None => false,
        }
    }

    /// Whether a key is on file and still valid at `now`.
    pub fn check_key(&self, hash: &InfoHash, now: i64) -> (r: bool)
        requires
            self.wf(),
        ensures
            r == (self.keys@.contains_key(hash@) && key_valid(self.keys@[hash@], now)),
    {
        match self.keys.get(&hash.bytes) {
            Some(t) => now < *t,
            None => false,
        }
    }

    /// The expiry sweep: every key whose expiry is not after `now` is
    /// dropped, the rest stay unchanged.
    pub fn clean_keys(&mut self, now: i64)
        requires
            old(self).wf(),
        ensures
            final(self).wf(),
            final(self).journal@ == old(self).journal@,
            forall|k: Seq<u8>| #[trigger]
                final(self).keys@.contains_key(k) ==> old(self).keys@.contains_key(k) && final(self).keys@[k] == old(self).keys@[k] && key_valid(old(self).keys@[k], now),
            forall|k: Seq<u8>| #[trigger]
                old(self).keys@.contains_key(k) && key_valid(old(self).keys@[k], now) ==> final(self).keys@.contains_key(k),
    {
        let m = &mut self.keys;
        let mut i = m.len();
        while i > 0
            invariant
                m.wf(),
                i <= m.spec_len(),
                forall|j: int| i <= j < m.spec_len() ==> key_valid(m.val_at(j), now),
                forall|k: Seq<u8>| #[trigger]
                    m@.contains_key(k) ==> old(self).keys@.contains_key(k) && m@[k] == old(self).keys@[k],
                forall|k: Seq<u8>| #[trigger]
                    old(self).keys@.contains_key(k) && key_valid(old(self).keys@[k], now)
                        ==> m@.contains_key(k),
            decreases i,
        {
            i = i - 1;
            let expired = {
                let (_, t) = m.entry_at(i);
                *t <= now
            };
            if expired {
                let ghost pre = *m;
                proof {
                    m.lemma_view();
                }
                let removed = m.remove_at(i);
                proof {
                    assert forall|j: int| i <= j < m.spec_len() implies key_valid(
                        m.val_at(j),
                        now,
                    ) by {
                        assert(m.entries@[j] == pre.entries@[j + 1]);
                        assert(key_valid(pre.val_at(j + 1), now));
                    }
                    assert(!key_valid(old(self).keys@[removed.0@], now));
                }
            }
        }
        proof {
            m.lemma_view();
            assert forall|k: Seq<u8>| #[trigger] m@.contains_key(k) implies old(self).keys@.contains_key(k) && m@[k] == old(self).keys@[k] && key_valid(
                old(self).keys@[k],
                now,
            ) by {
                let j = choose|j: int| 0 <= j < m.spec_len() && m.key_at(j) == k;
                assert(m@[k] == m.val_at(j));
            }
        }
    }

    pub fn len(&self) -> (r: usize)
        requires
            self.wf(),
        ensures
            r == self.keys@.dom().len(),
    {
        proof {
            self.keys.lemma_view();
        }
        self.keys.len()
    }

    pub fn journal_snapshot(&self) -> (r: Vec<(Vec<u8>, (i64, UpdatesAction))>)
        ensures
            r@.len() == self.journal.spec_len(),
            forall|j: int|
                0 <= j < r@.len() ==> (#[trigger] r@[j]).0@ == self.journal.key_at(j) && r@[j].1
                    == self.journal.val_at(j),
            self.wf() ==> forall|i: int, j: int|
                0 <= i < j < r@.len() ==> (#[trigger] r@[i]).0@ != (#[trigger] r@[j]).0@,
    {
        let r = self.journal.snapshot_entries();
        proof {
            if self.wf() {
                assert forall|i: int, j: int| 0 <= i < j < r@.len() implies (#[trigger] r@[i]).0@
                    != (#[trigger] r@[j]).0@ by {
                    crate::order::lemma_lex_irreflexive(r@[i].0@);
                }
            }
        }
        r
    }

    pub fn clear_journal(&mut self)
        requires
            old(self).wf(),
        ensures
            final(self).wf(),
            final(self).keys@ == old(self).keys@,
            final(self).journal@ == Map::<Seq<u8>, (i64, UpdatesAction)>::empty(),
    {
        self.journal = AssocMap::new();
    }
}

/// Why an announce was turned away, or that it may proceed.
#[derive(Clone, Copy, Debug, PartialEq, Eq, Structural)]
pub enum AccessDecision {
    Allowed,
    NotWhitelisted,
    Blacklisted,
    KeyInvalid,
}

/// Whether policy lets an announce through: the whitelist must hold the
/// hash where enabled, the blacklist must not hold it, and a valid key
/// must accompany it where keys are enabled.
pub open spec fn access_allowed(
    whitelist_enabled: bool,
    whitelisted: bool,
    blacklisted: bool,
    keys_enabled: bool,
    valid_key: bool,
) -> bool {
    (!whitelist_enabled || whitelisted) && !blacklisted && (!keys_enabled || valid_key)
}

/// Resolves announce access in the order the engine checks it: whitelist
/// first, then blacklist, then keys.
pub fn resolve_access(
    whitelist_enabled: bool,
    whitelisted: bool,
    blacklisted: bool,
    keys_enabled: bool,
    valid_key: bool,
) -> (r: AccessDecision)
    ensures
        (r == AccessDecision::Allowed) == access_allowed(
            whitelist_enabled,
            whitelisted,
            blacklisted,
            keys_enabled,
            valid_key,
        ),
        r == AccessDecision::NotWhitelisted <==> whitelist_enabled && !whitelisted,
        r == AccessDecision::Blacklisted <==> (!whitelist_enabled || whitelisted) && blacklisted,
        r == AccessDecision::KeyInvalid <==> (!whitelist_enabled || whitelisted) && !blacklisted
            && keys_enabled && !valid_key,
{
    if whitelist_enabled && !whitelisted {
        AccessDecision::NotWhitelisted
    } else if blacklisted {
        AccessDecision::Blacklisted
    } else if keys_enabled && !valid_key {
        AccessDecision::KeyInvalid
    } else {
        AccessDecision::Allowed
    }
}

/// The blacklist overrides the whitelist: a hash on both lists is turned
/// away, whatever else holds.
pub proof fn lemma_blacklist_overrides_whitelist(
    whitelist_enabled: bool,
    keys_enabled: bool,
    valid_key: bool,
)
    ensures
        !access_allowed(whitelist_enabled, true, true, keys_enabled, valid_key),
{
}

} // verus!
