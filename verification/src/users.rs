//! The user accounting store: per-user byte counters, the set of torrents
//! a user is currently announcing on, and the update journal. User ids
//! are the SHA-1 of the row key the database holds.

use vstd::prelude::*;
use crate::access::{UpdatesAction, journal_after_add, journal_after_remove};
use crate::digest::{sha1_digest, sha1_of};
use crate::idmap::{AssocMap, clone_bytes};
use crate::ids::{InfoHash, UserId};
use crate::torrents::AnnounceEvent;

verus! {

/// `a + b` held within the bounds of `u64`.
pub open spec fn sat_add_u64(a: u64, b: u64) -> u64 {
    if a + b > u64::MAX {
        u64::MAX
    } else {
        (a + b) as u64
    }
}

/// One user's accounting record.
pub struct UserEntryItem {
    pub user_id: Option<u64>,
    pub user_uuid: Option<String>,
    pub key: UserId,
    pub uploaded: u64,
    pub downloaded: u64,
    pub completed: u64,
    pub updated: u64,
    pub active: u8,
    pub torrents_active: AssocMap<u64>,
}

impl UserEntryItem {
    pub open spec fn wf(self) -> bool {
        self.key.wf() && self.torrents_active.wf()
    }
}

/// The accounting an announce applies to its user: the byte deltas are
/// credited with saturation, a completion is counted, and the torrent is
/// held in — or, on stop or completion, dropped from — the user's active
/// set.
pub fn apply_user_delta(
    user: &mut UserEntryItem,
    info_hash: &InfoHash,
    delta_up: u64,
    delta_down: u64,
    event: AnnounceEvent,
    now: u64,
)
    requires
        old(user).wf(),
    ensures
        final(user).wf(),
        final(user).uploaded == sat_add_u64(old(user).uploaded, delta_up),
        final(user).downloaded == sat_add_u64(old(user).downloaded, delta_down),
        final(user).completed == (if event == AnnounceEvent::Completed && old(user).completed
            < u64::MAX {
            old(user).completed + 1
        } else {
            old(user).completed as int
        }),
        final(user).updated == now,
        final(user).torrents_active@ == (if event == AnnounceEvent::Stopped || event
            == AnnounceEvent::Completed {
            old(user).torrents_active@.remove(info_hash@)
        } else {
            old(user).torrents_active@.insert(info_hash@, now)
        }),
        final(user).user_id == old(user).user_id,
        final(user).user_uuid == old(user).user_uuid,
        final(user).key == old(user).key,
        final(user).active == old(user).active,
{
    user.uploaded = if user.uploaded <= u64::MAX - delta_up {
        user.uploaded + delta_up
    } else {
        u64::MAX
    };
    user.downloaded = if user.downloaded <= u64::MAX - delta_down {
        user.downloaded + delta_down
    } else {
        u64::MAX
    };
    let drop_active = match event {
        AnnounceEvent::Stopped => true,
        AnnounceEvent::Completed => true,
        _ => false,
    };
    match event {
        AnnounceEvent::Completed => {
            if user.completed < u64::MAX {
                user.completed = user.completed + 1;
            }
        },
        _ => {},
    }
    if drop_active {
        user.torrents_active.remove(&info_hash.bytes);
    } else {
        user.torrents_active.insert(clone_bytes(&info_hash.bytes), now);
    }
    user.updated = now;
}

/// The SHA-1 user id of a database row key, as the boot-time load derives
/// it.
pub fn user_id_from_row_key(data: &Vec<u8>) -> (r: UserId)
    ensures
        r@ == sha1_of(data@),
        r.wf(),
{
    let bytes = sha1_digest(data);
    UserId::new(bytes)
}

/// The store of user records, keyed by user id, with its update journal.
pub struct UserStore {
    pub users: AssocMap<UserEntryItem>,
    pub journal: AssocMap<UpdatesAction>,
}

impl UserStore {
    pub open spec fn wf(self) -> bool {
        &&& self.users.wf()
        &&& self.journal.wf()
        &&& forall|k: Seq<u8>| self.users@.contains_key(k) ==> (#[trigger] self.users@[k]).wf()
    }

    pub fn new() -> (r: UserStore)
        ensures
            r.wf(),
            r.users@ == Map::<Seq<u8>, UserEntryItem>::empty(),
            r.journal@ == Map::<Seq<u8>, UpdatesAction>::empty(),
    {
        UserStore { users: AssocMap::new(), journal: AssocMap::new() }
    }

    /// Files a user record and journals the change.
    pub fn add_user(&mut self, user_id: &UserId, item: UserEntryItem) -> (added: bool)
        requires
            old(self).wf(),
            item.wf(),
        ensures
            final(self).wf(),
            final(self).users@ == old(self).users@.insert(user_id@, item),
            final(self).journal@ == journal_after_add(old(self).journal@, user_id@),
            added == !old(self).users@.contains_key(user_id@),
    {
        let had = self.users.insert(clone_bytes(&user_id.bytes), item);
        let action = match self.journal.get(&user_id.bytes) {
            Some(a) => match a {
                UpdatesAction::Remove => UpdatesAction::Update,
                _ => UpdatesAction::Add,
            },
            None => UpdatesAction::Add,
        };
        self.journal.insert(clone_bytes(&user_id.bytes), action);
        proof {
            assert forall|k: Seq<u8>| final(self).users@.contains_key(k) implies (
            #[trigger] final(self).users@[k]).wf() by {
                if k != user_id@ {
                    assert(old(self).users@[k].wf());
                }
            }
        }
        !had
    }

    /// A borrowed user record.
    pub fn get_user(&self, user_id: &UserId) -> (r: Option<&UserEntryItem>)
        requires
            self.wf(),
        ensures
            match r {
                Some(u) => self.users@.contains_key(user_id@) && *u == self.users@[user_id@],
                None => !self.users@.contains_key(user_id@),
            },
    {
        self.users.get(&user_id.bytes)
    }

    /// Drops a user record and journals the change.
    pub fn remove_user(&mut self, user_id: &UserId, remove_action: bool) -> (r: Option<
        UserEntryItem,
    >)
        requires
            old(self).wf(),
        ensures
            final(self).wf(),
            final(self).users@ == old(self).users@.remove(user_id@),
            final(self).journal@ == journal_after_remove(
                old(self).journal@,
                user_id@,
                remove_action,
            ),
            match r {
                Some(u) => old(self).users@.contains_key(user_id@) && u == old(
                    self,
                ).users@[user_id@],
                None => !old(self).users@.contains_key(user_id@),
            },
    {
        let r = self.users.remove(&user_id.bytes);
        let cancel = if !remove_action {
            match self.journal.get(&user_id.bytes) {
                Some(a) => match a {
                    UpdatesAction::Add => true,
                    _ => false,
                },
                None => false,
            }
        } else {
            false
        };
        if cancel {
            self.journal.remove(&user_id.bytes);
        } else {
            self.journal.insert(clone_bytes(&user_id.bytes), UpdatesAction::Remove);
        }
        proof {
            assert forall|k: Seq<u8>| final(self).users@.contains_key(k) implies (
            #[trigger] final(self).users@[k]).wf() by {
                assert(old(self).users@[k].wf());
            }
        }
        r
    }

    pub fn len(&self) -> (r: usize)
        requires
            self.wf(),
        ensures
            r == self.users@.dom().len(),
    {
        proof {
            self.users.lemma_view();
        }
        self.users.len()
    }

    pub fn clear_journal(&mut self)
        requires
            old(self).wf(),
        ensures
            final(self).wf(),
            final(self).users == old(self).users,
            final(self).journal@ == Map::<Seq<u8>, UpdatesAction>::empty(),
    {
        self.journal = AssocMap::new();
    }
}

} // verus!
