//! The in-memory swarm engine: per-torrent peer buckets and the announce
//! state machine. A torrent entry splits its peers into `seeds` (nothing
//! left to download) and `peers` (leechers); a peer id is never in both.
//! `completed` counts completion events and only grows.

use vstd::prelude::*;
use crate::idmap::{AssocMap, clone_bytes};
use crate::ids::{InfoHash, PeerId};
use crate::access::{UpdatesAction, journal_after_add, journal_after_remove};

verus! {

#[derive(Clone, Copy, Debug, PartialEq, Eq, Structural)]
pub enum AnnounceEvent {
    Started,
    Stopped,
    Completed,
    NoEvent,
}

/// A peer's address: 4 or 16 IP bytes and a port.
pub struct PeerAddr {
    pub is_v6: bool,
    pub ip: Vec<u8>,
    pub port: u16,
}

impl PeerAddr {
    pub open spec fn wf(self) -> bool {
        self.ip@.len() == (if self.is_v6 {
            16int
        } else {
            4int
        })
    }

    pub fn duplicate(&self) -> (r: PeerAddr)
        ensures
            r.is_v6 == self.is_v6,
            r.ip@ == self.ip@,
            r.port == self.port,
            r.wf() == self.wf(),
    {
        PeerAddr { is_v6: self.is_v6, ip: clone_bytes(&self.ip), port: self.port }
    }
}

/// What a torrent entry records of one announcing peer.
pub struct TorrentPeer {
    pub addr: PeerAddr,
    pub uploaded: u64,
    pub downloaded: u64,
    pub left: u64,
    pub event: AnnounceEvent,
    pub updated: u64,
}

impl TorrentPeer {
    pub open spec fn wf(self) -> bool {
        self.addr.wf()
    }
}

/// The per-torrent record: the two peer buckets, the completion counter
/// and the instant of the last mutation.
pub struct TorrentEntry {
    pub seeds: AssocMap<TorrentPeer>,
    pub peers: AssocMap<TorrentPeer>,
    pub completed: u64,
    pub updated: u64,
}

impl TorrentEntry {
    /// Both buckets well formed and disjoint: a peer id is in at most one.
    pub open spec fn wf(self) -> bool {
        &&& self.seeds.wf()
        &&& self.peers.wf()
        &&& forall|k: Seq<u8>| #[trigger] self.seeds@.contains_key(k) ==> !self.peers@.contains_key(k)
        &&& forall|k: Seq<u8>|
            self.seeds@.contains_key(k) ==> (#[trigger] self.seeds@[k]).wf()
        &&& forall|k: Seq<u8>|
            self.peers@.contains_key(k) ==> (#[trigger] self.peers@[k]).wf()
    }

    pub fn empty(now: u64) -> (r: TorrentEntry)
        ensures
            r.wf(),
            r.seeds@ == Map::<Seq<u8>, TorrentPeer>::empty(),
            r.peers@ == Map::<Seq<u8>, TorrentPeer>::empty(),
            r.completed == 0,
            r.updated == now,
    {
        TorrentEntry {
            seeds: AssocMap::new(),
            peers: AssocMap::new(),
            completed: 0,
            updated: now,
        }
    }
}

/// Every sequence of announces keeps the buckets of a torrent disjoint.
pub proof fn lemma_bucket_disjoint(e: TorrentEntry, k: Seq<u8>)
    requires
        e.wf(),
    ensures
        !(e.seeds@.contains_key(k) && e.peers@.contains_key(k)),
{
}

/// The seeds bucket after an announce: a stop removes the peer, a
/// completion or a report of nothing left files it here, anything else
/// clears it from here.
pub open spec fn seeds_after(
    seeds: Map<Seq<u8>, TorrentPeer>,
    pid: Seq<u8>,
    p: TorrentPeer,
    event: AnnounceEvent,
    left: u64,
) -> Map<Seq<u8>, TorrentPeer> {
    if event == AnnounceEvent::Stopped {
        seeds.remove(pid)
    } else if event == AnnounceEvent::Completed || left == 0 {
        seeds.insert(pid, p)
    } else {
        seeds.remove(pid)
    }
}

/// The leecher bucket after an announce: only a peer that still has bytes
/// left and did not stop or complete stands here.
pub open spec fn peers_after(
    peers: Map<Seq<u8>, TorrentPeer>,
    pid: Seq<u8>,
    p: TorrentPeer,
    event: AnnounceEvent,
    left: u64,
) -> Map<Seq<u8>, TorrentPeer> {
    if event == AnnounceEvent::Stopped {
        peers.remove(pid)
    } else if event == AnnounceEvent::Completed || left == 0 {
        peers.remove(pid)
    } else {
        peers.insert(pid, p)
    }
}

/// The completion counter after an announce: a completion event adds one,
/// saturating at the counter's limit; nothing else changes it.
pub open spec fn completed_after(completed: u64, event: AnnounceEvent) -> u64 {
    if event == AnnounceEvent::Completed {
        if completed == u64::MAX {
            completed
        } else {
            (completed + 1) as u64
        }
    } else {
        completed
    }
}

/// The completion counter never decreases, and a completion event below
/// the limit raises it by exactly one.
pub proof fn lemma_completed_monotonic(completed: u64, event: AnnounceEvent)
    ensures
        completed_after(completed, event) >= completed,
        event == AnnounceEvent::Completed && completed < u64::MAX ==> completed_after(
            completed,
            event,
        ) == completed + 1,
        event != AnnounceEvent::Completed ==> completed_after(completed, event) == completed,
{
}

pub open spec fn seeds_view(m: Map<Seq<u8>, TorrentEntry>, h: Seq<u8>) -> Map<Seq<u8>, TorrentPeer> {
    if m.contains_key(h) {
        m[h].seeds@
    } else {
        Map::<Seq<u8>, TorrentPeer>::empty()
    }
}

pub open spec fn peers_view(m: Map<Seq<u8>, TorrentEntry>, h: Seq<u8>) -> Map<Seq<u8>, TorrentPeer> {
    if m.contains_key(h) {
        m[h].peers@
    } else {
        Map::<Seq<u8>, TorrentPeer>::empty()
    }
}

pub open spec fn completed_view(m: Map<Seq<u8>, TorrentEntry>, h: Seq<u8>) -> u64 {
    if m.contains_key(h) {
        m[h].completed
    } else {
        0
    }
}

/// What an announce reports back: the bucket sizes and the completion
/// count after the transition, and whether the torrent was new.
pub struct AnnounceOutcome {
    pub complete: u64,
    pub incomplete: u64,
    pub downloaded: u64,
    pub created: bool,
}

/// What one selected peer of an announce response looks like in
/// specifications.
pub struct SelectedPeerView {
    pub id: Seq<u8>,
    pub is_v6: bool,
    pub ip: Seq<u8>,
    pub port: u16,
}

/// One peer of an announce response: its id and its address.
pub struct SelectedPeer {
    pub id: Vec<u8>,
    pub addr: PeerAddr,
}

impl View for SelectedPeer {
    type V = SelectedPeerView;

    open spec fn view(&self) -> SelectedPeerView {
        SelectedPeerView {
            id: self.id@,
            is_v6: self.addr.is_v6,
            ip: self.addr.ip@,
            port: self.addr.port,
        }
    }
}

pub open spec fn sel_of(pid: Seq<u8>, p: TorrentPeer) -> SelectedPeerView {
    SelectedPeerView { id: pid, is_v6: p.addr.is_v6, ip: p.addr.ip@, port: p.addr.port }
}

/// A bucket's entries that an announce response may list: every peer of
/// the requested address family except the requester, in key order.
pub open spec fn filter_sel(
    s: Seq<(Vec<u8>, TorrentPeer)>,
    req: Seq<u8>,
    v6: bool,
) -> Seq<SelectedPeerView>
    decreases s.len(),
{
    if s.len() == 0 {
        Seq::<SelectedPeerView>::empty()
    } else {
        let rest = filter_sel(s.drop_first(), req, v6);
        if s[0].0@ != req && s[0].1.addr.is_v6 == v6 {
            seq![sel_of(s[0].0@, s[0].1)] + rest
        } else {
            rest
        }
    }
}

pub proof fn lemma_filter_sel_concat(
    a: Seq<(Vec<u8>, TorrentPeer)>,
    b: Seq<(Vec<u8>, TorrentPeer)>,
    req: Seq<u8>,
    v6: bool,
)
    ensures
        filter_sel(a + b, req, v6) == filter_sel(a, req, v6) + filter_sel(b, req, v6),
    decreases a.len(),
{
    if a.len() == 0 {
        assert(a + b =~= b);
        assert(filter_sel(a, req, v6) + filter_sel(b, req, v6) =~= filter_sel(b, req, v6));
    } else {
        assert((a + b)[0] == a[0]);
        assert((a + b).drop_first() =~= a.drop_first() + b);
        lemma_filter_sel_concat(a.drop_first(), b, req, v6);
        assert(filter_sel(a + b, req, v6) =~= filter_sel(a, req, v6) + filter_sel(b, req, v6));
    }
}

/// At most the first `n` items of a selection.
pub open spec fn take_upto(s: Seq<SelectedPeerView>, n: int) -> Seq<SelectedPeerView> {
    if n <= s.len() {
        s.take(n)
    } else {
        s
    }
}

pub open spec fn views_of(v: Seq<SelectedPeer>) -> Seq<SelectedPeerView> {
    v.map_values(|sp: SelectedPeer| sp@)
}

/// Appends one bucket's eligible peers to a partial selection, stopping
/// at `numwant` items in all.
fn push_bucket(
    out: &mut Vec<SelectedPeer>,
    m: &AssocMap<TorrentPeer>,
    requester: &PeerId,
    want_v6: bool,
    numwant: usize,
    Ghost(base): Ghost<Seq<SelectedPeerView>>,
)
    requires
        views_of(old(out)@) == take_upto(base, numwant as int),
    ensures
        views_of(final(out)@) == take_upto(
            base + filter_sel(m.entries@, requester@, want_v6),
            numwant as int,
        ),
{
    let mut i: usize = 0;
    let blen = m.len();
    proof {
        assert(m.entries@.take(0) =~= Seq::<(Vec<u8>, TorrentPeer)>::empty());
        assert(views_of(out@).len() == out@.len());
        assert(base + filter_sel(m.entries@.take(0), requester@, want_v6) =~= base);
    }
    while i < blen && out.len() < numwant
        invariant
            0 <= i <= blen,
            blen == m.spec_len(),
            out@.len() <= numwant,
            views_of(out@) == take_upto(
                base + filter_sel(m.entries@.take(i as int), requester@, want_v6),
                numwant as int,
            ),
        decreases blen - i,
    {
        let ghost f_i = base + filter_sel(m.entries@.take(i as int), requester@, want_v6);
        proof {
            assert(views_of(out@).len() == out@.len());
            assert(f_i.len() == views_of(out@).len());
            assert(take_upto(f_i, numwant as int) =~= f_i);
        }
        let (k, v) = m.entry_at(i);
        let eligible = !crate::order::bytes_eq(k, &requester.bytes) && v.addr.is_v6 == want_v6;
        proof {
            assert(m.entries@.take(i as int + 1) =~= m.entries@.take(i as int) + seq![
                m.entries@[i as int],
            ]);
            lemma_filter_sel_concat(
                m.entries@.take(i as int),
                seq![m.entries@[i as int]],
                requester@,
                want_v6,
            );
            let one = seq![m.entries@[i as int]];
            assert(one.drop_first() =~= Seq::<(Vec<u8>, TorrentPeer)>::empty());
            assert(filter_sel(one.drop_first(), requester@, want_v6)
                =~= Seq::<SelectedPeerView>::empty());
            if one[0].0@ != requester@ && one[0].1.addr.is_v6 == want_v6 {
                assert(filter_sel(one, requester@, want_v6) =~= seq![sel_of(one[0].0@, one[0].1)]);
            } else {
                assert(filter_sel(one, requester@, want_v6) =~= Seq::<SelectedPeerView>::empty());
            }
        }
        if eligible {
            let sp = SelectedPeer { id: clone_bytes(k), addr: v.addr.duplicate() };
            proof {
                assert(sp@ == sel_of(m.entries@[i as int].0@, m.entries@[i as int].1));
            }
            let ghost pre_out = out@;
            out.push(sp);
            proof {
                assert(views_of(out@) =~= views_of(pre_out).push(sp@));
                let f_n = base + filter_sel(m.entries@.take(i as int + 1), requester@, want_v6);
                assert(f_n =~= f_i.push(sp@));
                assert(views_of(out@) =~= take_upto(f_n, numwant as int));
            }
        } else {
            proof {
                assert(base + filter_sel(m.entries@.take(i as int + 1), requester@, want_v6)
                    =~= f_i);
            }
        }
        i = i + 1;
    }
    proof {
        let full = base + filter_sel(m.entries@, requester@, want_v6);
        if i == blen {
            assert(m.entries@.take(blen as int) =~= m.entries@);
        } else {
            let f_i = base + filter_sel(m.entries@.take(i as int), requester@, want_v6);
            assert(out@.len() == numwant);
            assert(views_of(out@).len() == out@.len());
            assert(f_i.len() >= numwant);
            assert(m.entries@ =~= m.entries@.take(i as int) + m.entries@.skip(i as int));
            lemma_filter_sel_concat(
                m.entries@.take(i as int),
                m.entries@.skip(i as int),
                requester@,
                want_v6,
            );
            assert(full =~= f_i + filter_sel(m.entries@.skip(i as int), requester@, want_v6));
            assert(take_upto(full, numwant as int) =~= take_upto(f_i, numwant as int));
        }
    }
}

/// The response peer list of an announce: up to `numwant` peers of the
/// requested family, leechers first, then seeds, each bucket in peer-id
/// order, the requester skipped.
pub fn select_peers(
    entry: &TorrentEntry,
    requester: &PeerId,
    want_v6: bool,
    numwant: usize,
) -> (r: Vec<SelectedPeer>)
    ensures
        views_of(r@) == take_upto(
            filter_sel(entry.peers.entries@, requester@, want_v6) + filter_sel(
                entry.seeds.entries@,
                requester@,
                want_v6,
            ),
            numwant as int,
        ),
{
    let mut out: Vec<SelectedPeer> = Vec::new();
    proof {
        assert(views_of(out@) =~= take_upto(
            Seq::<SelectedPeerView>::empty(),
            numwant as int,
        ));
    }
    push_bucket(
        &mut out,
        &entry.peers,
        requester,
        want_v6,
        numwant,
        Ghost(Seq::<SelectedPeerView>::empty()),
    );
    proof {
        assert(Seq::<SelectedPeerView>::empty() + filter_sel(
            entry.peers.entries@,
            requester@,
            want_v6,
        ) =~= filter_sel(entry.peers.entries@, requester@, want_v6));
    }
    push_bucket(
        &mut out,
        &entry.seeds,
        requester,
        want_v6,
        numwant,
        Ghost(filter_sel(entry.peers.entries@, requester@, want_v6)),
    );
    out
}

/// A peer that announced last at `updated` has timed out at `now` when
/// more than `timeout` seconds passed since.
pub open spec fn peer_expired(p: TorrentPeer, now: u64, timeout: u64) -> bool {
    p.updated + timeout < now
}

/// One bucket after the eviction sweep: exactly the peers that had not
/// timed out remain, unchanged.
pub open spec fn bucket_pruned(
    new: Map<Seq<u8>, TorrentPeer>,
    prev: Map<Seq<u8>, TorrentPeer>,
    now: u64,
    timeout: u64,
) -> bool {
    &&& forall|k: Seq<u8>| #[trigger]
        new.contains_key(k) ==> prev.contains_key(k) && new[k] == prev[k] && !peer_expired(
            prev[k],
            now,
            timeout,
        )
    &&& forall|k: Seq<u8>| #[trigger]
        prev.contains_key(k) && !peer_expired(prev[k], now, timeout) ==> new.contains_key(k)
}

/// A peer that timed out is absent from a pruned bucket.
pub proof fn lemma_peer_evicted(
    new: Map<Seq<u8>, TorrentPeer>,
    prev: Map<Seq<u8>, TorrentPeer>,
    now: u64,
    timeout: u64,
    k: Seq<u8>,
)
    requires
        bucket_pruned(new, prev, now, timeout),
        prev.contains_key(k),
        peer_expired(prev[k], now, timeout),
    ensures
        !new.contains_key(k),
{
}

/// Removes the peers of one bucket whose last announce lies further back
/// than the timeout.
fn prune_bucket(m: &mut AssocMap<TorrentPeer>, now: u64, timeout: u64)
    requires
        old(m).wf(),
    ensures
        final(m).wf(),
        bucket_pruned(final(m)@, old(m)@, now, timeout),
{
    let mut i = m.len();
    while i > 0
        invariant
            m.wf(),
            i <= m.spec_len(),
            forall|j: int| i <= j < m.spec_len() ==> !peer_expired(m.val_at(j), now, timeout),
            forall|k: Seq<u8>| #[trigger]
                m@.contains_key(k) ==> old(m)@.contains_key(k) && m@[k] == old(m)@[k],
            forall|k: Seq<u8>| #[trigger]
                old(m)@.contains_key(k) && !peer_expired(old(m)@[k], now, timeout)
                    ==> m@.contains_key(k),
        decreases i,
    {
        i = i - 1;
        let expired = {
            let (_, v) = m.entry_at(i);
            v.updated < now && now - v.updated > timeout
        };
        if expired {
            let ghost pre = *m;
            proof {
                m.lemma_view();
            }
            let removed = m.remove_at(i);
            proof {
                assert forall|j: int| i <= j < m.spec_len() implies !peer_expired(
                    m.val_at(j),
                    now,
                    timeout,
                ) by {
                    assert(m.entries@[j] == pre.entries@[j + 1]);
                    assert(!peer_expired(pre.val_at(j + 1), now, timeout));
                }
                assert(peer_expired(old(m)@[removed.0@], now, timeout));
            }
        }
    }
    proof {
        m.lemma_view();
        assert forall|k: Seq<u8>| #[trigger] m@.contains_key(k) implies old(m)@.contains_key(k)
            && m@[k] == old(m)@[k] && !peer_expired(old(m)@[k], now, timeout) by {
            let j = choose|j: int| 0 <= j < m.spec_len() && m.key_at(j) == k;
            assert(m@[k] == m.val_at(j));
        }
    }
}

/// What the eviction sweep leaves of the whole store: every torrent
/// survives with both buckets pruned and its counters kept.
pub open spec fn store_pruned(
    new: Map<Seq<u8>, TorrentEntry>,
    prev: Map<Seq<u8>, TorrentEntry>,
    now: u64,
    timeout: u64,
) -> bool {
    &&& new.dom() == prev.dom()
    &&& forall|h: Seq<u8>| #[trigger]
        prev.contains_key(h) ==> bucket_pruned(new[h].seeds@, prev[h].seeds@, now, timeout)
            && bucket_pruned(new[h].peers@, prev[h].peers@, now, timeout) && new[h].completed
            == prev[h].completed && new[h].updated == prev[h].updated
}

/// The store of all torrents, keyed by info-hash, with the update
/// journal the persistence pipeline drains.
pub struct TorrentStore {
    pub torrents: AssocMap<TorrentEntry>,
    pub journal: AssocMap<UpdatesAction>,
}

impl TorrentStore {
    pub open spec fn wf(self) -> bool {
        &&& self.torrents.wf()
        &&& self.journal.wf()
        &&& forall|k: Seq<u8>|
            self.torrents@.contains_key(k) ==> (#[trigger] self.torrents@[k]).wf()
    }

    pub fn new() -> (r: TorrentStore)
        ensures
            r.wf(),
            r.torrents@ == Map::<Seq<u8>, TorrentEntry>::empty(),
            r.journal@ == Map::<Seq<u8>, UpdatesAction>::empty(),
    {
        TorrentStore { torrents: AssocMap::new(), journal: AssocMap::new() }
    }

    /// Journals the torrent as added or, over a pending removal, updated.
    fn journal_add(&mut self, info_hash: &InfoHash)
        requires
            old(self).journal.wf(),
        ensures
            final(self).journal.wf(),
            final(self).journal@ == journal_after_add(old(self).journal@, info_hash@),
            final(self).torrents == old(self).torrents,
    {
        let action = match self.journal.get(&info_hash.bytes) {
            Some(a) => match a {
                UpdatesAction::Remove => UpdatesAction::Update,
                _ => UpdatesAction::Add,
            },
            None => UpdatesAction::Add,
        };
        self.journal.insert(clone_bytes(&info_hash.bytes), action);
    }

    /// Journals the torrent's removal, cancelling a pending addition when
    /// removals are not persisted.
    fn journal_remove(&mut self, info_hash: &InfoHash, remove_action: bool)
        requires
            old(self).journal.wf(),
        ensures
            final(self).journal.wf(),
            final(self).journal@ == journal_after_remove(
                old(self).journal@,
                info_hash@,
                remove_action,
            ),
            final(self).torrents == old(self).torrents,
    {
        let cancel = if !remove_action {
            match self.journal.get(&info_hash.bytes) {
                Some(a) => match a {
                    UpdatesAction::Add => true,
                    _ => false,
                },
                None => false,
            }
        } else {
            false
        };
        if cancel {
            self.journal.remove(&info_hash.bytes);
        } else {
            self.journal.insert(clone_bytes(&info_hash.bytes), UpdatesAction::Remove);
        }
    }

    /// The pending journal entries, in key order, for a persistence run.
    pub fn journal_snapshot(&self) -> (r: Vec<(Vec<u8>, UpdatesAction)>)
        ensures
            r@.len() == self.journal.spec_len(),
            forall|j: int|
                0 <= j < r@.len() ==> (#[trigger] r@[j]).0@ == self.journal.key_at(j) && r@[j].1
                    == self.journal.val_at(j),
            self.wf() ==> forall|i: int, j: int|
                0 <= i < j < r@.len() ==> (#[trigger] r@[i]).0@ != (#[trigger] r@[j]).0@,
    {
        let r = self.journal.snapshot_entries();
        proof {
            if self.wf() {
                assert forall|i: int, j: int| 0 <= i < j < r@.len() implies (#[trigger] r@[i]).0@
                    != (#[trigger] r@[j]).0@ by {
                    crate::order::lemma_lex_irreflexive(r@[i].0@);
                }
            }
        }
        r
    }

    /// Forgets the journalled changes, after a successful persistence run.
    pub fn clear_journal(&mut self)
        requires
            old(self).wf(),
        ensures
            final(self).wf(),
            final(self).torrents == old(self).torrents,
            final(self).journal@ == Map::<Seq<u8>, UpdatesAction>::empty(),
    {
        self.journal = AssocMap::new();
    }

    /// How many torrents the store holds.
    pub fn len(&self) -> (r: usize)
        requires
            self.wf(),
        ensures
            r == self.torrents@.dom().len(),
    {
        proof {
            self.torrents.lemma_view();
        }
        self.torrents.len()
    }

    /// Adds a torrent entry if the key is absent; an existing entry is
    /// preserved and `false` comes back.
    pub fn add_torrent(&mut self, info_hash: &InfoHash, torrent_entry: TorrentEntry) -> (added:
        bool)
        requires
            old(self).wf(),
            info_hash.wf(),
            torrent_entry.wf(),
        ensures
            final(self).wf(),
            added == !old(self).torrents@.contains_key(info_hash@),
            added ==> final(self).torrents@ == old(self).torrents@.insert(
                info_hash@,
                torrent_entry,
            ),
            added ==> final(self).journal@ == journal_after_add(old(self).journal@, info_hash@),
            !added ==> *final(self) == *old(self),
    {
        if self.torrents.contains(&info_hash.bytes) {
            return false;
        }
        let key = clone_bytes(&info_hash.bytes);
        self.torrents.insert(key, torrent_entry);
        self.journal_add(info_hash);
        proof {
            assert forall|k: Seq<u8>| final(self).torrents@.contains_key(k) implies (
            #[trigger] final(self).torrents@[k]).wf() by {
                if k != info_hash@ {
                    assert(old(self).torrents@[k].wf());
                }
            }
        }
        true
    }

    /// A borrowed snapshot of a torrent entry.
    pub fn get_torrent(&self, info_hash: &InfoHash) -> (r: Option<&TorrentEntry>)
        requires
            self.wf(),
        ensures
            match r {
                Some(e) => self.torrents@.contains_key(info_hash@) && *e
                    == self.torrents@[info_hash@],
                None => !self.torrents@.contains_key(info_hash@),
            },
    {
        self.torrents.get(&info_hash.bytes)
    }

    pub fn remove_torrent(&mut self, info_hash: &InfoHash, remove_action: bool) -> (r: Option<TorrentEntry>)
        requires
            old(self).wf(),
        ensures
            final(self).wf(),
            final(self).torrents@ == old(self).torrents@.remove(info_hash@),
            match r {
                Some(e) => old(self).torrents@.contains_key(info_hash@) && e == old(self).torrents@[info_hash@],
                None => !old(self).torrents@.contains_key(info_hash@),
            },
    {
        let r = self.torrents.remove(&info_hash.bytes);
        proof {
            assert forall|k: Seq<u8>| final(self).torrents@.contains_key(k) implies (
            #[trigger] final(self).torrents@[k]).wf() by {
                assert(old(self).torrents@[k].wf());
            }
        }
        r
    }

    /// The announce state transition, the one mutation path of a swarm:
    /// looks the torrent up or creates it, files the peer by `(event,
    /// left)`, counts a completion, and stamps the entry.
    pub fn announce(
        &mut self,
        info_hash: &InfoHash,
        peer_id: &PeerId,
        addr: PeerAddr,
        uploaded: u64,
        downloaded: u64,
        left: u64,
        event: AnnounceEvent,
        now: u64,
    ) -> (outcome: AnnounceOutcome)
        requires
            old(self).wf(),
            info_hash.wf(),
            peer_id.wf(),
            addr.wf(),
        ensures
            final(self).wf(),
            final(self).torrents@.dom() == old(self).torrents@.dom().insert(info_hash@),
            final(self).torrents@.contains_key(info_hash@),
            ({
                let oldmap = old(self).torrents@;
                let e = final(self).torrents@[info_hash@];
                let p = (TorrentPeer { addr, uploaded, downloaded, left, event, updated: now });
                &&& e.seeds@ == seeds_after(seeds_view(oldmap, info_hash@), peer_id@, p, event, left)
                &&& e.peers@ == peers_after(peers_view(oldmap, info_hash@), peer_id@, p, event, left)
                &&& e.completed == completed_after(completed_view(oldmap, info_hash@), event)
                &&& e.updated == now
            }),
            forall|k: Seq<u8>|
                k != info_hash@ && old(self).torrents@.contains_key(k)
                    ==> final(self).torrents@.contains_key(k) && final(self).torrents@[k] == old(self).torrents@[k],
            outcome.created == !old(self).torrents@.contains_key(info_hash@),
            final(self).journal@ == journal_after_add(old(self).journal@, info_hash@),
            outcome.complete == final(self).torrents@[info_hash@].seeds@.dom().len(),
            outcome.incomplete == final(self).torrents@[info_hash@].peers@.dom().len(),
            outcome.downloaded == final(self).torrents@[info_hash@].completed,
    {
        let key = clone_bytes(&info_hash.bytes);
        let pid = clone_bytes(&peer_id.bytes);
        let (mut entry, created) = match self.torrents.remove(&key) {
            Some(e) => (e, false),
            None => (TorrentEntry::empty(now), true),
        };
        proof {
            if !created {
                assert(old(self).torrents@[info_hash@].wf());
            }
        }
        let peer = TorrentPeer { addr, uploaded, downloaded, left, event, updated: now };
        let file_as_seed: bool = match event {
            AnnounceEvent::Stopped => false,
            AnnounceEvent::Completed => true,
            _ => left == 0,
        };
        match event {
            AnnounceEvent::Stopped => {
                entry.seeds.remove(&pid);
                entry.peers.remove(&pid);
            },
            _ => {
                if file_as_seed {
                    entry.peers.remove(&pid);
                    entry.seeds.insert(pid, peer);
                } else {
                    entry.seeds.remove(&pid);
                    entry.peers.insert(pid, peer);
                }
            },
        }
        match event {
            AnnounceEvent::Completed => {
                if entry.completed < u64::MAX {
                    entry.completed = entry.completed + 1;
                }
            },
            _ => {},
        }
        entry.updated = now;
        proof {
            entry.seeds.lemma_view();
            entry.peers.lemma_view();
        }
        let complete = entry.seeds.len() as u64;
        let incomplete = entry.peers.len() as u64;
        let downloaded = entry.completed;
        self.torrents.insert(key, entry);
        self.journal_add(info_hash);
        proof {
            assert forall|k: Seq<u8>| final(self).torrents@.contains_key(k) implies (
            #[trigger] final(self).torrents@[k]).wf() by {
                if k != info_hash@ {
                    assert(old(self).torrents@[k].wf());
                }
            }
            assert(final(self).torrents@.dom() =~= old(self).torrents@.dom().insert(info_hash@));
        }
        AnnounceOutcome { complete, incomplete, downloaded, created }
    }

    /// The eviction sweep: removes peers whose last announce lies more
    /// than `timeout` seconds before `now`; empty torrents remain.
    pub fn clean_peers(&mut self, now: u64, timeout: u64)
        requires
            old(self).wf(),
        ensures
            final(self).wf(),
            store_pruned(final(self).torrents@, old(self).torrents@, now, timeout),
    {
        let len = self.torrents.len();
        let mut i: usize = 0;
        proof {
            self.torrents.lemma_view();
            assert forall|j: int| 0 <= j < len implies (#[trigger] self.torrents.val_at(j)).wf() by {
                assert(self.torrents@[self.torrents.key_at(j)].wf());
            }
        }
        while i < len
            invariant
                old(self).wf(),
                self.torrents.wf(),
                self.journal == old(self).journal,
                len == self.torrents.spec_len(),
                len == old(self).torrents.spec_len(),
                0 <= i <= len,
                forall|j: int|
                    0 <= j < len ==> #[trigger] self.torrents.key_at(j) == old(self).torrents.key_at(j),
                forall|j: int|
                    i <= j < len ==> #[trigger] self.torrents.val_at(j) == old(self).torrents.val_at(j),
                forall|j: int| 0 <= j < len ==> (#[trigger] self.torrents.val_at(j)).wf(),
                forall|j: int|
                    0 <= j < i ==> ({
                        let nv = #[trigger] self.torrents.val_at(j);
                        let pv = old(self).torrents.val_at(j);
                        &&& bucket_pruned(nv.seeds@, pv.seeds@, now, timeout)
                        &&& bucket_pruned(nv.peers@, pv.peers@, now, timeout)
                        &&& nv.completed == pv.completed
                        &&& nv.updated == pv.updated
                    }),
            decreases len - i,
        {
            let ghost prev_self = *self;
            let mut entry = self.torrents.set_val_at(i, TorrentEntry::empty(0));
            let ghost old_entry = entry;
            proof {
                assert(old_entry == old(self).torrents.val_at(i as int));
                assert(old_entry.wf());
            }
            prune_bucket(&mut entry.seeds, now, timeout);
            prune_bucket(&mut entry.peers, now, timeout);
            let ghost new_entry = entry;
            let _ = self.torrents.set_val_at(i, entry);
            proof {
                assert(new_entry.wf()) by {
                    assert forall|k: Seq<u8>| #[trigger]
                        new_entry.seeds@.contains_key(k) implies !new_entry.peers@.contains_key(
                        k,
                    ) by {
                        assert(old_entry.seeds@.contains_key(k));
                        if new_entry.peers@.contains_key(k) {
                            assert(old_entry.peers@.contains_key(k));
                        }
                    }
                    assert forall|k: Seq<u8>| new_entry.seeds@.contains_key(k) implies (
                    #[trigger] new_entry.seeds@[k]).wf() by {
                        assert(new_entry.seeds@[k] == old_entry.seeds@[k]);
                        assert(old_entry.seeds@[k].wf());
                    }
                    assert forall|k: Seq<u8>| new_entry.peers@.contains_key(k) implies (
                    #[trigger] new_entry.peers@[k]).wf() by {
                        assert(new_entry.peers@[k] == old_entry.peers@[k]);
                        assert(old_entry.peers@[k].wf());
                    }
                }
                assert forall|j: int| 0 <= j < len implies #[trigger] self.torrents.key_at(j)
                    == old(self).torrents.key_at(j) by {
                    assert(prev_self.torrents.key_at(j) == old(self).torrents.key_at(j));
                }
                assert forall|j: int|
                    i + 1 <= j < len implies #[trigger] self.torrents.val_at(j) == old(
                    self,
                ).torrents.val_at(j) by {
                    assert(prev_self.torrents.val_at(j) == old(self).torrents.val_at(j));
                }
                assert forall|j: int| 0 <= j < len implies (
                #[trigger] self.torrents.val_at(j)).wf() by {
                    if j != i {
                        assert(prev_self.torrents.val_at(j).wf());
                    }
                }
                assert forall|j: int| 0 <= j <= i implies ({
                    let nv = #[trigger] self.torrents.val_at(j);
                    let pv = old(self).torrents.val_at(j);
                    &&& bucket_pruned(nv.seeds@, pv.seeds@, now, timeout)
                    &&& bucket_pruned(nv.peers@, pv.peers@, now, timeout)
                    &&& nv.completed == pv.completed
                    &&& nv.updated == pv.updated
                }) by {
                    if j < i {
                        assert(self.torrents.val_at(j) == prev_self.torrents.val_at(j));
                    } else {
                        assert(self.torrents.val_at(j) == new_entry);
                    }
                }
            }
            i = i + 1;
        }
        proof {
            self.torrents.lemma_view();
            old(self).torrents.lemma_view();
            assert(final(self).torrents@.dom() =~= old(self).torrents@.dom()) by {
                assert forall|h: Seq<u8>| final(self).torrents@.contains_key(h) implies old(self).torrents@.contains_key(h) by {
                    let j = choose|j: int|
                        0 <= j < self.torrents.spec_len() && self.torrents.key_at(j) == h;
                    assert(old(self).torrents.key_at(j) == h);
                }
                assert forall|h: Seq<u8>| old(self).torrents@.contains_key(h) implies final(self).torrents@.contains_key(h) by {
                    let j = choose|j: int|
                        0 <= j < old(self).torrents.spec_len() && old(self).torrents.key_at(j)
                            == h;
                    assert(self.torrents.key_at(j) == h);
                }
            }
            assert forall|h: Seq<u8>| #[trigger] old(self).torrents@.contains_key(h) implies ({
                let nv = final(self).torrents@[h];
                let pv = old(self).torrents@[h];
                &&& bucket_pruned(nv.seeds@, pv.seeds@, now, timeout)
                &&& bucket_pruned(nv.peers@, pv.peers@, now, timeout)
                &&& nv.completed == pv.completed
                &&& nv.updated == pv.updated
            }) by {
                let j = choose|j: int|
                    0 <= j < old(self).torrents.spec_len() && old(self).torrents.key_at(j) == h;
                assert(self.torrents.key_at(j) == h);
                assert(final(self).torrents@[h] == self.torrents.val_at(j));
                assert(old(self).torrents@[h] == old(self).torrents.val_at(j));
            }
            assert forall|k: Seq<u8>| final(self).torrents@.contains_key(k) implies (
            #[trigger] final(self).torrents@[k]).wf() by {
                let j = choose|j: int|
                    0 <= j < self.torrents.spec_len() && self.torrents.key_at(j) == k;
                assert(final(self).torrents@[k] == self.torrents.val_at(j));
            }
        }
    }

    /// Empties the seed and leecher buckets of every torrent, keeping the
    /// completion counters: the in-memory side of the boot-time reset.
    pub fn reset_seeds_peers(&mut self)
        requires
            old(self).wf(),
        ensures
            final(self).wf(),
            final(self).torrents@.dom() == old(self).torrents@.dom(),
            forall|h: Seq<u8>| #[trigger]
                old(self).torrents@.contains_key(h) ==> ({
                    let nv = final(self).torrents@[h];
                    let pv = old(self).torrents@[h];
                    &&& nv.seeds@ == Map::<Seq<u8>, TorrentPeer>::empty()
                    &&& nv.peers@ == Map::<Seq<u8>, TorrentPeer>::empty()
                    &&& nv.completed == pv.completed
                    &&& nv.updated == pv.updated
                }),
    {
        let len = self.torrents.len();
        let mut i: usize = 0;
        proof {
            self.torrents.lemma_view();
            assert forall|j: int| 0 <= j < len implies (#[trigger] self.torrents.val_at(j)).wf() by {
                assert(self.torrents@[self.torrents.key_at(j)].wf());
            }
        }
        while i < len
            invariant
                old(self).wf(),
                self.torrents.wf(),
                self.journal == old(self).journal,
                len == self.torrents.spec_len(),
                len == old(self).torrents.spec_len(),
                0 <= i <= len,
                forall|j: int|
                    0 <= j < len ==> #[trigger] self.torrents.key_at(j) == old(self).torrents.key_at(j),
                forall|j: int|
                    i <= j < len ==> #[trigger] self.torrents.val_at(j) == old(self).torrents.val_at(j),
                forall|j: int| 0 <= j < len ==> (#[trigger] self.torrents.val_at(j)).wf(),
                forall|j: int|
                    0 <= j < i ==> ({
                        let nv = #[trigger] self.torrents.val_at(j);
                        let pv = old(self).torrents.val_at(j);
                        &&& nv.seeds@ == Map::<Seq<u8>, TorrentPeer>::empty()
                        &&& nv.peers@ == Map::<Seq<u8>, TorrentPeer>::empty()
                        &&& nv.completed == pv.completed
                        &&& nv.updated == pv.updated
                    }),
            decreases len - i,
        {
            let ghost prev_self = *self;
            let (completed, updated) = {
                let (_, v) = self.torrents.entry_at(i);
                (v.completed, v.updated)
            };
            let _ = self.torrents.set_val_at(
                i,
                TorrentEntry {
                    seeds: AssocMap::new(),
                    peers: AssocMap::new(),
                    completed,
                    updated,
                },
            );
            proof {
                assert forall|j: int| 0 <= j < len implies #[trigger] self.torrents.key_at(j)
                    == old(self).torrents.key_at(j) by {
                    assert(prev_self.torrents.key_at(j) == old(self).torrents.key_at(j));
                }
                assert forall|j: int|
                    i + 1 <= j < len implies #[trigger] self.torrents.val_at(j) == old(
                    self,
                ).torrents.val_at(j) by {
                    assert(prev_self.torrents.val_at(j) == old(self).torrents.val_at(j));
                }
                assert forall|j: int| 0 <= j < len implies (
                #[trigger] self.torrents.val_at(j)).wf() by {
                    if j != i {
                        assert(prev_self.torrents.val_at(j).wf());
                    }
                }
                assert forall|j: int| 0 <= j <= i implies ({
                    let nv = #[trigger] self.torrents.val_at(j);
                    let pv = old(self).torrents.val_at(j);
                    &&& nv.seeds@ == Map::<Seq<u8>, TorrentPeer>::empty()
                    &&& nv.peers@ == Map::<Seq<u8>, TorrentPeer>::empty()
                    &&& nv.completed == pv.completed
                    &&& nv.updated == pv.updated
                }) by {
                    if j < i {
                        assert(self.torrents.val_at(j) == prev_self.torrents.val_at(j));
                    } else {
                        assert(prev_self.torrents.val_at(j) == old(self).torrents.val_at(j));
                    }
                }
            }
            i = i + 1;
        }
        proof {
            self.torrents.lemma_view();
            old(self).torrents.lemma_view();
            assert(final(self).torrents@.dom() =~= old(self).torrents@.dom()) by {
                assert forall|h: Seq<u8>| final(self).torrents@.contains_key(h) implies old(self).torrents@.contains_key(h) by {
                    let j = choose|j: int|
                        0 <= j < self.torrents.spec_len() && self.torrents.key_at(j) == h;
                    assert(old(self).torrents.key_at(j) == h);
                }
                assert forall|h: Seq<u8>| old(self).torrents@.contains_key(h) implies final(self).torrents@.contains_key(h) by {
                    let j = choose|j: int|
                        0 <= j < old(self).torrents.spec_len() && old(self).torrents.key_at(j)
                            == h;
                    assert(self.torrents.key_at(j) == h);
                }
            }
            assert forall|h: Seq<u8>| #[trigger] old(self).torrents@.contains_key(h) implies ({
                let nv = final(self).torrents@[h];
                let pv = old(self).torrents@[h];
                &&& nv.seeds@ == Map::<Seq<u8>, TorrentPeer>::empty()
                &&& nv.peers@ == Map::<Seq<u8>, TorrentPeer>::empty()
                &&& nv.completed == pv.completed
                &&& nv.updated == pv.updated
            }) by {
                let j = choose|j: int|
                    0 <= j < old(self).torrents.spec_len() && old(self).torrents.key_at(j) == h;
                assert(self.torrents.key_at(j) == h);
                assert(final(self).torrents@[h] == self.torrents.val_at(j));
                assert(old(self).torrents@[h] == old(self).torrents.val_at(j));
            }
            assert forall|k: Seq<u8>| final(self).torrents@.contains_key(k) implies (
            #[trigger] final(self).torrents@[k]).wf() by {
                let j = choose|j: int|
                    0 <= j < self.torrents.spec_len() && self.torrents.key_at(j) == k;
                assert(final(self).torrents@[k] == self.torrents.val_at(j));
            }
        }
    }

    /// The aggregate counts a scrape reports for one info-hash:
    /// `(complete, downloaded, incomplete)`, zeros for an unknown hash.
    pub fn scrape_torrent(&self, info_hash: &InfoHash) -> (r: (u64, u64, u64))
        requires
            self.wf(),
        ensures
            self.torrents@.contains_key(info_hash@) ==> ({
                let e = self.torrents@[info_hash@];
                r.0 == e.seeds@.dom().len() && r.1 == e.completed && r.2 == e.peers@.dom().len()
            }),
            !self.torrents@.contains_key(info_hash@) ==> r == (0u64, 0u64, 0u64),
    {
        match self.torrents.get(&info_hash.bytes) {
            Some(e) => {
                proof {
                    assert(e.wf());
                    e.seeds.lemma_view();
                    e.peers.lemma_view();
                }
                (e.seeds.len() as u64, e.completed, e.peers.len() as u64)
            },
            None => (0, 0, 0),
        }
    }
}

} // verus!
