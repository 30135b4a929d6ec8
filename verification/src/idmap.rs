//! An ordered association map keyed by byte strings, the backing structure
//! of every store of the tracker: torrents, peer buckets, access lists,
//! keys, users and journals. Entries are kept sorted by byte-wise
//! lexicographic key order, which makes iteration deterministic; the view
//! is the finite map from key to value.

use vstd::prelude::*;
use crate::order::{lex_lt, key_lt, lemma_lex_irreflexive, lemma_lex_total, lemma_lex_transitive};

verus! {

/// The finite map that an entry sequence denotes; a later entry for the
/// same key wins.
pub open spec fn map_of<V>(s: Seq<(Vec<u8>, V)>) -> Map<Seq<u8>, V>
    decreases s.len(),
{
    if s.len() == 0 {
        Map::<Seq<u8>, V>::empty()
    } else {
        map_of(s.drop_last()).insert(s.last().0@, s.last().1)
    }
}

pub proof fn lemma_map_of_contains<V>(s: Seq<(Vec<u8>, V)>)
    ensures
        forall|k: Seq<u8>|
            map_of(s).contains_key(k) <==> exists|i: int| 0 <= i < s.len() && (#[trigger] s[i].0)@
                == k,
    decreases s.len(),
{
    if s.len() > 0 {
        let d = s.drop_last();
        lemma_map_of_contains(d);
        let n = s.len() - 1;
        assert(s.last() == s[n]);
        assert forall|k: Seq<u8>| map_of(s).contains_key(k) implies exists|i: int|
            0 <= i < s.len() && (#[trigger] s[i].0)@ == k by {
            if k == s[n].0@ {
                assert(0 <= n < s.len() && s[n].0@ == k);
            } else {
                assert(map_of(d).contains_key(k));
                let i = choose|i: int| 0 <= i < d.len() && (#[trigger] d[i].0)@ == k;
                assert(d[i] == s[i]);
                assert(s[i].0@ == k);
            }
        }
        assert forall|k: Seq<u8>|
            (exists|i: int| 0 <= i < s.len() && (#[trigger] s[i].0)@ == k) implies map_of(
            s,
        ).contains_key(k) by {
            let i = choose|i: int| 0 <= i < s.len() && (#[trigger] s[i].0)@ == k;
            if i < n {
                assert(d[i] == s[i]);
                assert(d[i].0@ == k);
                assert(map_of(d).contains_key(k));
            }
        }
    }
}

/// Sorted entries have pairwise distinct keys.
pub proof fn lemma_sorted_distinct<V>(s: Seq<(Vec<u8>, V)>)
    requires
        forall|i: int, j: int|
            0 <= i < j < s.len() ==> lex_lt((#[trigger] s[i].0)@, (#[trigger] s[j].0)@),
    ensures
        forall|i: int, j: int|
            0 <= i < j < s.len() ==> (#[trigger] s[i].0)@ != (#[trigger] s[j].0)@,
{
    assert forall|i: int, j: int| 0 <= i < j < s.len() implies (#[trigger] s[i].0)@
        != (#[trigger] s[j].0)@ by {
        if s[i].0@ == s[j].0@ {
            lemma_lex_irreflexive(s[i].0@);
        }
    }
}

pub proof fn lemma_map_of_index<V>(s: Seq<(Vec<u8>, V)>, i: int)
    requires
        forall|p: int, q: int|
            0 <= p < q < s.len() ==> (#[trigger] s[p].0)@ != (#[trigger] s[q].0)@,
        0 <= i < s.len(),
    ensures
        map_of(s).contains_key(s[i].0@),
        map_of(s)[s[i].0@] == s[i].1,
    decreases s.len(),
{
    if i == s.len() - 1 {
    } else {
        assert(forall|p: int, q: int|
            0 <= p < q < s.drop_last().len() ==> (#[trigger] s.drop_last()[p].0)@
                != (#[trigger] s.drop_last()[q].0)@);
        lemma_map_of_index(s.drop_last(), i);
        assert(s[i].0@ != s.last().0@);
    }
}

/// A map of distinct entries has exactly one key per entry.
pub proof fn lemma_map_of_len<V>(s: Seq<(Vec<u8>, V)>)
    requires
        forall|p: int, q: int|
            0 <= p < q < s.len() ==> (#[trigger] s[p].0)@ != (#[trigger] s[q].0)@,
    ensures
        map_of(s).dom().finite(),
        map_of(s).dom().len() == s.len(),
    decreases s.len(),
{
    if s.len() > 0 {
        let d = s.drop_last();
        assert(forall|p: int, q: int|
            0 <= p < q < d.len() ==> (#[trigger] d[p].0)@ != (#[trigger] d[q].0)@);
        lemma_map_of_len(d);
        lemma_map_of_contains(d);
        assert(!map_of(d).contains_key(s.last().0@));
    }
}

/// Inserting an entry whose key none of the later entries carries is an
/// insert on the denoted map.
pub proof fn lemma_map_of_mid<V>(s1: Seq<(Vec<u8>, V)>, e: (Vec<u8>, V), s2: Seq<(Vec<u8>, V)>)
    requires
        forall|i: int| 0 <= i < s2.len() ==> (#[trigger] s2[i].0)@ != e.0@,
    ensures
        map_of(s1 + seq![e] + s2) == map_of(s1 + s2).insert(e.0@, e.1),
    decreases s2.len(),
{
    if s2.len() == 0 {
        assert(s1 + seq![e] + s2 =~= s1.push(e));
        assert(s1 + s2 =~= s1);
        assert(s1.push(e).drop_last() =~= s1);
        assert(s1.push(e).last() == e);
    } else {
        let x = s2.last();
        let s2p = s2.drop_last();
        assert(forall|i: int| 0 <= i < s2p.len() ==> (#[trigger] s2p[i].0)@ != e.0@);
        lemma_map_of_mid(s1, e, s2p);
        assert((s1 + seq![e] + s2).drop_last() =~= s1 + seq![e] + s2p);
        assert((s1 + seq![e] + s2).last() == x);
        assert((s1 + s2).drop_last() =~= s1 + s2p);
        assert((s1 + s2).last() == x);
        assert(x.0@ != e.0@);
        assert(map_of(s1 + s2p).insert(e.0@, e.1).insert(x.0@, x.1) =~= map_of(s1 + s2p).insert(
            x.0@,
            x.1,
        ).insert(e.0@, e.1));
    }
}

/// An ordered association map keyed by byte strings. The entries stand in
/// strictly increasing lexicographic key order.
pub struct AssocMap<V> {
    pub entries: Vec<(Vec<u8>, V)>,
}

impl<V> View for AssocMap<V> {
    type V = Map<Seq<u8>, V>;

    open spec fn view(&self) -> Map<Seq<u8>, V> {
        map_of(self.entries@)
    }
}

impl<V> AssocMap<V> {
    /// Entries sorted strictly: the well-formedness every operation keeps.
    pub open spec fn wf(self) -> bool {
        forall|i: int, j: int|
            0 <= i < j < self.entries@.len() ==> lex_lt(
                (#[trigger] self.entries@[i].0)@,
                (#[trigger] self.entries@[j].0)@,
            )
    }

    /// The key of the entry at a position, in iteration order.
    pub open spec fn key_at(self, i: int) -> Seq<u8> {
        self.entries@[i].0@
    }

    pub open spec fn val_at(self, i: int) -> V {
        self.entries@[i].1
    }

    pub open spec fn spec_len(self) -> nat {
        self.entries@.len()
    }

    pub proof fn lemma_view(self)
        requires
            self.wf(),
        ensures
            forall|k: Seq<u8>|
                self@.contains_key(k) <==> exists|i: int|
                    0 <= i < self.spec_len() && self.key_at(i) == k,
            forall|i: int|
                0 <= i < self.spec_len() ==> self@.contains_key(#[trigger] self.key_at(i))
                    && self@[self.key_at(i)] == self.val_at(i),
            self@.dom().finite(),
            self@.dom().len() == self.spec_len(),
    {
        lemma_map_of_contains(self.entries@);
        lemma_sorted_distinct(self.entries@);
        lemma_map_of_len(self.entries@);
        let s = self.entries@;
        assert forall|i: int| 0 <= i < self.spec_len() implies self@.contains_key(
            #[trigger] self.key_at(i),
        ) && self@[self.key_at(i)] == self.val_at(i) by {
            lemma_map_of_index(s, i);
        }
        assert forall|k: Seq<u8>| self@.contains_key(k) implies exists|i: int|
            0 <= i < self.spec_len() && self.key_at(i) == k by {
            let i = choose|i: int| 0 <= i < s.len() && (#[trigger] s[i].0)@ == k;
            assert(0 <= i < self.spec_len() && self.key_at(i) == k);
        }
        assert forall|k: Seq<u8>|
            (exists|i: int| 0 <= i < self.spec_len() && self.key_at(i) == k) implies self@
            .contains_key(k) by {
            let i = choose|i: int| 0 <= i < self.spec_len() && self.key_at(i) == k;
            assert((s[i].0)@ == k);
        }
    }

    pub fn new() -> (r: AssocMap<V>)
        ensures
            r.wf(),
            r@ == Map::<Seq<u8>, V>::empty(),
            r.spec_len() == 0,
    {
        AssocMap { entries: Vec::new() }
    }

    pub fn len(&self) -> (r: usize)
        ensures
            r == self.spec_len(),
    {
        self.entries.len()
    }

    fn find(&self, key: &Vec<u8>) -> (r: Option<usize>)
        ensures
            match r {
                Some(i) => i < self.spec_len() && self.key_at(i as int) == key@,
                None => forall|i: int| 0 <= i < self.spec_len() ==> self.key_at(i) != key@,
            },
    {
        let mut i: usize = 0;
        let len = self.entries.len();
        while i < len
            invariant
                0 <= i <= len,
                len == self.spec_len(),
                forall|j: int| 0 <= j < i ==> self.key_at(j) != key@,
            decreases len - i,
        {
            let e = &self.entries[i];
            if !key_lt(&e.0, key) && !key_lt(key, &e.0) {
                proof {
                    lemma_lex_total(self.key_at(i as int), key@);
                }
                return Some(i);
            }
            proof {
                lemma_lex_irreflexive(key@);
            }
            i = i + 1;
        }
        None
    }

    /// Whether the map holds the key.
    pub fn contains(&self, key: &Vec<u8>) -> (r: bool)
        requires
            self.wf(),
        ensures
            r == self@.contains_key(key@),
    {
        proof {
            self.lemma_view();
        }
        match self.find(key) {
            Some(_) => true,
            None => false,
        }
    }

    /// The value under a key, if the map holds it.
    pub fn get(&self, key: &Vec<u8>) -> (r: Option<&V>)
        requires
            self.wf(),
        ensures
            match r {
                Some(v) => self@.contains_key(key@) && *v == self@[key@],
                None => !self@.contains_key(key@),
            },
    {
        proof {
            self.lemma_view();
        }
        match self.find(key) {
            Some(i) => Some(&self.entries[i].1),
            None => None,
        }
    }

    /// Inserts or replaces; reports whether the key was already held.
    pub fn insert(&mut self, key: Vec<u8>, value: V) -> (had: bool)
        requires
            old(self).wf(),
        ensures
            final(self).wf(),
            final(self)@ == old(self)@.insert(key@, value),
            had == old(self)@.contains_key(key@),
            final(self).spec_len() == old(self).spec_len() + (if had {
                0int
            } else {
                1int
            }),
    {
        proof {
            self.lemma_view();
            lemma_sorted_distinct(self.entries@);
        }
        let mut i: usize = 0;
        let len = self.entries.len();
        while i < len && key_lt(&self.entries[i].0, &key)
            invariant
                0 <= i <= len,
                len == self.spec_len(),
                forall|j: int| 0 <= j < i ==> lex_lt(#[trigger] self.key_at(j), key@),
            decreases len - i,
        {
            i = i + 1;
        }
        let ghost s = self.entries@;
        let ghost s1 = s.take(i as int);
        let ghost s2 = s.skip(i as int);
        proof {
            assert forall|p: int, q: int| 0 <= p < q < len implies lex_lt(
                (#[trigger] s[p].0)@,
                (#[trigger] s[q].0)@,
            ) by {
                assert(lex_lt(self.key_at(p), self.key_at(q)));
            }
            assert forall|j: int| 0 <= j < i implies lex_lt((#[trigger] s[j].0)@, key@) by {
                assert(lex_lt(self.key_at(j), key@));
            }
        }
        if i < len && !key_lt(&key, &self.entries[i].0) {
            // the keys at and before i settle that entries[i] carries `key`
            proof {
                lemma_lex_total(s[i as int].0@, key@);
                assert(s[i as int].0@ == key@);
                lemma_sorted_distinct(s);
                lemma_map_of_index(s, i as int);
                assert forall|j: int| 0 <= j < s.len() && j != i implies (#[trigger] s[j].0)@
                    != key@ by {
                    if j < i {
                        lemma_lex_irreflexive(key@);
                    } else {
                        assert(lex_lt(s[i as int].0@, s[j].0@));
                        lemma_lex_irreflexive(key@);
                    }
                }
            }
            let ghost s2r = s.skip(i as int + 1);
            let old_e = self.entries.remove(i);
            self.entries.insert(i, (key, value));
            proof {
                let e = self.entries@[i as int];
                assert(self.entries@ =~= s1 + seq![e] + s2r);
                assert(s =~= s1 + seq![(old_e.0, old_e.1)] + s2r);
                assert forall|p: int, q: int|
                    0 <= p < q < self.entries@.len() implies lex_lt(
                    (#[trigger] self.entries@[p].0)@,
                    (#[trigger] self.entries@[q].0)@,
                ) by {
                    assert(self.entries@[p] == (if p == i {
                        e
                    } else {
                        s[p]
                    }));
                    assert(self.entries@[q] == (if q == i {
                        e
                    } else {
                        s[q]
                    }));
                    assert(lex_lt(s[p].0@, s[q].0@));
                    assert(e.0@ == s[i as int].0@);
                }
                assert forall|j: int| 0 <= j < s2r.len() implies (#[trigger] s2r[j].0)@
                    != key@ by {
                    assert(s2r[j] == s[i + 1 + j]);
                    assert(s[i + 1 + j].0@ != key@);
                }
                lemma_map_of_mid(s1, (old_e.0, old_e.1), s2r);
                lemma_map_of_mid(s1, e, s2r);
                assert(map_of(s1 + s2r).insert(key@, value) =~= map_of(s1 + s2r).insert(
                    key@,
                    old_e.1,
                ).insert(key@, value));
            }
            true
        } else {
            // every key before i is smaller, every key from i on is larger
            proof {
                assert forall|j: int| i <= j < len implies lex_lt(
                    key@,
                    (#[trigger] s[j].0)@,
                ) by {
                    assert(lex_lt(key@, s[i as int].0@));
                    if j > i {
                        assert(lex_lt(s[i as int].0@, s[j].0@));
                        lemma_lex_transitive(key@, s[i as int].0@, s[j].0@);
                    }
                }
                assert forall|j: int| 0 <= j < len implies (#[trigger] s[j].0)@ != key@ by {
                    lemma_lex_irreflexive(key@);
                }
                lemma_map_of_contains(s);
                assert(!map_of(s).contains_key(key@));
            }
            self.entries.insert(i, (key, value));
            proof {
                let e = self.entries@[i as int];
                assert(self.entries@ =~= s1 + seq![e] + s2);
                assert(s =~= s1 + s2);
                assert forall|p: int, q: int|
                    0 <= p < q < self.entries@.len() implies lex_lt(
                    (#[trigger] self.entries@[p].0)@,
                    (#[trigger] self.entries@[q].0)@,
                ) by {
                    assert(self.entries@[p] == (if p < i {
                        s[p]
                    } else if p == i {
                        e
                    } else {
                        s[p - 1]
                    }));
                    assert(self.entries@[q] == (if q < i {
                        s[q]
                    } else if q == i {
                        e
                    } else {
                        s[q - 1]
                    }));
                    if p < i {
                        assert(lex_lt(s[p].0@, key@));
                    }
                    if q > i {
                        assert(lex_lt(key@, s[q - 1].0@));
                    }
                    if 0 <= p < q && q < i {
                        assert(lex_lt(s[p].0@, s[q].0@));
                    }
                    if i < p && p < q {
                        assert(lex_lt(s[p - 1].0@, s[q - 1].0@));
                    }
                    if p < i && q > i {
                        lemma_lex_transitive(s[p].0@, key@, s[q - 1].0@);
                    }
                }
                assert forall|j: int| 0 <= j < s2.len() implies (#[trigger] s2[j].0)@ != key@ by {
                    assert(s2[j] == s[i + j]);
                    assert(s[i + j].0@ != key@);
                }
                lemma_map_of_mid(s1, e, s2);
            }
            false
        }
    }

    /// Removes the entry at a position, in key order.
    pub fn remove_at(&mut self, i: usize) -> (r: (Vec<u8>, V))
        requires
            old(self).wf(),
            i < old(self).spec_len(),
        ensures
            final(self).wf(),
            final(self).entries@ == old(self).entries@.remove(i as int),
            final(self)@ == old(self)@.remove(old(self).key_at(i as int)),
            r.0@ == old(self).key_at(i as int),
            r.1 == old(self).val_at(i as int),
            old(self)@.contains_key(r.0@) && old(self)@[r.0@] == r.1,
            final(self).spec_len() == old(self).spec_len() - 1,
    {
        let ghost key_view = self.entries@[i as int].0@;
        {
                let ghost s = self.entries@;
                let ghost s1 = s.take(i as int);
                let ghost s2 = s.skip(i as int + 1);
                proof {
                    assert forall|p: int, q: int| 0 <= p < q < s.len() implies lex_lt(
                        (#[trigger] s[p].0)@,
                        (#[trigger] s[q].0)@,
                    ) by {
                        assert(lex_lt(self.key_at(p), self.key_at(q)));
                    }
                    lemma_sorted_distinct(s);
                    lemma_map_of_index(s, i as int);
                    assert forall|j: int| 0 <= j < s.len() && j != i implies (#[trigger] s[j].0)@
                        != key_view by {
                        if j < i {
                            assert(s[j].0@ != s[i as int].0@);
                        } else {
                            assert(s[i as int].0@ != s[j].0@);
                        }
                    }
                }
                let e = self.entries.remove(i);
                proof {
                    assert(self.entries@ =~= s1 + s2);
                    assert(s =~= s1 + seq![(e.0, e.1)] + s2);
                    assert forall|p: int, q: int|
                        0 <= p < q < self.entries@.len() implies lex_lt(
                        (#[trigger] self.entries@[p].0)@,
                        (#[trigger] self.entries@[q].0)@,
                    ) by {
                        assert(self.entries@[p] == (if p < i {
                            s[p]
                        } else {
                            s[p + 1]
                        }));
                        assert(self.entries@[q] == (if q < i {
                            s[q]
                        } else {
                            s[q + 1]
                        }));
                        if p < i && q < i {
                            assert(lex_lt(s[p].0@, s[q].0@));
                        } else if p < i {
                            assert(lex_lt(s[p].0@, s[q + 1].0@));
                        } else {
                            assert(lex_lt(s[p + 1].0@, s[q + 1].0@));
                        }
                    }
                    assert forall|j: int| 0 <= j < s2.len() implies (#[trigger] s2[j].0)@
                        != key_view by {
                        assert(s2[j] == s[i + 1 + j]);
                        assert(s[i + 1 + j].0@ != key_view);
                    }
                    lemma_map_of_mid(s1, (e.0, e.1), s2);
                    lemma_map_of_contains(s1 + s2);
                    assert forall|j: int| 0 <= j < (s1 + s2).len() implies (#[trigger] (s1
                        + s2)[j].0)@ != key_view by {
                        assert((s1 + s2)[j] == (if j < i {
                            s[j]
                        } else {
                            s[j + 1]
                        }));
                        if j < i {
                            assert(s[j].0@ != key_view);
                        } else {
                            assert(s[j + 1].0@ != key_view);
                        }
                    }
                    assert(!map_of(s1 + s2).contains_key(key_view));
                    assert(map_of(s1 + s2) =~= map_of(s).remove(key_view));
                }
                e
        }
    }

    /// Removes a key; hands back the value it held, if any.
    pub fn remove(&mut self, key: &Vec<u8>) -> (r: Option<V>)
        requires
            old(self).wf(),
        ensures
            final(self).wf(),
            final(self)@ == old(self)@.remove(key@),
            match r {
                Some(v) => old(self)@.contains_key(key@) && v == old(self)@[key@]
                    && final(self).spec_len() == old(self).spec_len() - 1,
                None => !old(self)@.contains_key(key@) && *final(self) == *old(self),
            },
    {
        proof {
            self.lemma_view();
        }
        match self.find(key) {
            Some(i) => {
                let e = self.remove_at(i);
                Some(e.1)
            },
            None => {
                proof {
                    assert(final(self)@ =~= old(self)@.remove(key@));
                }
                None
            },
        }
    }

    /// Replaces the value at a position, keeping the key; hands the old
    /// value back.
    pub fn set_val_at(&mut self, i: usize, value: V) -> (prev: V)
        requires
            old(self).wf(),
            i < old(self).spec_len(),
        ensures
            prev == old(self).val_at(i as int),
            final(self).wf(),
            final(self).spec_len() == old(self).spec_len(),
            final(self)@ == old(self)@.insert(old(self).key_at(i as int), value),
            forall|j: int|
                0 <= j < final(self).spec_len() ==> final(self).key_at(j) == old(self).key_at(j),
            final(self).val_at(i as int) == value,
            forall|j: int|
                0 <= j < final(self).spec_len() && j != i ==> final(self).val_at(j) == old(
                    self,
                ).val_at(j),
    {
        let ghost s = self.entries@;
        let ghost s1 = s.take(i as int);
        let ghost s2 = s.skip(i as int + 1);
        proof {
            assert forall|p: int, q: int| 0 <= p < q < s.len() implies lex_lt(
                (#[trigger] s[p].0)@,
                (#[trigger] s[q].0)@,
            ) by {
                assert(lex_lt(self.key_at(p), self.key_at(q)));
            }
            lemma_sorted_distinct(s);
        }
        let old_e = self.entries.remove(i);
        let ghost kv = old_e.0@;
        let old_key = old_e.0;
        let old_val = old_e.1;
        self.entries.insert(i, (old_key, value));
        proof {
            let e = self.entries@[i as int];
            assert(e.0@ == kv && e.1 == value);
            assert(self.entries@ =~= s1 + seq![e] + s2);
            assert(s =~= s1 + seq![s[i as int]] + s2);
            assert forall|p: int, q: int| 0 <= p < q < self.entries@.len() implies lex_lt(
                (#[trigger] self.entries@[p].0)@,
                (#[trigger] self.entries@[q].0)@,
            ) by {
                assert(self.entries@[p].0@ == s[p].0@);
                assert(self.entries@[q].0@ == s[q].0@);
                assert(lex_lt(s[p].0@, s[q].0@));
            }
            assert forall|j: int| 0 <= j < s2.len() implies (#[trigger] s2[j].0)@ != kv by {
                assert(s2[j] == s[i + 1 + j]);
                assert(s[i as int].0@ != s[i + 1 + j].0@);
            }
            lemma_map_of_mid(s1, s[i as int], s2);
            lemma_map_of_mid(s1, e, s2);
            assert(map_of(s1 + s2).insert(kv, value) =~= map_of(s1 + s2).insert(
                kv,
                s[i as int].1,
            ).insert(kv, value));
        }
        old_val
    }

    /// A copy of all entries, in key order: pairwise distinct keys, each
    /// strictly before the next.
    pub fn snapshot_entries(&self) -> (r: Vec<(Vec<u8>, V)>) where V: Copy
        ensures
            r@.len() == self.spec_len(),
            forall|j: int|
                0 <= j < r@.len() ==> (#[trigger] r@[j]).0@ == self.key_at(j) && r@[j].1
                    == self.val_at(j),
            self.wf() ==> forall|i: int, j: int|
                0 <= i < j < r@.len() ==> lex_lt((#[trigger] r@[i]).0@, (#[trigger] r@[j]).0@),
    {
        let mut r: Vec<(Vec<u8>, V)> = Vec::new();
        let mut i: usize = 0;
        let len = self.entries.len();
        while i < len
            invariant
                0 <= i <= len,
                len == self.spec_len(),
                r@.len() == i,
                forall|j: int|
                    0 <= j < i ==> (#[trigger] r@[j]).0@ == self.key_at(j) && r@[j].1
                        == self.val_at(j),
            decreases len - i,
        {
            let e = &self.entries[i];
            r.push((clone_bytes(&e.0), e.1));
            i = i + 1;
        }
        r
    }

    /// The entry at a position, in key order.
    pub fn entry_at(&self, i: usize) -> (r: (&Vec<u8>, &V))
        requires
            i < self.spec_len(),
        ensures
            r.0@ == self.key_at(i as int),
            *r.1 == self.val_at(i as int),
    {
        let e = &self.entries[i];
        (&e.0, &e.1)
    }
}

/// A verified copy of a byte string.
pub fn clone_bytes(v: &Vec<u8>) -> (r: Vec<u8>)
    ensures
        r@ == v@,
{
    let mut r: Vec<u8> = Vec::new();
    let mut i: usize = 0;
    let len = v.len();
    while i < len
        invariant
            0 <= i <= len,
            len == v@.len(),
            r@ == v@.take(i as int),
        decreases len - i,
    {
        r.push(v[i]);
        proof {
            assert(v@.take(i as int + 1) =~= v@.take(i as int).push(v@[i as int]));
        }
        i = i + 1;
    }
    proof {
        assert(v@.take(len as int) =~= v@);
    }
    r
}

} // verus!
