//! The announce/API query-string parser: splits on `&`, percent-decodes
//! keys and values, lowercases keys, and accumulates repeated keys. Bare
//! keys and empty values are preserved.

use vstd::prelude::*;
use vstd::string::StrSliceExecFns;
use vstd::string::StringExecFns;
use crate::errs::CustomError;
use crate::idmap::clone_bytes;
use crate::utf8_text::{lossy_of, lower_of, to_lower, utf8_lossy};

verus! {

pub open spec fn is_hex_b(b: u8) -> bool {
    (0x30 <= b <= 0x39) || (0x61 <= b <= 0x66) || (0x41 <= b <= 0x46)
}

pub open spec fn hex_val_b(b: u8) -> nat {
    if 0x30 <= b <= 0x39 {
        (b - 0x30) as nat
    } else if 0x61 <= b <= 0x66 {
        (b - 0x57) as nat
    } else if 0x41 <= b <= 0x46 {
        (b - 0x37) as nat
    } else {
        0
    }
}

/// Percent-decoding: a `%` followed by two hex digits becomes one byte;
/// everything else passes through.
pub open spec fn pct_decode(s: Seq<u8>) -> Seq<u8>
    decreases s.len(),
{
    if s.len() == 0 {
        Seq::<u8>::empty()
    } else if s[0] == 0x25 && s.len() >= 3 && is_hex_b(s[1]) && is_hex_b(s[2]) {
        seq![(hex_val_b(s[1]) * 16 + hex_val_b(s[2])) as u8] + pct_decode(s.skip(3))
    } else {
        seq![s[0]] + pct_decode(s.skip(1))
    }
}

fn hex_val_exec(b: u8) -> (r: Option<u8>)
    ensures
        match r {
            Some(v) => is_hex_b(b) && v == hex_val_b(b),
            None => !is_hex_b(b),
        },
{
    if 0x30 <= b && b <= 0x39 {
        Some(b - 0x30)
    } else if 0x61 <= b && b <= 0x66 {
        Some(b - 0x57)
    } else if 0x41 <= b && b <= 0x46 {
        Some(b - 0x37)
    } else {
        None
    }
}

/// Percent-decodes a byte string.
pub fn percent_decode_bytes(s: &Vec<u8>) -> (r: Vec<u8>)
    ensures
        r@ == pct_decode(s@),
{
    let mut r: Vec<u8> = Vec::new();
    let mut i: usize = 0;
    let len = s.len();
    proof {
        assert(s@.skip(0) =~= s@);
        assert(r@ + pct_decode(s@) =~= pct_decode(s@));
    }
    while i < len
        invariant
            0 <= i <= len,
            len == s@.len(),
            pct_decode(s@) == r@ + pct_decode(s@.skip(i as int)),
        decreases len - i,
    {
        let ghost pre = r@;
        let ghost rest = s@.skip(i as int);
        proof {
            assert(rest[0] == s@[i as int]);
        }
        let mut step: usize = 1;
        if s[i] == 0x25 && len - i >= 3 {
            let h1 = hex_val_exec(s[i + 1]);
            let h2 = hex_val_exec(s[i + 2]);
            match (h1, h2) {
                (Some(v1), Some(v2)) => {
                    proof {
                        assert(rest.len() >= 3);
                        assert(rest[1] == s@[i as int + 1]);
                        assert(rest[2] == s@[i as int + 2]);
                        assert(rest.skip(3) =~= s@.skip(i as int + 3));
                        assert(pct_decode(rest) == seq![
                            (hex_val_b(rest[1]) * 16 + hex_val_b(rest[2])) as u8,
                        ] + pct_decode(s@.skip(i as int + 3)));
                    }
                    r.push(v1 * 16 + v2);
                    step = 3;
                    proof {
                        assert(r@ =~= pre.push((hex_val_b(rest[1]) * 16 + hex_val_b(
                            rest[2],
                        )) as u8));
                        assert(pre + pct_decode(rest) =~= r@ + pct_decode(s@.skip(i as int + 3)));
                    }
                },
                _ => {
                    proof {
                        assert(rest.skip(1) =~= s@.skip(i as int + 1));
                        assert(pct_decode(rest) == seq![rest[0]] + pct_decode(
                            s@.skip(i as int + 1),
                        ));
                    }
                    r.push(s[i]);
                    proof {
                        assert(r@ =~= pre.push(rest[0]));
                        assert(pre + pct_decode(rest) =~= r@ + pct_decode(s@.skip(i as int + 1)));
                    }
                },
            }
        } else {
            proof {
                assert(rest.skip(1) =~= s@.skip(i as int + 1));
                assert(pct_decode(rest) == seq![rest[0]] + pct_decode(s@.skip(i as int + 1)));
            }
            r.push(s[i]);
            proof {
                assert(r@ =~= pre.push(rest[0]));
                assert(pre + pct_decode(rest) =~= r@ + pct_decode(s@.skip(i as int + 1)));
            }
        }
        i = i + step;
    }
    proof {
        assert(s@.skip(len as int) =~= Seq::<u8>::empty());
        assert(r@ + pct_decode(s@.skip(len as int)) =~= r@);
    }
    r
}

/// The index of the first occurrence of `b`, or the length.
pub open spec fn find_byte_s(q: Seq<u8>, b: u8) -> int
    decreases q.len(),
{
    if q.len() == 0 {
        0
    } else if q[0] == b {
        0
    } else {
        1 + find_byte_s(q.drop_first(), b)
    }
}

pub proof fn lemma_find_byte_s(q: Seq<u8>, b: u8)
    ensures
        0 <= find_byte_s(q, b) <= q.len(),
        forall|j: int| 0 <= j < find_byte_s(q, b) ==> q[j] != b,
        find_byte_s(q, b) < q.len() ==> q[find_byte_s(q, b)] == b,
    decreases q.len(),
{
    if q.len() > 0 && q[0] != b {
        lemma_find_byte_s(q.drop_first(), b);
        assert forall|j: int| 0 <= j < find_byte_s(q, b) implies q[j] != b by {
            if j > 0 {
                assert(q.drop_first()[j - 1] != b);
            }
        }
        if find_byte_s(q, b) < q.len() {
            assert(q.drop_first()[find_byte_s(q.drop_first(), b)] == b);
        }
    }
}

fn find_byte(v: &Vec<u8>, start: usize, b: u8) -> (r: usize)
    requires
        start <= v@.len(),
    ensures
        r == start + find_byte_s(v@.skip(start as int), b),
        start <= r <= v@.len(),
{
    let len = v.len();
    let mut i = start;
    while i < len && v[i] != b
        invariant
            start <= i <= len,
            len == v@.len(),
            forall|j: int| start <= j < i ==> v@[j] != b,
        decreases len - i,
    {
        i = i + 1;
    }
    proof {
        let q = v@.skip(start as int);
        lemma_find_byte_s(q, b);
        let f = find_byte_s(q, b);
        assert(forall|j: int| 0 <= j < i - start ==> q[j] != b);
        if i < len {
            assert(q[i - start] == b);
            if f < i - start {
                assert(q[f] == b);
            }
            if f > i - start {
                assert(q[i - start] != b);
            }
        } else {
            if f < q.len() {
                assert(q[f] == b);
            }
        }
    }
    i
}

/// The values filed under one key: repeated keys accumulate.
pub struct QueryMap {
    pub entries: Vec<(String, Vec<Vec<u8>>)>,
}

/// The finite map that the parsed entries denote.
pub open spec fn qmap_of(s: Seq<(String, Vec<Vec<u8>>)>) -> Map<Seq<char>, Seq<Seq<u8>>>
    decreases s.len(),
{
    if s.len() == 0 {
        Map::<Seq<char>, Seq<Seq<u8>>>::empty()
    } else {
        qmap_of(s.drop_last()).insert(s.last().0@, s.last().1.deep_view())
    }
}

impl View for QueryMap {
    type V = Map<Seq<char>, Seq<Seq<u8>>>;

    open spec fn view(&self) -> Map<Seq<char>, Seq<Seq<u8>>> {
        qmap_of(self.entries@)
    }
}

impl QueryMap {
    pub open spec fn wf(self) -> bool {
        forall|i: int, j: int|
            0 <= i < j < self.entries@.len() ==> (#[trigger] self.entries@[i].0)@
                != (#[trigger] self.entries@[j].0)@
    }

    pub fn new() -> (r: QueryMap)
        ensures
            r.wf(),
            r@ == Map::<Seq<char>, Seq<Seq<u8>>>::empty(),
    {
        QueryMap { entries: Vec::new() }
    }

    proof fn lemma_contains(s: Seq<(String, Vec<Vec<u8>>)>)
        ensures
            forall|k: Seq<char>|
                qmap_of(s).contains_key(k) <==> exists|i: int|
                    0 <= i < s.len() && (#[trigger] s[i].0)@ == k,
        decreases s.len(),
    {
        if s.len() > 0 {
            let d = s.drop_last();
            Self::lemma_contains(d);
            let n = s.len() - 1;
            assert(s.last() == s[n]);
            assert forall|k: Seq<char>| qmap_of(s).contains_key(k) implies exists|i: int|
                0 <= i < s.len() && (#[trigger] s[i].0)@ == k by {
                if k == s[n].0@ {
                    assert(0 <= n < s.len() && s[n].0@ == k);
                } else {
                    assert(qmap_of(d).contains_key(k));
                    let i = choose|i: int| 0 <= i < d.len() && (#[trigger] d[i].0)@ == k;
                    assert(d[i] == s[i]);
                    assert(s[i].0@ == k);
                }
            }
            assert forall|k: Seq<char>|
                (exists|i: int| 0 <= i < s.len() && (#[trigger] s[i].0)@ == k) implies qmap_of(
                s,
            ).contains_key(k) by {
                let i = choose|i: int| 0 <= i < s.len() && (#[trigger] s[i].0)@ == k;
                if i < n {
                    assert(d[i] == s[i]);
                    assert(d[i].0@ == k);
                    assert(qmap_of(d).contains_key(k));
                }
            }
        }
    }

    proof fn lemma_index(s: Seq<(String, Vec<Vec<u8>>)>, i: int)
        requires
            forall|p: int, q: int|
                0 <= p < q < s.len() ==> (#[trigger] s[p].0)@ != (#[trigger] s[q].0)@,
            0 <= i < s.len(),
        ensures
            qmap_of(s).contains_key(s[i].0@),
            qmap_of(s)[s[i].0@] == s[i].1.deep_view(),
        decreases s.len(),
    {
        if i == s.len() - 1 {
        } else {
            assert(forall|p: int, q: int|
                0 <= p < q < s.drop_last().len() ==> (#[trigger] s.drop_last()[p].0)@
                    != (#[trigger] s.drop_last()[q].0)@);
            Self::lemma_index(s.drop_last(), i);
            assert(s[i].0@ != s.last().0@);
        }
    }

    fn find(&self, key: &String) -> (r: Option<usize>)
        ensures
            match r {
                Some(i) => i < self.entries@.len() && self.entries@[i as int].0@ == key@,
                None => forall|i: int|
                    0 <= i < self.entries@.len() ==> (#[trigger] self.entries@[i].0)@ != key@,
            },
    {
        let mut i: usize = 0;
        let len = self.entries.len();
        while i < len
            invariant
                0 <= i <= len,
                len == self.entries@.len(),
                forall|j: int| 0 <= j < i ==> (#[trigger] self.entries@[j].0)@ != key@,
            decreases len - i,
        {
            if self.entries[i].0.eq(key) {
                return Some(i);
            }
            i = i + 1;
        }
        None
    }

    /// The values under a key, if any occurrence of it was parsed.
    pub fn get(&self, key: &String) -> (r: Option<&Vec<Vec<u8>>>)
        requires
            self.wf(),
        ensures
            match r {
                Some(v) => self@.contains_key(key@) && v.deep_view() == self@[key@],
                None => !self@.contains_key(key@),
            },
    {
        proof {
            Self::lemma_contains(self.entries@);
        }
        match self.find(key) {
            Some(i) => {
                proof {
                    Self::lemma_index(self.entries@, i as int);
                }
                Some(&self.entries[i].1)
            },
            None => None,
        }
    }

    proof fn lemma_qmap_mid(
        s1: Seq<(String, Vec<Vec<u8>>)>,
        e: (String, Vec<Vec<u8>>),
        s2: Seq<(String, Vec<Vec<u8>>)>,
    )
        requires
            forall|i: int| 0 <= i < s2.len() ==> (#[trigger] s2[i].0)@ != e.0@,
        ensures
            qmap_of(s1 + seq![e] + s2) == qmap_of(s1 + s2).insert(e.0@, e.1.deep_view()),
        decreases s2.len(),
    {
        if s2.len() == 0 {
            assert(s1 + seq![e] + s2 =~= s1.push(e));
            assert(s1 + s2 =~= s1);
            assert(s1.push(e).drop_last() =~= s1);
            assert(s1.push(e).last() == e);
        } else {
            let x = s2.last();
            let s2p = s2.drop_last();
            assert(forall|i: int| 0 <= i < s2p.len() ==> (#[trigger] s2p[i].0)@ != e.0@);
            Self::lemma_qmap_mid(s1, e, s2p);
            assert((s1 + seq![e] + s2).drop_last() =~= s1 + seq![e] + s2p);
            assert((s1 + seq![e] + s2).last() == x);
            assert((s1 + s2).drop_last() =~= s1 + s2p);
            assert((s1 + s2).last() == x);
            assert(x.0@ != e.0@);
            assert(qmap_of(s1 + s2p).insert(e.0@, e.1.deep_view()).insert(x.0@, x.1.deep_view())
                =~= qmap_of(s1 + s2p).insert(x.0@, x.1.deep_view()).insert(
                e.0@,
                e.1.deep_view(),
            ));
        }
    }

    /// Files one occurrence of a key: a value accumulates under the key;
    /// a bare key adds an empty value when the key is already known, and
    /// otherwise just records the key.
    pub fn upsert_append(&mut self, key: String, item: Option<Vec<u8>>)
        requires
            old(self).wf(),
        ensures
            final(self).wf(),
            match item {
                Some(v) => final(self)@ == qm_append(old(self)@, key@, v@),
                None => (if old(self)@.contains_key(key@) {
                    final(self)@ == qm_append(old(self)@, key@, Seq::<u8>::empty())
                } else {
                    final(self)@ == old(self)@.insert(key@, Seq::<Seq<u8>>::empty())
                }),
            },
    {
        proof {
            Self::lemma_contains(self.entries@);
        }
        match self.find(&key) {
            Some(i) => {
                proof {
                    Self::lemma_index(self.entries@, i as int);
                }
                let ghost s = self.entries@;
                let ghost s1 = s.take(i as int);
                let ghost s2 = s.skip(i as int + 1);
                let mut pair = self.entries.remove(i);
                let ghost pre_list = pair.1.deep_view();
                match item {
                    Some(v) => {
                        pair.1.push(v);
                    },
                    None => {
                        pair.1.push(Vec::new());
                    },
                }
                proof {
                    assert(pair.1.deep_view() =~~= pre_list.push(
                        pair.1@[pair.1@.len() - 1]@,
                    ));
                }
                self.entries.insert(i, pair);
                proof {
                    let e = self.entries@[i as int];
                    assert(self.entries@ =~= s1 + seq![e] + s2);
                    assert(s =~= s1 + seq![s[i as int]] + s2);
                    assert forall|p: int, q: int|
                        0 <= p < q < self.entries@.len() implies (
                    #[trigger] self.entries@[p].0)@ != (#[trigger] self.entries@[q].0)@ by {
                        assert(self.entries@[p].0@ == s[p].0@);
                        assert(self.entries@[q].0@ == s[q].0@);
                    }
                    assert forall|j: int| 0 <= j < s2.len() implies (#[trigger] s2[j].0)@
                        != key@ by {
                        assert(s2[j] == s[i + 1 + j]);
                        assert(s[i as int].0@ != s[i + 1 + j].0@);
                    }
                    Self::lemma_qmap_mid(s1, s[i as int], s2);
                    Self::lemma_qmap_mid(s1, e, s2);
                    assert(qmap_of(s1 + s2).insert(key@, e.1.deep_view()) =~= qmap_of(
                        s1 + s2,
                    ).insert(key@, s[i as int].1.deep_view()).insert(key@, e.1.deep_view()));
                }
            },
            None => {
                let ghost s = self.entries@;
                let ghost item_is_some = item is Some;
                let ghost iv = if item is Some {
                    item->Some_0@
                } else {
                    Seq::<u8>::empty()
                };
                let mut list: Vec<Vec<u8>> = Vec::new();
                match item {
                    Some(v) => {
                        list.push(v);
                    },
                    None => {},
                }
                let ghost lv = list.deep_view();
                self.entries.push((key, list));
                proof {
                    assert(self.entries@.drop_last() =~= s);
                    assert(qmap_of(self.entries@) == qmap_of(s).insert(
                        self.entries@.last().0@,
                        self.entries@.last().1.deep_view(),
                    ));
                    if item_is_some {
                        assert(lv =~~= Seq::<Seq<u8>>::empty().push(iv));
                    } else {
                        assert(lv =~~= Seq::<Seq<u8>>::empty());
                    }
                }
            },
        }
    }
}

/// A key accumulates: the value joins whatever list the key already had.
pub open spec fn qm_append(
    m: Map<Seq<char>, Seq<Seq<u8>>>,
    k: Seq<char>,
    v: Seq<u8>,
) -> Map<Seq<char>, Seq<Seq<u8>>> {
    m.insert(
        k,
        (if m.contains_key(k) {
            m[k]
        } else {
            Seq::<Seq<u8>>::empty()
        }).push(v),
    )
}

/// The key a raw segment part denotes: percent-decoded, decoded as UTF-8
/// with replacement, and lowercased.
pub open spec fn seg_key(raw: Seq<u8>) -> Seq<char> {
    lower_of(lossy_of(pct_decode(raw)))
}

/// What one `&`-separated segment does to the parsed map. A segment with
/// `=` files the decoded text between the first and second `=` under the
/// decoded, lowercased key before it; a bare segment records its key with
/// an empty value when repeated. Segments and keys that are empty do
/// nothing.
pub open spec fn apply_seg(
    m: Map<Seq<char>, Seq<Seq<u8>>>,
    seg: Seq<u8>,
) -> Map<Seq<char>, Seq<Seq<u8>>> {
    if seg.len() == 0 {
        m
    } else {
        let e = find_byte_s(seg, 0x3D);
        if e < seg.len() {
            let key = seg_key(seg.take(e));
            let after = seg.skip(e + 1);
            let val = pct_decode(after.take(find_byte_s(after, 0x3D)));
            if key.len() == 0 {
                m
            } else {
                qm_append(m, key, val)
            }
        } else {
            let key = seg_key(seg);
            if key.len() == 0 {
                m
            } else if m.contains_key(key) {
                qm_append(m, key, Seq::<u8>::empty())
            } else {
                m.insert(key, Seq::<Seq<u8>>::empty())
            }
        }
    }
}

/// The parsed form of a whole query string, segment by segment.
pub open spec fn parse_q(
    m: Map<Seq<char>, Seq<Seq<u8>>>,
    q: Seq<u8>,
) -> Map<Seq<char>, Seq<Seq<u8>>>
    decreases q.len(),
{
    if q.len() == 0 {
        m
    } else {
        let a = find_byte_s(q, 0x26);
        let m2 = apply_seg(m, q.take(a));
        if 0 <= a < q.len() {
            parse_q(m2, q.skip(a + 1))
        } else {
            m2
        }
    }
}

pub(crate) fn copy_range(v: &Vec<u8>, start: usize, end: usize) -> (r: Vec<u8>)
    requires
        start <= end <= v@.len(),
    ensures
        r@ == v@.subrange(start as int, end as int),
{
    let mut r: Vec<u8> = Vec::new();
    let mut i = start;
    while i < end
        invariant
            start <= i <= end,
            end <= v@.len(),
            r@ == v@.subrange(start as int, i as int),
        decreases end - i,
    {
        r.push(v[i]);
        proof {
            assert(v@.subrange(start as int, i as int + 1) =~= v@.subrange(
                start as int,
                i as int,
            ).push(v@[i as int]));
        }
        i = i + 1;
    }
    r
}

fn apply_segment(qm: &mut QueryMap, seg: &Vec<u8>)
    requires
        old(qm).wf(),
    ensures
        final(qm).wf(),
        final(qm)@ == apply_seg(old(qm)@, seg@),
{
    let slen = seg.len();
    if slen == 0 {
        return ;
    }
    proof {
        lemma_find_byte_s(seg@, 0x3D);
    }
    let e = find_byte(seg, 0, 0x3D);
    proof {
        assert(seg@.skip(0) =~= seg@);
    }
    if e < slen {
        let key_raw = copy_range(seg, 0, e);
        proof {
            assert(key_raw@ =~= seg@.take(e as int));
        }
        let after_start = e + 1;
        let e2 = find_byte(seg, after_start, 0x3D);
        let val_raw = copy_range(seg, after_start, e2);
        proof {
            let after = seg@.skip(after_start as int);
            assert(val_raw@ =~= after.take(find_byte_s(after, 0x3D)));
        }
        let key_bytes = percent_decode_bytes(&key_raw);
        let key_l = utf8_lossy(&key_bytes);
        let key = to_lower(&key_l);
        if !key.as_str().is_empty() {
            let val = percent_decode_bytes(&val_raw);
            qm.upsert_append(key, Some(val));
        }
    } else {
        let key_bytes = percent_decode_bytes(seg);
        let key_l = utf8_lossy(&key_bytes);
        let key = to_lower(&key_l);
        if !key.as_str().is_empty() {
            qm.upsert_append(key, None);
        }
    }
}

/// Parses a raw query string into the accumulated key/values map.
pub fn parse_query(query: Option<String>) -> (r: Result<QueryMap, CustomError>)
    ensures
        match r {
            Ok(qm) => qm.wf() && qm@ == (match query {
                Some(q) => parse_q(
                    Map::<Seq<char>, Seq<Seq<u8>>>::empty(),
                    vstd::utf8::encode_utf8(q@),
                ),
                None => Map::<Seq<char>, Seq<Seq<u8>>>::empty(),
            }),
            Err(_) => false,
        },
{
    match query {
        None => Ok(QueryMap::new()),
        Some(s) => {
            let bytes = s.as_str().as_bytes_vec();
            let mut qm = QueryMap::new();
            let len = bytes.len();
            let mut c: usize = 0;
            proof {
                assert(bytes@.skip(0) =~= bytes@);
            }
            while c < len
                invariant
                    qm.wf(),
                    0 <= c <= len,
                    len == bytes@.len(),
                    parse_q(Map::<Seq<char>, Seq<Seq<u8>>>::empty(), bytes@) == parse_q(
                        qm@,
                        bytes@.skip(c as int),
                    ),
                decreases len - c,
            {
                let ghost rest = bytes@.skip(c as int);
                proof {
                    lemma_find_byte_s(rest, 0x26);
                }
                let a = find_byte(&bytes, c, 0x26);
                let seg = copy_range(&bytes, c, a);
                proof {
                    assert(seg@ =~= rest.take(find_byte_s(rest, 0x26)));
                }
                apply_segment(&mut qm, &seg);
                if a < len {
                    c = a + 1;
                    proof {
                        assert(rest.skip(find_byte_s(rest, 0x26) + 1) =~= bytes@.skip(c as int));
                    }
                } else {
                    c = len;
                    proof {
                        assert(find_byte_s(rest, 0x26) == rest.len());
                    }
                }
            }
            proof {
                assert(bytes@.skip(len as int) =~= Seq::<u8>::empty());
            }
            Ok(qm)
        },
    }
}

} // verus!
