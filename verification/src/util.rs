//! Small helpers of the tracker's runtime: the debug-quoted rendering of
//! a string, the type-name reporter, the string comparison the console
//! check uses, and the wall clock.

use vstd::prelude::*;
use vstd::string::StrSliceExecFns;

verus! {

/// The escaped form of one character inside a debug-quoted string:
/// quotes, backslashes and the common control characters get a backslash
/// escape; everything else stands as it is.
pub open spec fn esc_char(c: char) -> Seq<char> {
    if c == '"' {
        seq!['\\', '"']
    } else if c == '\\' {
        seq!['\\', '\\']
    } else if c == '\n' {
        seq!['\\', 'n']
    } else if c == '\r' {
        seq!['\\', 'r']
    } else if c == '\t' {
        seq!['\\', 't']
    } else {
        seq![c]
    }
}

pub open spec fn dbg_esc(s: Seq<char>) -> Seq<char>
    decreases s.len(),
{
    if s.len() == 0 {
        Seq::<char>::empty()
    } else {
        esc_char(s[0]) + dbg_esc(s.drop_first())
    }
}

/// The debug-quoted form of a string: the escaped text between quotes.
pub open spec fn dbg_quoted(s: Seq<char>) -> Seq<char> {
    seq!['"'] + dbg_esc(s) + seq!['"']
}

proof fn lemma_dbg_esc_concat(a: Seq<char>, b: Seq<char>)
    ensures
        dbg_esc(a + b) == dbg_esc(a) + dbg_esc(b),
    decreases a.len(),
{
    if a.len() == 0 {
        assert(a + b =~= b);
        assert(dbg_esc(a) + dbg_esc(b) =~= dbg_esc(b));
    } else {
        assert((a + b)[0] == a[0]);
        assert((a + b).drop_first() =~= a.drop_first() + b);
        lemma_dbg_esc_concat(a.drop_first(), b);
        assert(dbg_esc(a + b) =~= dbg_esc(a) + dbg_esc(b));
    }
}

/// Relies on String::push: appends the given character.
#[verifier::external_body]
pub(crate) fn string_push(s: &mut String, c: char)
    ensures
        final(s)@ == old(s)@.push(c),
{
    s.push(c)
}

/// Renders a string the way debug formatting quotes it: surrounded by
/// quotes, with quotes, backslashes and common control characters
/// escaped.
pub fn debug_quote(s: &str) -> (r: String)
    ensures
        r@ == dbg_quoted(s@),
{
    let mut r = String::new();
    string_push(&mut r, '"');
    let len = s.unicode_len();
    let mut i: usize = 0;
    proof {
        assert(s@.take(0) =~= Seq::<char>::empty());
        assert(r@ =~= seq!['"'] + dbg_esc(s@.take(0)));
    }
    while i < len
        invariant
            0 <= i <= len,
            len == s@.len(),
            r@ == seq!['"'] + dbg_esc(s@.take(i as int)),
        decreases len - i,
    {
        let c = s.get_char(i);
        let ghost pre = r@;
        if c == '"' {
            string_push(&mut r, '\\');
            string_push(&mut r, '"');
        } else if c == '\\' {
            string_push(&mut r, '\\');
            string_push(&mut r, '\\');
        } else if c == '\n' {
            string_push(&mut r, '\\');
            string_push(&mut r, 'n');
        } else if c == '\r' {
            string_push(&mut r, '\\');
            string_push(&mut r, 'r');
        } else if c == '\t' {
            string_push(&mut r, '\\');
            string_push(&mut r, 't');
        } else {
            string_push(&mut r, c);
        }
        proof {
            assert(r@ =~= pre + esc_char(s@[i as int]));
            assert(s@.take(i as int + 1) =~= s@.take(i as int) + seq![s@[i as int]]);
            lemma_dbg_esc_concat(s@.take(i as int), seq![s@[i as int]]);
            assert(seq![s@[i as int]].drop_first() =~= Seq::<char>::empty());
            assert(dbg_esc(Seq::<char>::empty()) =~= Seq::<char>::empty());
            assert(seq![s@[i as int]][0] == s@[i as int]);
            assert(dbg_esc(seq![s@[i as int]]) =~= esc_char(s@[i as int]));
            assert(r@ =~= seq!['"'] + dbg_esc(s@.take(i as int + 1)));
        }
        i = i + 1;
    }
    string_push(&mut r, '"');
    proof {
        assert(s@.take(len as int) =~= s@);
        assert(r@ =~= dbg_quoted(s@));
    }
    r
}

/// Relies on the debug formatting of core::marker::PhantomData, which
/// renders its type parameter between the marker's name and a closing
/// angle bracket: a compiler-chosen description of the type, not pinned
/// by any contract.
#[verifier::external_body]
fn type_label<T>() -> (r: String) {
    format!("{:?}", core::marker::PhantomData::<T>)
}

/// A string between a known prefix and a one-character suffix, or the
/// string itself where it is not of that shape.
pub open spec fn between_affixes(s: Seq<char>, prefix: Seq<char>, suffix: char) -> Seq<char> {
    if s.len() > prefix.len() && s.take(prefix.len() as int) == prefix && s.last() == suffix {
        s.subrange(prefix.len() as int, s.len() - 1)
    } else {
        s
    }
}

fn strip_affixes(s: &str, prefix: &str, suffix: char) -> (r: String)
    ensures
        r@ == between_affixes(s@, prefix@, suffix),
{
    let slen = s.unicode_len();
    let plen = prefix.unicode_len();
    let mut matched = slen > plen;
    let mut i: usize = 0;
    while i < plen && matched
        invariant
            0 <= i <= plen,
            plen == prefix@.len(),
            slen == s@.len(),
            matched ==> slen > plen && forall|j: int| 0 <= j < i ==> s@[j] == prefix@[j],
            !matched ==> slen <= plen || exists|j: int| 0 <= j < plen && s@[j] != prefix@[j],
        decreases plen - i + (if matched {
            1int
        } else {
            0int
        }),
    {
        if s.get_char(i) != prefix.get_char(i) {
            proof {
                assert(s@[i as int] != prefix@[i as int]);
            }
            matched = false;
        } else {
            i = i + 1;
        }
    }
    if matched && s.get_char(slen - 1) == suffix {
        proof {
            assert(s@.take(plen as int) =~= prefix@);
            assert(s@.last() == suffix);
        }
        let mid = s.substring_char(plen, slen - 1);
        String::from_str(mid)
    } else {
        proof {
            if slen > plen && s@.take(plen as int) == prefix@ && s@.last() == suffix {
                if matched {
                    assert(s@[slen - 1] == suffix);
                } else {
                    let j = choose|j: int| 0 <= j < plen && s@[j] != prefix@[j];
                    assert(s@.take(plen as int)[j] == s@[j]);
                }
            }
        }
        String::from_str(s)
    }
}

/// The debug-quoted name of a value's type.
pub fn return_type<T>(_x: &T) -> (r: String)
    ensures
        r@.len() >= 2,
        r@[0] == '"',
        r@[r@.len() - 1] == '"',
{
    let rendered = type_label::<T>();
    proof {
        reveal_strlit("PhantomData<");
    }
    let n = strip_affixes(rendered.as_str(), "PhantomData<", '>');
    let r = debug_quote(n.as_str());
    proof {
        let e = dbg_esc(n@);
        assert(r@.len() == 2 + e.len());
        assert(r@[0] == '"');
        assert(r@[r@.len() - 1] == '"');
    }
    r
}

/// Whether `source` is exactly the debug-quoted form of `check`.
pub fn equal_string_check(source: &String, check: &String) -> (r: bool)
    ensures
        r == (source@ == dbg_quoted(check@)),
{
    let q = debug_quote(check.as_str());
    source.eq(&q)
}

/// Relies on SystemTime::now and its distance from the Unix epoch: the
/// wall clock in whole seconds, about which nothing further can be
/// promised.
#[verifier::external_body]
pub fn current_time() -> (r: u64) {
    match std::time::SystemTime::now().duration_since(std::time::SystemTime::UNIX_EPOCH) {
        Ok(d) => d.as_secs(),
        Err(_) => 0,
    }
}

} // verus!
