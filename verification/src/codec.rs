//! Hex codec for the 20-byte identifiers: 40 lowercase hex characters are
//! the canonical textual form. Encoding and decoding are verified inverses.

use vstd::prelude::*;
use vstd::string::StrSliceExecFns;
use vstd::string::StringExecFns;
use crate::errs::CustomError;

verus! {

/// The lowercase hex character of a nibble.
pub open spec fn hex_digit(d: nat) -> char {
    if d == 0 {
        '0'
    } else if d == 1 {
        '1'
    } else if d == 2 {
        '2'
    } else if d == 3 {
        '3'
    } else if d == 4 {
        '4'
    } else if d == 5 {
        '5'
    } else if d == 6 {
        '6'
    } else if d == 7 {
        '7'
    } else if d == 8 {
        '8'
    } else if d == 9 {
        '9'
    } else if d == 10 {
        'a'
    } else if d == 11 {
        'b'
    } else if d == 12 {
        'c'
    } else if d == 13 {
        'd'
    } else if d == 14 {
        'e'
    } else {
        'f'
    }
}

/// Lowercase hex rendering of a byte string: two characters per byte.
pub open spec fn hex_of(s: Seq<u8>) -> Seq<char>
    decreases s.len(),
{
    if s.len() == 0 {
        Seq::<char>::empty()
    } else {
        seq![hex_digit((s[0] / 16) as nat), hex_digit((s[0] % 16) as nat)] + hex_of(
            s.drop_first(),
        )
    }
}

pub open spec fn is_hex_char(c: char) -> bool {
    (48 <= c as int <= 57) || (97 <= c as int <= 102) || (65 <= c as int <= 70)
}

pub open spec fn all_hex_chars(s: Seq<char>) -> bool {
    forall|i: int| 0 <= i < s.len() ==> is_hex_char(#[trigger] s[i])
}

pub open spec fn hex_char_val(c: char) -> nat {
    let v = c as int;
    if 48 <= v <= 57 {
        (v - 48) as nat
    } else if 97 <= v <= 102 {
        (v - 87) as nat
    } else if 65 <= v <= 70 {
        (v - 55) as nat
    } else {
        0
    }
}

/// The bytes that a hex character string denotes, two characters a byte;
/// a trailing odd character is ignored.
pub open spec fn hex_bytes(s: Seq<char>) -> Seq<u8>
    decreases s.len(),
{
    if s.len() < 2 {
        Seq::<u8>::empty()
    } else {
        seq![(hex_char_val(s[0]) * 16 + hex_char_val(s[1])) as u8] + hex_bytes(s.skip(2))
    }
}

/// Uppercase hex characters taken to lowercase; all others unchanged.
pub open spec fn lower_hex_char(c: char) -> char {
    if c == 'A' {
        'a'
    } else if c == 'B' {
        'b'
    } else if c == 'C' {
        'c'
    } else if c == 'D' {
        'd'
    } else if c == 'E' {
        'e'
    } else if c == 'F' {
        'f'
    } else {
        c
    }
}

pub open spec fn lower_hex(s: Seq<char>) -> Seq<char> {
    s.map_values(|c: char| lower_hex_char(c))
}

pub proof fn lemma_hex_of_len(s: Seq<u8>)
    ensures
        hex_of(s).len() == 2 * s.len(),
    decreases s.len(),
{
    if s.len() > 0 {
        lemma_hex_of_len(s.drop_first());
    }
}

/// Every character of a hex rendering is a lowercase hex digit.
pub proof fn lemma_hex_of_chars(s: Seq<u8>)
    ensures
        all_hex_chars(hex_of(s)),
        forall|i: int|
            0 <= i < hex_of(s).len() ==> lower_hex_char(#[trigger] hex_of(s)[i]) == hex_of(s)[i],
    decreases s.len(),
{
    if s.len() > 0 {
        lemma_hex_of_chars(s.drop_first());
        assert(forall|d: nat| d < 16 ==> is_hex_char(#[trigger] hex_digit(d)));
        assert(forall|d: nat| d < 16 ==> lower_hex_char(#[trigger] hex_digit(d)) == hex_digit(d));
    }
}

pub proof fn lemma_hex_of_snoc(s: Seq<u8>, b: u8)
    ensures
        hex_of(s.push(b)) == hex_of(s) + seq![
            hex_digit((b / 16) as nat),
            hex_digit((b % 16) as nat),
        ],
    decreases s.len(),
{
    if s.len() == 0 {
        let p = s.push(b);
        assert(p.len() == 1);
        assert(p[0] == b);
        assert(p.drop_first() =~= Seq::<u8>::empty());
        assert(hex_of(p.drop_first()) == Seq::<char>::empty());
        assert(hex_of(p) == seq![hex_digit((p[0] / 16) as nat), hex_digit((p[0] % 16) as nat)]
            + hex_of(p.drop_first()));
        assert(hex_of(s) == Seq::<char>::empty());
        assert(hex_of(s.push(b)) =~= hex_of(s) + seq![
            hex_digit((b / 16) as nat),
            hex_digit((b % 16) as nat),
        ]);
    } else {
        assert(s.push(b)[0] == s[0]);
        assert(s.push(b).drop_first() =~= s.drop_first().push(b));
        lemma_hex_of_snoc(s.drop_first(), b);
        assert(hex_of(s.push(b)) =~= hex_of(s) + seq![
            hex_digit((b / 16) as nat),
            hex_digit((b % 16) as nat),
        ]);
    }
}

/// Decoding a hex rendering gives the original bytes back.
pub proof fn lemma_hex_round_trip(s: Seq<u8>)
    ensures
        hex_bytes(hex_of(s)) == s,
    decreases s.len(),
{
    if s.len() == 0 {
        assert(hex_bytes(hex_of(s)) =~= s);
    } else {
        lemma_hex_round_trip(s.drop_first());
        lemma_hex_of_len(s.drop_first());
        let h = hex_of(s);
        assert(h.len() >= 2);
        assert(h[0] == hex_digit((s[0] / 16) as nat));
        assert(h[1] == hex_digit((s[0] % 16) as nat));
        assert(h.skip(2) =~= hex_of(s.drop_first()));
        assert(forall|d: nat| d < 16 ==> hex_char_val(#[trigger] hex_digit(d)) == d);
        assert(hex_char_val(h[0]) * 16 + hex_char_val(h[1]) == s[0]);
        assert(hex_bytes(h) =~= s);
    }
}

/// Re-encoding decoded hex gives the lowercase form of the original text.
pub proof fn lemma_hex_canonical(s: Seq<char>)
    requires
        all_hex_chars(s),
        s.len() % 2 == 0,
    ensures
        hex_of(hex_bytes(s)) == lower_hex(s),
    decreases s.len(),
{
    if s.len() == 0 {
        assert(hex_of(hex_bytes(s)) =~= lower_hex(s));
    } else {
        assert(s.len() >= 2);
        let v0 = hex_char_val(s[0]);
        let v1 = hex_char_val(s[1]);
        let b = (v0 * 16 + v1) as u8;
        assert(v0 < 16 && v1 < 16);
        assert(b == v0 * 16 + v1);
        assert(b / 16 == v0 && b % 16 == v1) by (nonlinear_arith)
            requires
                v0 < 16,
                v1 < 16,
                b == v0 * 16 + v1,
        ;
        assert(hex_digit(v0) == lower_hex_char(s[0]));
        assert(hex_digit(v1) == lower_hex_char(s[1]));
        assert(forall|i: int| 0 <= i < s.skip(2).len() ==> is_hex_char(#[trigger] s.skip(2)[i]));
        lemma_hex_canonical(s.skip(2));
        let bs = hex_bytes(s);
        assert(bs[0] == b);
        assert(bs.drop_first() =~= hex_bytes(s.skip(2)));
        assert(hex_of(bs) =~= lower_hex(s));
    }
}

fn hex_digit_str(d: u8) -> (s: &'static str)
    requires
        d < 16,
    ensures
        s@ == seq![hex_digit(d as nat)],
{
    proof {
        reveal_strlit("0");
        reveal_strlit("1");
        reveal_strlit("2");
        reveal_strlit("3");
        reveal_strlit("4");
        reveal_strlit("5");
        reveal_strlit("6");
        reveal_strlit("7");
        reveal_strlit("8");
        reveal_strlit("9");
        reveal_strlit("a");
        reveal_strlit("b");
        reveal_strlit("c");
        reveal_strlit("d");
        reveal_strlit("e");
        reveal_strlit("f");
    }
    let r: &'static str = if d == 0 {
        "0"
    } else if d == 1 {
        "1"
    } else if d == 2 {
        "2"
    } else if d == 3 {
        "3"
    } else if d == 4 {
        "4"
    } else if d == 5 {
        "5"
    } else if d == 6 {
        "6"
    } else if d == 7 {
        "7"
    } else if d == 8 {
        "8"
    } else if d == 9 {
        "9"
    } else if d == 10 {
        "a"
    } else if d == 11 {
        "b"
    } else if d == 12 {
        "c"
    } else if d == 13 {
        "d"
    } else if d == 14 {
        "e"
    } else {
        "f"
    };
    proof {
        assert(r@ =~= seq![hex_digit(d as nat)]);
    }
    r
}

/// Lowercase hex rendering of a byte string.
pub fn bin2hex(data: &Vec<u8>) -> (s: String)
    ensures
        s@ == hex_of(data@),
{
    let mut s = String::new();
    let mut i: usize = 0;
    let len = data.len();
    proof {
        assert(data@.take(0) =~= Seq::<u8>::empty());
    }
    while i < len
        invariant
            0 <= i <= len,
            len == data@.len(),
            s@ == hex_of(data@.take(i as int)),
        decreases len - i,
    {
        let b = data[i];
        s.append(hex_digit_str(b / 16));
        s.append(hex_digit_str(b % 16));
        proof {
            lemma_hex_of_snoc(data@.take(i as int), b);
            assert(data@.take(i as int + 1) =~= data@.take(i as int).push(b));
        }
        i = i + 1;
    }
    proof {
        assert(data@.take(len as int) =~= data@);
    }
    s
}

fn hex_char_val_exec(c: char) -> (r: Option<u8>)
    ensures
        match r {
            Some(v) => is_hex_char(c) && v == hex_char_val(c) && v < 16,
            None => !is_hex_char(c),
        },
{
    let v = c as u32;
    if 48 <= v && v <= 57 {
        Some((v - 48) as u8)
    } else if 97 <= v && v <= 102 {
        Some((v - 87) as u8)
    } else if 65 <= v && v <= 70 {
        Some((v - 55) as u8)
    } else {
        None
    }
}

proof fn lemma_hex_bytes_step(s: Seq<char>, j: int)
    requires
        j % 2 == 0,
        0 <= j,
        j + 2 <= s.len(),
    ensures
        hex_bytes(s.take(j + 2)) == hex_bytes(s.take(j)).push(
            (hex_char_val(s[j]) * 16 + hex_char_val(s[j + 1])) as u8,
        ),
    decreases j,
{
    if j == 0 {
        assert(s.take(2).len() == 2);
        assert(s.take(2)[0] == s[0] && s.take(2)[1] == s[1]);
        assert(s.take(2).skip(2) =~= Seq::<char>::empty());
        assert(s.take(0) =~= Seq::<char>::empty());
        assert(hex_bytes(s.take(2)) =~= hex_bytes(s.take(0)).push(
            (hex_char_val(s[0]) * 16 + hex_char_val(s[1])) as u8,
        ));
    } else {
        lemma_hex_bytes_step(s.skip(2), j - 2);
        assert(s.take(j + 2).skip(2) =~= s.skip(2).take(j));
        assert(s.take(j).skip(2) =~= s.skip(2).take(j - 2));
        assert(s.skip(2)[j - 2] == s[j]);
        assert(s.skip(2)[j - 1] == s[j + 1]);
        let b = (hex_char_val(s[j]) * 16 + hex_char_val(s[j + 1])) as u8;
        assert(hex_bytes(s.take(j + 2)) =~= hex_bytes(s.take(j)).push(b));
    }
}

/// Decodes hex text to the 20 bytes of an identifier. The text must be
/// wholly hex of even length, as the decoder of the textual form demands,
/// and hold at least 40 characters; the first 40 are taken.
pub fn hex2bin(data: String) -> (r: Result<Vec<u8>, CustomError>)
    ensures
        match r {
            Ok(v) => all_hex_chars(data@) && data@.len() % 2 == 0 && data@.len() >= 40 && v@
                == hex_bytes(data@.subrange(0, 40)) && v@.len() == 20,
            Err(_) => !(all_hex_chars(data@) && data@.len() % 2 == 0 && data@.len() >= 40),
        },
{
    let s = data.as_str();
    let len = s.unicode_len();
    if len % 2 != 0 || len < 40 {
        return Err(CustomError::new("error converting hex to bin"));
    }
    let mut out: Vec<u8> = Vec::new();
    let mut i: usize = 0;
    proof {
        assert(s@.take(0) =~= Seq::<char>::empty());
    }
    while i < len
        invariant
            0 <= i <= len,
            i % 2 == 0,
            len % 2 == 0,
            len == s@.len(),
            s@ == data@,
            forall|j: int| 0 <= j < i ==> is_hex_char(#[trigger] s@[j]),
            out@ == hex_bytes(s@.take(i as int)),
        decreases len - i,
    {
        let c0 = s.get_char(i);
        let c1 = s.get_char(i + 1);
        let v0 = match hex_char_val_exec(c0) {
            Some(v) => v,
            None => {
                return Err(CustomError::new("error converting hex to bin"));
            },
        };
        let v1 = match hex_char_val_exec(c1) {
            Some(v) => v,
            None => {
                return Err(CustomError::new("error converting hex to bin"));
            },
        };
        let b = v0 * 16 + v1;
        out.push(b);
        proof {
            lemma_hex_bytes_step(s@, i as int);
        }
        i = i + 2;
    }
    proof {
        assert(s@.take(len as int) =~= s@);
    }
    out.truncate(20);
    proof {
        lemma_hex_bytes_len(s@);
        lemma_hex_bytes_take(s@, 40);
        assert(s@.take(40) =~= data@.subrange(0, 40));
    }
    Ok(out)
}

/// A hex text decodes to half as many bytes, the odd character ignored.
pub proof fn lemma_hex_bytes_len(s: Seq<char>)
    ensures
        hex_bytes(s).len() == s.len() / 2,
    decreases s.len(),
{
    if s.len() >= 2 {
        lemma_hex_bytes_len(s.skip(2));
    }
}

/// The bytes of an even prefix of a hex text are a prefix of its bytes.
pub proof fn lemma_hex_bytes_take(s: Seq<char>, k: int)
    requires
        k % 2 == 0,
        0 <= k <= s.len(),
    ensures
        hex_bytes(s.take(k)) == hex_bytes(s).take(k / 2),
    decreases k,
{
    lemma_hex_bytes_len(s);
    if k == 0 {
        assert(hex_bytes(s.take(0)) =~= hex_bytes(s).take(0));
    } else {
        assert(s.take(k)[0] == s[0] && s.take(k)[1] == s[1]);
        assert(s.take(k).skip(2) =~= s.skip(2).take(k - 2));
        lemma_hex_bytes_take(s.skip(2), k - 2);
        lemma_hex_bytes_len(s.skip(2));
        assert(hex_bytes(s.take(k)) =~= hex_bytes(s).take(k / 2));
    }
}

} // verus!
