//! Decimal text: rendering of the counters that the persistence statements
//! and JSON payloads embed, and parsing of the numeric announce query
//! fields.

use vstd::prelude::*;
use vstd::string::StringExecFns;

verus! {

pub open spec fn dec_digit(d: nat) -> char {
    if d == 0 {
        '0'
    } else if d == 1 {
        '1'
    } else if d == 2 {
        '2'
    } else if d == 3 {
        '3'
    } else if d == 4 {
        '4'
    } else if d == 5 {
        '5'
    } else if d == 6 {
        '6'
    } else if d == 7 {
        '7'
    } else if d == 8 {
        '8'
    } else {
        '9'
    }
}

/// Decimal rendering of a natural number, most significant digit first.
pub open spec fn dec_of(n: nat) -> Seq<char>
    decreases n,
{
    if n < 10 {
        seq![dec_digit(n)]
    } else {
        dec_of(n / 10).push(dec_digit(n % 10))
    }
}

/// Decimal rendering of an integer: a minus sign before the magnitude.
pub open spec fn dec_of_int(v: int) -> Seq<char> {
    if v < 0 {
        seq!['-'] + dec_of((-v) as nat)
    } else {
        dec_of(v as nat)
    }
}

fn digit_str(d: u8) -> (s: &'static str)
    requires
        d < 10,
    ensures
        s@ == seq![dec_digit(d as nat)],
{
    proof {
        reveal_strlit("0");
        reveal_strlit("1");
        reveal_strlit("2");
        reveal_strlit("3");
        reveal_strlit("4");
        reveal_strlit("5");
        reveal_strlit("6");
        reveal_strlit("7");
        reveal_strlit("8");
        reveal_strlit("9");
    }
    let r: &'static str = if d == 0 {
        "0"
    } else if d == 1 {
        "1"
    } else if d == 2 {
        "2"
    } else if d == 3 {
        "3"
    } else if d == 4 {
        "4"
    } else if d == 5 {
        "5"
    } else if d == 6 {
        "6"
    } else if d == 7 {
        "7"
    } else if d == 8 {
        "8"
    } else {
        "9"
    };
    proof {
        assert(r@ =~= seq![dec_digit(d as nat)]);
    }
    r
}

/// Renders `n` in decimal.
pub fn u64_to_dec(n: u64) -> (s: String)
    ensures
        s@ == dec_of(n as nat),
    decreases n,
{
    if n < 10 {
        String::from_str(digit_str(n as u8))
    } else {
        let mut s = u64_to_dec(n / 10);
        let ghost pre = s@;
        s.append(digit_str((n % 10) as u8));
        proof {
            assert(s@ =~= pre.push(dec_digit((n % 10) as nat)));
        }
        s
    }
}

/// Renders `n` in decimal, with a leading minus sign when negative.
pub fn i64_to_dec(n: i64) -> (s: String)
    ensures
        s@ == dec_of_int(n as int),
{
    if n >= 0 {
        u64_to_dec(n as u64)
    } else {
        let mag: u64 = if n == i64::MIN {
            0x8000_0000_0000_0000u64
        } else {
            (-n) as u64
        };
        let mut s = String::from_str("-");
        let digits = u64_to_dec(mag);
        s.append(digits.as_str());
        proof {
            reveal_strlit("-");
            assert(s@ =~= seq!['-'] + dec_of(mag as nat));
        }
        s
    }
}

pub open spec fn is_dec_digit(b: u8) -> bool {
    0x30 <= b <= 0x39
}

pub open spec fn all_dec_digits(s: Seq<u8>) -> bool {
    forall|i: int| 0 <= i < s.len() ==> is_dec_digit(#[trigger] s[i])
}

/// Value of a string of decimal digit bytes, most significant first.
pub open spec fn dec_val(s: Seq<u8>) -> nat
    decreases s.len(),
{
    if s.len() == 0 {
        0
    } else {
        (dec_val(s.drop_last()) * 10 + (s.last() - 0x30)) as nat
    }
}

proof fn lemma_dec_val_prefix(s: Seq<u8>, j: int)
    requires
        0 <= j <= s.len(),
        all_dec_digits(s),
    ensures
        dec_val(s) >= dec_val(s.take(j)),
    decreases s.len(),
{
    if j < s.len() {
        assert(all_dec_digits(s.drop_last()));
        lemma_dec_val_prefix(s.drop_last(), j);
        assert(s.drop_last().take(j) =~= s.take(j));
        assert(dec_val(s) >= dec_val(s.drop_last())) by (nonlinear_arith)
            requires
                dec_val(s) == (dec_val(s.drop_last()) * 10 + (s.last() - 0x30)) as nat,
                is_dec_digit(s.last()),
        ;
    } else {
        assert(s.take(j) =~= s);
    }
}

/// Parses an unsigned decimal number, as the announce query fields carry
/// them: all bytes must be digits and the value must fit a `u64`.
pub fn parse_dec_u64(v: &Vec<u8>) -> (r: Option<u64>)
    ensures
        match r {
            Some(x) => v@.len() > 0 && all_dec_digits(v@) && dec_val(v@) <= u64::MAX && x
                == dec_val(v@),
            None => v@.len() == 0 || !all_dec_digits(v@) || dec_val(v@) > u64::MAX,
        },
{
    let len = v.len();
    if len == 0 {
        return None;
    }
    let mut acc: u64 = 0;
    let mut i: usize = 0;
    proof {
        assert(v@.take(0) =~= Seq::<u8>::empty());
    }
    while i < len
        invariant
            0 <= i <= len,
            len == v@.len(),
            all_dec_digits(v@.take(i as int)),
            acc == dec_val(v@.take(i as int)),
        decreases len - i,
    {
        let b = v[i];
        if b < 0x30 || b > 0x39 {
            return None;
        }
        let d = (b - 0x30) as u64;
        proof {
            assert(v@.take(i as int + 1).drop_last() =~= v@.take(i as int));
            assert(v@.take(i as int + 1).last() == b);
        }
        if acc > 1844674407370955161u64 || (acc == 1844674407370955161u64 && d > 5) {
            proof {
                assert(dec_val(v@.take(i as int + 1)) > u64::MAX) by (nonlinear_arith)
                    requires
                        dec_val(v@.take(i as int + 1)) == (acc * 10 + d) as nat,
                        acc > 1844674407370955161u64 || (acc == 1844674407370955161u64 && d > 5),
                        d <= 9,
                ;
                if all_dec_digits(v@) {
                    lemma_dec_val_prefix(v@, i as int + 1);
                }
            }
            return None;
        }
        proof {
            assert(acc * 10 + d <= u64::MAX) by (nonlinear_arith)
                requires
                    acc <= 1844674407370955161u64,
                    d <= 9,
                    !(acc == 1844674407370955161u64 && d > 5),
            ;
        }
        acc = acc * 10 + d;
        i = i + 1;
    }
    proof {
        assert(v@.take(len as int) =~= v@);
    }
    Some(acc)
}

} // verus!
