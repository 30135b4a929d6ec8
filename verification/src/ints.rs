//! Big-endian byte encodings of unsigned integers, and decimal text
//! rendering and parsing. The UDP wire format reads and writes big-endian
//! fields; the persistence statement builders render counters in decimal.

use vstd::prelude::*;
use vstd::arithmetic::div_mod::lemma_fundamental_div_mod;

verus! {

/// Value of a byte string read as a big-endian unsigned integer.
pub open spec fn be_val(s: Seq<u8>) -> nat
    decreases s.len(),
{
    if s.len() == 0 {
        0
    } else {
        (be_val(s.drop_last()) * 256 + s.last()) as nat
    }
}

pub open spec fn pow256(n: nat) -> nat
    decreases n,
{
    if n == 0 {
        1
    } else {
        256 * pow256((n - 1) as nat)
    }
}

pub proof fn lemma_be_val_bound(s: Seq<u8>)
    ensures
        be_val(s) < pow256(s.len()),
    decreases s.len(),
{
    if s.len() > 0 {
        lemma_be_val_bound(s.drop_last());
        assert(be_val(s.drop_last()) * 256 + 255 < pow256(s.len())) by (nonlinear_arith)
            requires
                be_val(s.drop_last()) < pow256((s.len() - 1) as nat),
                pow256(s.len()) == 256 * pow256((s.len() - 1) as nat),
        ;
    }
}

pub proof fn lemma_pow256_values()
    ensures
        pow256(0nat) == 1,
        pow256(1nat) == 0x100,
        pow256(2nat) == 0x1_0000,
        pow256(3nat) == 0x100_0000,
        pow256(4nat) == 0x1_0000_0000,
        pow256(5nat) == 0x100_0000_0000,
        pow256(6nat) == 0x1_0000_0000_0000,
        pow256(7nat) == 0x100_0000_0000_0000,
        pow256(8nat) == 0x1_0000_0000_0000_0000,
{
    assert(pow256(0nat) == 1);
    assert(pow256(1nat) == 0x100);
    assert(pow256(2nat) == 0x1_0000);
    assert(pow256(3nat) == 0x100_0000);
    assert(pow256(4nat) == 0x1_0000_0000);
    assert(pow256(5nat) == 0x100_0000_0000);
    assert(pow256(6nat) == 0x1_0000_0000_0000);
    assert(pow256(7nat) == 0x100_0000_0000_0000);
    assert(pow256(8nat) == 0x1_0000_0000_0000_0000);
}

pub proof fn lemma_pow256_mono(a: nat, b: nat)
    requires
        a <= b,
    ensures
        pow256(a) <= pow256(b),
    decreases b,
{
    if a < b {
        lemma_pow256_mono(a, (b - 1) as nat);
        assert(pow256(b) == 256 * pow256((b - 1) as nat));
    }
}

/// 256 to the power `i`, for exponents small enough to fit a `u64`.
pub fn pow256_exec(i: usize) -> (r: u64)
    requires
        i <= 7,
    ensures
        r == pow256(i as nat),
    decreases i,
{
    if i == 0 {
        1
    } else {
        let p = pow256_exec(i - 1);
        proof {
            lemma_pow256_mono((i - 1) as nat, 6);
            lemma_pow256_values();
        }
        256 * p
    }
}

/// The canonical big-endian encoding of a value in `len` bytes.
pub open spec fn be_bytes(x: nat, len: nat) -> Seq<u8>
    decreases len,
{
    if len == 0 {
        Seq::<u8>::empty()
    } else {
        be_bytes(x / 256, (len - 1) as nat).push((x % 256) as u8)
    }
}

pub proof fn lemma_be_bytes_len(x: nat, len: nat)
    ensures
        be_bytes(x, len).len() == len,
    decreases len,
{
    if len > 0 {
        lemma_be_bytes_len(x / 256, (len - 1) as nat);
    }
}

/// Big-endian encoding of `x` in exactly `len` bytes.
pub fn u64_to_be_bytes(x: u64, len: usize) -> (r: Vec<u8>)
    requires
        x < pow256(len as nat),
        len <= 8,
    ensures
        r@.len() == len,
        be_val(r@) == x,
        r@ == be_bytes(x as nat, len as nat),
    decreases len,
{
    if len == 0 {
        Vec::new()
    } else {
        let q = x / 256;
        let d = (x % 256) as u8;
        proof {
            lemma_fundamental_div_mod(x as int, 256);
            assert(q < pow256((len - 1) as nat)) by (nonlinear_arith)
                requires
                    x < 256 * pow256((len - 1) as nat),
                    q == x as int / 256,
                    x >= 0,
            ;
        }
        let mut r = u64_to_be_bytes(q, len - 1);
        let ghost pre = r@;
        r.push(d);
        proof {
            assert(r@.drop_last() =~= pre);
            assert(r@.last() == d);
            assert(be_val(r@) == q * 256 + d);
        }
        r
    }
}

/// Big-endian read of `n` bytes of `v` starting at `start`.
pub fn read_be(v: &Vec<u8>, start: usize, n: usize) -> (r: u64)
    requires
        start + n <= v@.len(),
        n <= 8,
    ensures
        r == be_val(v@.subrange(start as int, start as int + n as int)),
{
    let mut acc: u64 = 0;
    let mut i: usize = 0;
    let vl = v.len();
    proof {
        assert(v@.subrange(start as int, start as int) =~= Seq::<u8>::empty());
    }
    while i < n
        invariant
            0 <= i <= n,
            n <= 8,
            start + n <= v@.len(),
            vl == v@.len(),
            acc == be_val(v@.subrange(start as int, start as int + i as int)),
        decreases n - i,
    {
        proof {
            lemma_be_val_bound(v@.subrange(start as int, start as int + i as int));
            lemma_pow256_mono(i as nat, 7);
            lemma_pow256_values();
            assert(acc * 256 + 255 < 0x1_0000_0000_0000_0000) by (nonlinear_arith)
                requires
                    acc < 0x100_0000_0000_0000,
            ;
        }
        let b = v[start + i];
        acc = acc * 256 + (b as u64);
        proof {
            let pre = v@.subrange(start as int, start as int + i as int);
            let post = v@.subrange(start as int, start as int + i as int + 1);
            assert(post.drop_last() =~= pre);
            assert(post.last() == b);
        }
        i = i + 1;
    }
    proof {
        assert(v@.subrange(start as int, start as int + n as int) =~= v@.subrange(
            start as int,
            start as int + i as int,
        ));
    }
    acc
}

/// The byte width that `convert_int_to_bytes` uses: the least number of
/// big-endian bytes, between 1 and 7, that holds the value; 0 where the
/// value needs 8 bytes (such a value is returned as an empty encoding).
pub open spec fn int_bytes_len(n: nat) -> nat {
    if n < pow256(1) {
        1
    } else if n < pow256(2) {
        2
    } else if n < pow256(3) {
        3
    } else if n < pow256(4) {
        4
    } else if n < pow256(5) {
        5
    } else if n < pow256(6) {
        6
    } else if n < pow256(7) {
        7
    } else {
        0
    }
}

/// Shortest big-endian encoding of a counter, in 1 to 7 bytes; values of
/// 2^56 and above come back empty.
pub fn convert_int_to_bytes(number: &u64) -> (r: Vec<u8>)
    ensures
        r@.len() == int_bytes_len(*number as nat),
        int_bytes_len(*number as nat) > 0 ==> be_val(r@) == *number,
{
    let mut i: usize = 1;
    while i < 8
        invariant
            1 <= i <= 8,
            forall|j: nat| 1 <= j < i ==> pow256(j) <= *number,
        decreases 8 - i,
    {
        if *number < pow256_exec(i) {
            return u64_to_be_bytes(*number, i);
        }
        i = i + 1;
    }
    Vec::new()
}

/// Big-endian value of at most 8 bytes; shorter encodings read as if
/// zero-padded at the front.
pub fn convert_bytes_to_int(array: &Vec<u8>) -> (r: u64)
    requires
        array@.len() <= 8,
    ensures
        r == be_val(array@),
{
    let n = array.len();
    let r = read_be(array, 0, n);
    proof {
        assert(array@.subrange(0, n as int) =~= array@);
    }
    r
}

} // verus!
