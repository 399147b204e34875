//! Minimal-length little-endian integer encoding.
//!
//! Every frame stores its entry id, payload size and timestamp as the
//! shortest little-endian byte run (1 through 8 bytes) that holds the value.

use vstd::prelude::*;
use vstd::arithmetic::div_mod::{
    lemma_div_by_multiple, lemma_div_denominator, lemma_div_is_ordered, lemma_fundamental_div_mod,
};

verus! {

/// 256 raised to `l`.
pub open spec fn pow256(l: nat) -> nat
    decreases l,
{
    if l == 0 {
        1
    } else {
        256 * pow256((l - 1) as nat)
    }
}

pub proof fn lemma_pow256_values()
    ensures
        pow256(0) == 1,
        pow256(1) == 0x100,
        pow256(2) == 0x1_0000,
        pow256(3) == 0x100_0000,
        pow256(4) == 0x1_0000_0000,
        pow256(5) == 0x100_0000_0000,
        pow256(6) == 0x1_0000_0000_0000,
        pow256(7) == 0x100_0000_0000_0000,
        pow256(8) == 0x1_0000_0000_0000_0000,
{
    assert(pow256(1) == 256 * pow256(0));
    assert(pow256(2) == 256 * pow256(1));
    assert(pow256(3) == 256 * pow256(2));
    assert(pow256(4) == 256 * pow256(3));
    assert(pow256(5) == 256 * pow256(4));
    assert(pow256(6) == 256 * pow256(5));
    assert(pow256(7) == 256 * pow256(6));
    assert(pow256(8) == 256 * pow256(7));
}

/// Smallest length in 1..=8 whose little-endian range covers `n`; 8 is the
/// catch-all for everything from 256^7 up.
pub open spec fn varint_len(n: u64) -> nat {
    if n < 0x100 {
        1
    } else if n < 0x1_0000 {
        2
    } else if n < 0x100_0000 {
        3
    } else if n < 0x1_0000_0000 {
        4
    } else if n < 0x100_0000_0000 {
        5
    } else if n < 0x1_0000_0000_0000 {
        6
    } else if n < 0x100_0000_0000_0000 {
        7
    } else {
        8
    }
}

/// The `len` low-order base-256 digits of `n`, least significant first.
pub open spec fn le_bytes(n: nat, len: nat) -> Seq<u8>
    decreases len,
{
    if len == 0 {
        Seq::empty()
    } else {
        seq![(n % 256) as u8] + le_bytes(n / 256, (len - 1) as nat)
    }
}

/// The value that a little-endian byte run denotes.
pub open spec fn le_val(s: Seq<u8>) -> nat
    decreases s.len(),
{
    if s.len() == 0 {
        0
    } else {
        (s[0] + 256 * le_val(s.drop_first())) as nat
    }
}

/// The wire form of `n`: its minimal little-endian encoding.
pub open spec fn varint(n: u64) -> Seq<u8> {
    le_bytes(n as nat, varint_len(n))
}

pub proof fn lemma_pow256_pos(l: nat)
    ensures
        pow256(l) >= 1,
    decreases l,
{
    if l > 0 {
        lemma_pow256_pos((l - 1) as nat);
    }
}

pub proof fn lemma_pow256_mono(a: nat, b: nat)
    requires
        a <= b,
    ensures
        pow256(a) <= pow256(b),
    decreases b,
{
    if a < b {
        lemma_pow256_mono(a, (b - 1) as nat);
        lemma_pow256_pos((b - 1) as nat);
    }
}

pub proof fn lemma_le_bytes_len(n: nat, len: nat)
    ensures
        le_bytes(n, len).len() == len,
    decreases len,
{
    if len > 0 {
        lemma_le_bytes_len(n / 256, (len - 1) as nat);
    }
}

pub proof fn lemma_le_bytes_index(n: nat, len: nat, i: int)
    requires
        0 <= i < len,
    ensures
        le_bytes(n, len).len() == len,
        le_bytes(n, len)[i] == (n / pow256(i as nat)) % 256,
    decreases len,
{
    lemma_le_bytes_len(n, len);
    if i == 0 {
        assert(pow256(0) == 1);
        assert(n / 1 == n);
    } else {
        lemma_le_bytes_index(n / 256, (len - 1) as nat, i - 1);
        assert(le_bytes(n, len)[i] == le_bytes(n / 256, (len - 1) as nat)[i - 1]);
        lemma_pow256_pos((i - 1) as nat);
        lemma_div_denominator(n as int, 256, pow256((i - 1) as nat) as int);
        assert(256 * pow256((i - 1) as nat) == pow256(i as nat));
    }
}

pub proof fn lemma_le_val_of_le_bytes(n: nat, len: nat)
    requires
        n < pow256(len),
    ensures
        le_val(le_bytes(n, len)) == n,
    decreases len,
{
    if len == 0 {
        assert(n == 0);
    } else {
        let rest = le_bytes(n / 256, (len - 1) as nat);
        lemma_le_bytes_len(n / 256, (len - 1) as nat);
        assert(le_bytes(n, len).drop_first() =~= rest);
        assert(n < 256 * pow256((len - 1) as nat));
        lemma_div_is_ordered(n as int, 256 * pow256((len - 1) as nat) as int, 256);
        lemma_div_by_multiple(pow256((len - 1) as nat) as int, 256);
        assert(n / 256 < pow256((len - 1) as nat)) by {
            if n / 256 >= pow256((len - 1) as nat) {
                lemma_fundamental_div_mod(n as int, 256);
                assert(n == 256 * (n / 256) + n % 256);
                assert(256 * (n / 256) >= 256 * pow256((len - 1) as nat)) by (nonlinear_arith)
                    requires
                        n / 256 >= pow256((len - 1) as nat),
                ;
            }
        }
        lemma_le_val_of_le_bytes(n / 256, (len - 1) as nat);
        lemma_fundamental_div_mod(n as int, 256);
    }
}

pub proof fn lemma_le_val_bound(s: Seq<u8>)
    ensures
        le_val(s) < pow256(s.len()),
    decreases s.len(),
{
    if s.len() > 0 {
        lemma_le_val_bound(s.drop_first());
        assert(s[0] < 256);
        assert(le_val(s) == s[0] + 256 * le_val(s.drop_first()));
        assert(256 * le_val(s.drop_first()) <= 256 * (pow256((s.len() - 1) as nat) - 1))
            by (nonlinear_arith)
            requires
                le_val(s.drop_first()) <= pow256((s.len() - 1) as nat) - 1,
        ;
    }
}

/// The byte run `le_bytes(n, a + b)` splits at `a` into the encodings of the
/// low digits and of the quotient `n / 256^a`.
pub proof fn lemma_le_bytes_split(n: nat, a: nat, b: nat)
    ensures
        le_bytes(n, a + b) == le_bytes(n, a) + le_bytes(n / pow256(a), b),
    decreases a,
{
    if a == 0 {
        assert(n / 1 == n);
        assert(le_bytes(n, b) =~= le_bytes(n, a) + le_bytes(n / pow256(0), b));
    } else {
        lemma_le_bytes_split(n / 256, (a - 1) as nat, b);
        lemma_pow256_pos((a - 1) as nat);
        lemma_div_denominator(n as int, 256, pow256((a - 1) as nat) as int);
        assert(256 * pow256((a - 1) as nat) == pow256(a));
        assert(le_bytes(n, a + b) =~= le_bytes(n, a) + le_bytes(n / pow256(a), b));
    }
}

/// Varint round trip and minimality: decoding the encoding of `n` gives `n`
/// back, and no shorter length in 1..=8 could have held `n`.
pub proof fn lemma_varint_round_trip(n: u64)
    ensures
        varint(n).len() == varint_len(n),
        1 <= varint_len(n) <= 8,
        le_val(varint(n)) == n,
        forall|l: nat| 0 < l < varint_len(n) ==> pow256(l) <= n,
{
    lemma_pow256_values();
    lemma_le_bytes_len(n as nat, varint_len(n));
    lemma_le_val_of_le_bytes(n as nat, varint_len(n));
    assert forall|l: nat| 0 < l < varint_len(n) implies pow256(l) <= n by {
        lemma_pow256_values();
    }
}

/// Exact length of the minimal encoding of `num`.
pub fn varint_length(num: u64) -> (r: usize)
    ensures
        r == varint_len(num),
{
    if num < 0x100 {
        1
    } else if num < 0x1_0000 {
        2
    } else if num < 0x100_0000 {
        3
    } else if num < 0x1_0000_0000 {
        4
    } else if num < 0x100_0000_0000 {
        5
    } else if num < 0x1_0000_0000_0000 {
        6
    } else if num < 0x100_0000_0000_0000 {
        7
    } else {
        8
    }
}

/// Encodes `num` as its minimal little-endian byte run.
pub fn encode_int(num: u64) -> (r: Vec<u8>)
    ensures
        r@ == varint(num),
        r@.len() == varint_len(num),
{
    let len = varint_length(num);
    le_bytes_exec(num, len)
}

/// The `len` low-order little-endian bytes of `num`.
pub fn le_bytes_exec(num: u64, len: usize) -> (r: Vec<u8>)
    ensures
        r@ == le_bytes(num as nat, len as nat),
        r@.len() == len,
{
    let mut r: Vec<u8> = Vec::new();
    let mut x: u64 = num;
    let mut i: usize = 0;
    proof {
        assert(le_bytes(num as nat, 0) =~= Seq::<u8>::empty());
        assert(pow256(0) == 1);
        assert(num as nat / 1 == num as nat);
    }
    while i < len
        invariant
            i <= len,
            r@ =~= le_bytes(num as nat, i as nat),
            r@.len() == i,
            x as nat == num as nat / pow256(i as nat),
        decreases len - i,
    {
        let b: u8 = (x % 256) as u8;
        r.push(b);
        proof {
            lemma_pow256_pos(i as nat);
            lemma_le_bytes_split(num as nat, i as nat, 1);
            lemma_le_bytes_len(num as nat, i as nat);
            assert(le_bytes(x as nat / 256, 0) =~= Seq::<u8>::empty());
            assert(le_bytes(x as nat, 1) =~= seq![(x as nat % 256) as u8]);
            assert(le_bytes(num as nat, i as nat + 1) =~= le_bytes(num as nat, i as nat)
                + seq![b]);
            lemma_div_denominator(num as int, pow256(i as nat) as int, 256);
            assert(pow256(i as nat) * 256 == pow256((i + 1) as nat)) by {
                assert(pow256((i + 1) as nat) == 256 * pow256(i as nat));
            }
        }
        x = x / 256;
        i = i + 1;
    }
    proof {
        lemma_le_bytes_len(num as nat, len as nat);
    }
    r
}

/// Reads the value that a little-endian byte run denotes.
pub fn le_val_exec(bytes: &[u8]) -> (r: u64)
    requires
        bytes@.len() <= 8,
    ensures
        r as nat == le_val(bytes@),
{
    let len = bytes.len();
    let mut val: u64 = 0;
    let mut i: usize = len;
    proof {
        assert(bytes@.subrange(len as int, len as int) =~= Seq::<u8>::empty());
    }
    while i > 0
        invariant
            i <= len,
            len == bytes@.len(),
            len <= 8,
            val as nat == le_val(bytes@.subrange(i as int, len as int)),
        decreases i,
    {
        i = i - 1;
        let b: u8 = bytes[i];
        proof {
            let sub = bytes@.subrange(i as int, len as int);
            let rest = bytes@.subrange(i as int + 1, len as int);
            assert(sub.drop_first() =~= rest);
            assert(sub[0] == b);
            lemma_le_val_bound(rest);
            lemma_pow256_mono(rest.len(), 7);
            lemma_pow256_values();
            assert(256 * le_val(rest) <= 256 * (pow256(7) - 1)) by (nonlinear_arith)
                requires
                    le_val(rest) <= pow256(7) - 1,
            ;
        }
        val = b as u64 + 256 * val;
    }
    proof {
        assert(bytes@.subrange(0, len as int) =~= bytes@);
    }
    val
}

} // verus!
