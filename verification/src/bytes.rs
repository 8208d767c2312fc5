//! Fixed-width integers as byte sequences, in little and big endian order.
use crate::config::Endianness;
use vstd::prelude::*;

verus! {

/// `256` to the power `n`: the number of values that `n` bytes can hold.
pub open spec fn pow256(n: nat) -> nat
    decreases n,
{
    if n == 0 {
        1
    } else {
        256 * pow256((n - 1) as nat)
    }
}

/// The `n` low bytes of `v`, least significant byte first.
pub open spec fn le_bytes(v: nat, n: nat) -> Seq<u8>
    decreases n,
{
    if n == 0 {
        Seq::empty()
    } else {
        seq![(v % 256) as u8] + le_bytes(v / 256, (n - 1) as nat)
    }
}

/// The `n` low bytes of `v`, most significant byte first.
pub open spec fn be_bytes(v: nat, n: nat) -> Seq<u8>
    decreases n,
{
    if n == 0 {
        Seq::empty()
    } else {
        be_bytes(v / 256, (n - 1) as nat) + seq![(v % 256) as u8]
    }
}

/// The number that a byte sequence holds, least significant byte first.
pub open spec fn le_value(s: Seq<u8>) -> nat
    decreases s.len(),
{
    if s.len() == 0 {
        0
    } else {
        s[0] as nat + 256 * le_value(s.drop_first())
    }
}

/// The number that a byte sequence holds, most significant byte first.
pub open spec fn be_value(s: Seq<u8>) -> nat
    decreases s.len(),
{
    if s.len() == 0 {
        0
    } else {
        be_value(s.drop_last()) * 256 + s.last() as nat
    }
}

/// The `n` low bytes of `v` in the given byte order.
pub open spec fn endian_bytes(e: Endianness, v: nat, n: nat) -> Seq<u8> {
    match e {
        Endianness::Little => le_bytes(v, n),
        Endianness::Big => be_bytes(v, n),
    }
}

/// The number that a byte sequence holds in the given byte order.
pub open spec fn endian_value(e: Endianness, s: Seq<u8>) -> nat {
    match e {
        Endianness::Little => le_value(s),
        Endianness::Big => be_value(s),
    }
}

pub proof fn lemma_pow256_values()
    ensures
        pow256(1) == 0x100,
        pow256(2) == 0x1_0000,
        pow256(4) == 0x1_0000_0000,
        pow256(8) == 0x1_0000_0000_0000_0000,
        pow256(15) == 0x1_00_0000_0000_0000_0000_0000_0000_0000,
        pow256(16) == 0x1_0000_0000_0000_0000_0000_0000_0000_0000,
{
    reveal_with_fuel(pow256, 17);
}

pub proof fn lemma_pow256_monotone(a: nat, b: nat)
    requires
        a <= b,
    ensures
        1 <= pow256(a) <= pow256(b),
    decreases b,
{
    if b > a {
        lemma_pow256_monotone(a, (b - 1) as nat);
    } else if b > 0 {
        lemma_pow256_monotone(0, (b - 1) as nat);
    }
}

pub proof fn lemma_le_bytes_len(v: nat, n: nat)
    ensures
        le_bytes(v, n).len() == n,
    decreases n,
{
    if n > 0 {
        lemma_le_bytes_len(v / 256, (n - 1) as nat);
    }
}

pub proof fn lemma_be_bytes_len(v: nat, n: nat)
    ensures
        be_bytes(v, n).len() == n,
    decreases n,
{
    if n > 0 {
        lemma_be_bytes_len(v / 256, (n - 1) as nat);
    }
}

pub proof fn lemma_le_value_bound(s: Seq<u8>)
    ensures
        le_value(s) < pow256(s.len()),
    decreases s.len(),
{
    if s.len() > 0 {
        lemma_le_value_bound(s.drop_first());
    }
}

pub proof fn lemma_be_value_bound(s: Seq<u8>)
    ensures
        be_value(s) < pow256(s.len()),
    decreases s.len(),
{
    if s.len() > 0 {
        lemma_be_value_bound(s.drop_last());
    }
}

/// Reading back the little-endian bytes of a value gives the value.
pub proof fn lemma_le_round_trip(v: nat, n: nat)
    requires
        v < pow256(n),
    ensures
        le_bytes(v, n).len() == n,
        le_value(le_bytes(v, n)) == v,
    decreases n,
{
    lemma_le_bytes_len(v, n);
    if n > 0 {
        lemma_le_round_trip(v / 256, (n - 1) as nat);
        let s = le_bytes(v, n);
        assert(s.drop_first() =~= le_bytes(v / 256, (n - 1) as nat));
    }
}

/// Reading back the big-endian bytes of a value gives the value.
pub proof fn lemma_be_round_trip(v: nat, n: nat)
    requires
        v < pow256(n),
    ensures
        be_bytes(v, n).len() == n,
        be_value(be_bytes(v, n)) == v,
    decreases n,
{
    lemma_be_bytes_len(v, n);
    if n > 0 {
        lemma_be_round_trip(v / 256, (n - 1) as nat);
        let s = be_bytes(v, n);
        assert(s.drop_last() =~= be_bytes(v / 256, (n - 1) as nat));
    }
}

/// Writing out the value that a byte sequence holds gives the same bytes back.
pub proof fn lemma_le_bytes_of_value(s: Seq<u8>)
    ensures
        le_bytes(le_value(s), s.len()) == s,
    decreases s.len(),
{
    if s.len() > 0 {
        lemma_le_bytes_of_value(s.drop_first());
        let v = le_value(s);
        assert(v % 256 == s[0] as nat);
        assert(v / 256 == le_value(s.drop_first()));
        assert(le_bytes(v, s.len()) =~= s);
    }
}

/// Writing out the value that a byte sequence holds gives the same bytes back.
pub proof fn lemma_be_bytes_of_value(s: Seq<u8>)
    ensures
        be_bytes(be_value(s), s.len()) == s,
    decreases s.len(),
{
    if s.len() > 0 {
        lemma_be_bytes_of_value(s.drop_last());
        let v = be_value(s);
        assert(v % 256 == s.last() as nat);
        assert(v / 256 == be_value(s.drop_last()));
        assert(be_bytes(v, s.len()) =~= s);
    }
}

pub proof fn lemma_endian_round_trip(e: Endianness, v: nat, n: nat)
    requires
        v < pow256(n),
    ensures
        endian_bytes(e, v, n).len() == n,
        endian_value(e, endian_bytes(e, v, n)) == v,
{
    lemma_le_round_trip(v, n);
    lemma_be_round_trip(v, n);
}

pub proof fn lemma_endian_value_bound(e: Endianness, s: Seq<u8>)
    ensures
        endian_value(e, s) < pow256(s.len()),
{
    lemma_le_value_bound(s);
    lemma_be_value_bound(s);
}

pub proof fn lemma_endian_bytes_len(e: Endianness, v: nat, n: nat)
    ensures
        endian_bytes(e, v, n).len() == n,
{
    lemma_le_bytes_len(v, n);
    lemma_be_bytes_len(v, n);
}

/// The `n` low bytes of `v` in the given byte order.
pub fn uint_to_bytes(e: Endianness, v: u128, n: usize) -> (out: Vec<u8>)
    requires
        n <= 16,
    ensures
        out@ == endian_bytes(e, v as nat, n as nat),
        out@.len() == n,
{
    proof {
        lemma_endian_bytes_len(e, v as nat, n as nat);
    }
    match e {
        Endianness::Little => {
            let mut out: Vec<u8> = Vec::new();
            let mut x: u128 = v;
            let mut i: usize = 0;
            while i < n
                invariant
                    i <= n,
                    out@ + le_bytes(x as nat, (n - i) as nat) == le_bytes(v as nat, n as nat),
                decreases n - i,
            {
                let ghost old_out = out@;
                let b = (x % 256) as u8;
                out.push(b);
                proof {
                    let rest = le_bytes(x as nat / 256, (n - i - 1) as nat);
                    assert(le_bytes(x as nat, (n - i) as nat) == seq![b] + rest);
                    assert(out@ + rest =~= old_out + (seq![b] + rest));
                }
                x = x / 256;
                i = i + 1;
            }
            assert(out@ =~= out@ + le_bytes(x as nat, 0));
            out
        },
        Endianness::Big => {
            let mut out: Vec<u8> = Vec::new();
            let mut k: usize = 0;
            while k < n
                invariant
                    k <= n,
                    out@.len() == k,
                    forall|j: int| 0 <= j < k ==> out@[j] == 0,
                decreases n - k,
            {
                out.push(0u8);
                k = k + 1;
            }
            let mut x: u128 = v;
            let mut i: usize = 0;
            while i < n
                invariant
                    i <= n,
                    out@.len() == n,
                    be_bytes(x as nat, (n - i) as nat) + out@.subrange((n - i) as int, n as int)
                        == be_bytes(v as nat, n as nat),
                decreases n - i,
            {
                let ghost old_tail = out@.subrange((n - i) as int, n as int);
                let b = (x % 256) as u8;
                out.set(n - 1 - i, b);
                proof {
                    let head = be_bytes(x as nat / 256, (n - i - 1) as nat);
                    assert(be_bytes(x as nat, (n - i) as nat) == head + seq![b]);
                    assert(out@.subrange((n - i - 1) as int, n as int) =~= seq![b] + old_tail);
                    assert(head + out@.subrange((n - i - 1) as int, n as int) =~= (head + seq![b])
                        + old_tail);
                }
                x = x / 256;
                i = i + 1;
            }
            assert(out@.subrange(0, n as int) =~= out@);
            assert(be_bytes(x as nat, 0) + out@ =~= out@);
            out
        },
    }
}

/// The number that `s` holds in the given byte order.
pub fn uint_from_bytes(e: Endianness, s: &[u8]) -> (v: u128)
    requires
        s@.len() <= 16,
    ensures
        v as nat == endian_value(e, s@),
{
    proof {
        lemma_pow256_values();
    }
    let n = s.len();
    match e {
        Endianness::Little => {
            let mut acc: u128 = 0;
            let mut i: usize = n;
            while i > 0
                invariant
                    i <= n,
                    n == s@.len(),
                    n <= 16,
                    acc as nat == le_value(s@.subrange(i as int, n as int)),
                decreases i,
            {
                let ghost tail = s@.subrange(i as int, n as int);
                let ghost next = s@.subrange(i - 1, n as int);
                proof {
                    assert(next.drop_first() =~= tail);
                    lemma_le_value_bound(tail);
                    lemma_pow256_monotone((n - i) as nat, 15);
                    lemma_pow256_values();
                    assert(acc < pow256(15));
                    assert((acc as int) * 256 + 255 <= u128::MAX);
                }
                acc = acc * 256 + s[i - 1] as u128;
                i = i - 1;
            }
            assert(s@.subrange(0, n as int) =~= s@);
            acc
        },
        Endianness::Big => {
            let mut acc: u128 = 0;
            let mut i: usize = 0;
            while i < n
                invariant
                    i <= n,
                    n == s@.len(),
                    n <= 16,
                    acc as nat == be_value(s@.take(i as int)),
                decreases n - i,
            {
                let ghost head = s@.take(i as int);
                proof {
                    assert(s@.take(i + 1).drop_last() =~= head);
                    lemma_be_value_bound(head);
                    lemma_pow256_monotone(i as nat, 15);
                    lemma_pow256_values();
                    assert(acc < pow256(15));
                    assert((acc as int) * 256 + 255 <= u128::MAX);
                }
                acc = acc * 256 + s[i] as u128;
                i = i + 1;
            }
            assert(s@.take(n as int) =~= s@);
            acc
        },
    }
}

} // verus!
