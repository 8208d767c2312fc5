//! Bit sequences: the view of bytes and integers that bit packing works with.
use vstd::prelude::*;

verus! {

/// Bit `i` of `v`, counting from the least significant bit; there is no bit at 64 or above.
pub open spec fn bit_at(v: u64, i: nat) -> bool {
    i < 64 && (v >> (i as u64)) & 1u64 == 1u64
}

/// The `n` low bits of `v`, least significant first.
pub open spec fn low_bits(v: u64, n: nat) -> Seq<bool> {
    Seq::new(n, |i: int| bit_at(v, i as nat))
}

/// The `n` low bits of `v`, most significant first.
pub open spec fn high_first_bits(v: u64, n: nat) -> Seq<bool> {
    Seq::new(n, |i: int| bit_at(v, (n - 1 - i) as nat))
}

/// The bits of a byte string, each byte least significant bit first.
pub open spec fn bytes_lsb(b: Seq<u8>) -> Seq<bool>
    decreases b.len(),
{
    if b.len() == 0 {
        Seq::empty()
    } else {
        low_bits(b[0] as u64, 8) + bytes_lsb(b.drop_first())
    }
}

/// The bits of a byte string, each byte most significant bit first.
pub open spec fn bytes_msb(b: Seq<u8>) -> Seq<bool>
    decreases b.len(),
{
    if b.len() == 0 {
        Seq::empty()
    } else {
        high_first_bits(b[0] as u64, 8) + bytes_msb(b.drop_first())
    }
}

/// Appending a byte appends its bits.
pub proof fn lemma_bytes_lsb_push(b: Seq<u8>, x: u8)
    ensures
        bytes_lsb(b.push(x)) == bytes_lsb(b) + low_bits(x as u64, 8),
    decreases b.len(),
{
    if b.len() == 0 {
        assert(b.push(x).drop_first() =~= Seq::<u8>::empty());
        assert(bytes_lsb(Seq::<u8>::empty()) == Seq::<bool>::empty());
        assert(bytes_lsb(b) == Seq::<bool>::empty());
        assert(bytes_lsb(b.push(x)) =~= low_bits(x as u64, 8));
    } else {
        assert(b.push(x).drop_first() =~= b.drop_first().push(x));
        lemma_bytes_lsb_push(b.drop_first(), x);
        assert(bytes_lsb(b.push(x)) =~= bytes_lsb(b) + low_bits(x as u64, 8));
    }
}

/// Appending a byte appends its bits.
pub proof fn lemma_bytes_msb_push(b: Seq<u8>, x: u8)
    ensures
        bytes_msb(b.push(x)) == bytes_msb(b) + high_first_bits(x as u64, 8),
    decreases b.len(),
{
    if b.len() == 0 {
        assert(b.push(x).drop_first() =~= Seq::<u8>::empty());
        assert(bytes_msb(Seq::<u8>::empty()) == Seq::<bool>::empty());
        assert(bytes_msb(b) == Seq::<bool>::empty());
        assert(bytes_msb(b.push(x)) =~= high_first_bits(x as u64, 8));
    } else {
        assert(b.push(x).drop_first() =~= b.drop_first().push(x));
        lemma_bytes_msb_push(b.drop_first(), x);
        assert(bytes_msb(b.push(x)) =~= bytes_msb(b) + high_first_bits(x as u64, 8));
    }
}

/// Two numbers with the same 64 bits are equal.
pub proof fn lemma_bits_ext(a: u64, b: u64)
    requires
        forall|i: nat| i < 64 ==> bit_at(a, i) == bit_at(b, i),
    ensures
        a == b,
{
    assert(bit_at(a, 0) == bit_at(b, 0));
    assert(bit_at(a, 1) == bit_at(b, 1));
    assert(bit_at(a, 2) == bit_at(b, 2));
    assert(bit_at(a, 3) == bit_at(b, 3));
    assert(bit_at(a, 4) == bit_at(b, 4));
    assert(bit_at(a, 5) == bit_at(b, 5));
    assert(bit_at(a, 6) == bit_at(b, 6));
    assert(bit_at(a, 7) == bit_at(b, 7));
    assert(bit_at(a, 8) == bit_at(b, 8));
    assert(bit_at(a, 9) == bit_at(b, 9));
    assert(bit_at(a, 10) == bit_at(b, 10));
    assert(bit_at(a, 11) == bit_at(b, 11));
    assert(bit_at(a, 12) == bit_at(b, 12));
    assert(bit_at(a, 13) == bit_at(b, 13));
    assert(bit_at(a, 14) == bit_at(b, 14));
    assert(bit_at(a, 15) == bit_at(b, 15));
    assert(bit_at(a, 16) == bit_at(b, 16));
    assert(bit_at(a, 17) == bit_at(b, 17));
    assert(bit_at(a, 18) == bit_at(b, 18));
    assert(bit_at(a, 19) == bit_at(b, 19));
    assert(bit_at(a, 20) == bit_at(b, 20));
    assert(bit_at(a, 21) == bit_at(b, 21));
    assert(bit_at(a, 22) == bit_at(b, 22));
    assert(bit_at(a, 23) == bit_at(b, 23));
    assert(bit_at(a, 24) == bit_at(b, 24));
    assert(bit_at(a, 25) == bit_at(b, 25));
    assert(bit_at(a, 26) == bit_at(b, 26));
    assert(bit_at(a, 27) == bit_at(b, 27));
    assert(bit_at(a, 28) == bit_at(b, 28));
    assert(bit_at(a, 29) == bit_at(b, 29));
    assert(bit_at(a, 30) == bit_at(b, 30));
    assert(bit_at(a, 31) == bit_at(b, 31));
    assert(bit_at(a, 32) == bit_at(b, 32));
    assert(bit_at(a, 33) == bit_at(b, 33));
    assert(bit_at(a, 34) == bit_at(b, 34));
    assert(bit_at(a, 35) == bit_at(b, 35));
    assert(bit_at(a, 36) == bit_at(b, 36));
    assert(bit_at(a, 37) == bit_at(b, 37));
    assert(bit_at(a, 38) == bit_at(b, 38));
    assert(bit_at(a, 39) == bit_at(b, 39));
    assert(bit_at(a, 40) == bit_at(b, 40));
    assert(bit_at(a, 41) == bit_at(b, 41));
    assert(bit_at(a, 42) == bit_at(b, 42));
    assert(bit_at(a, 43) == bit_at(b, 43));
    assert(bit_at(a, 44) == bit_at(b, 44));
    assert(bit_at(a, 45) == bit_at(b, 45));
    assert(bit_at(a, 46) == bit_at(b, 46));
    assert(bit_at(a, 47) == bit_at(b, 47));
    assert(bit_at(a, 48) == bit_at(b, 48));
    assert(bit_at(a, 49) == bit_at(b, 49));
    assert(bit_at(a, 50) == bit_at(b, 50));
    assert(bit_at(a, 51) == bit_at(b, 51));
    assert(bit_at(a, 52) == bit_at(b, 52));
    assert(bit_at(a, 53) == bit_at(b, 53));
    assert(bit_at(a, 54) == bit_at(b, 54));
    assert(bit_at(a, 55) == bit_at(b, 55));
    assert(bit_at(a, 56) == bit_at(b, 56));
    assert(bit_at(a, 57) == bit_at(b, 57));
    assert(bit_at(a, 58) == bit_at(b, 58));
    assert(bit_at(a, 59) == bit_at(b, 59));
    assert(bit_at(a, 60) == bit_at(b, 60));
    assert(bit_at(a, 61) == bit_at(b, 61));
    assert(bit_at(a, 62) == bit_at(b, 62));
    assert(bit_at(a, 63) == bit_at(b, 63));
    lemma_bit_values(a);
    lemma_bit_values(b);
    lemma_bits_ext_bv(a, b);
}

/// Each bit of a number is `0` or `1`.
proof fn lemma_bit_values(a: u64)
    ensures
        forall|i: u64| ((a >> i) & 1u64) == 1u64 || ((a >> i) & 1u64) == 0u64,
{
    assert forall|i: u64| ((a >> i) & 1u64) == 1u64 || ((a >> i) & 1u64) == 0u64 by {
        assert(((a >> i) & 1u64) == 1u64 || ((a >> i) & 1u64) == 0u64) by (bit_vector);
    }
}

proof fn lemma_bits_ext_bv(a: u64, b: u64)
    by (bit_vector)
    requires
        (a >> 0u64) & 1u64 == (b >> 0u64) & 1u64,
        (a >> 1u64) & 1u64 == (b >> 1u64) & 1u64,
        (a >> 2u64) & 1u64 == (b >> 2u64) & 1u64,
        (a >> 3u64) & 1u64 == (b >> 3u64) & 1u64,
        (a >> 4u64) & 1u64 == (b >> 4u64) & 1u64,
        (a >> 5u64) & 1u64 == (b >> 5u64) & 1u64,
        (a >> 6u64) & 1u64 == (b >> 6u64) & 1u64,
        (a >> 7u64) & 1u64 == (b >> 7u64) & 1u64,
        (a >> 8u64) & 1u64 == (b >> 8u64) & 1u64,
        (a >> 9u64) & 1u64 == (b >> 9u64) & 1u64,
        (a >> 10u64) & 1u64 == (b >> 10u64) & 1u64,
        (a >> 11u64) & 1u64 == (b >> 11u64) & 1u64,
        (a >> 12u64) & 1u64 == (b >> 12u64) & 1u64,
        (a >> 13u64) & 1u64 == (b >> 13u64) & 1u64,
        (a >> 14u64) & 1u64 == (b >> 14u64) & 1u64,
        (a >> 15u64) & 1u64 == (b >> 15u64) & 1u64,
        (a >> 16u64) & 1u64 == (b >> 16u64) & 1u64,
        (a >> 17u64) & 1u64 == (b >> 17u64) & 1u64,
        (a >> 18u64) & 1u64 == (b >> 18u64) & 1u64,
        (a >> 19u64) & 1u64 == (b >> 19u64) & 1u64,
        (a >> 20u64) & 1u64 == (b >> 20u64) & 1u64,
        (a >> 21u64) & 1u64 == (b >> 21u64) & 1u64,
        (a >> 22u64) & 1u64 == (b >> 22u64) & 1u64,
        (a >> 23u64) & 1u64 == (b >> 23u64) & 1u64,
        (a >> 24u64) & 1u64 == (b >> 24u64) & 1u64,
        (a >> 25u64) & 1u64 == (b >> 25u64) & 1u64,
        (a >> 26u64) & 1u64 == (b >> 26u64) & 1u64,
        (a >> 27u64) & 1u64 == (b >> 27u64) & 1u64,
        (a >> 28u64) & 1u64 == (b >> 28u64) & 1u64,
        (a >> 29u64) & 1u64 == (b >> 29u64) & 1u64,
        (a >> 30u64) & 1u64 == (b >> 30u64) & 1u64,
        (a >> 31u64) & 1u64 == (b >> 31u64) & 1u64,
        (a >> 32u64) & 1u64 == (b >> 32u64) & 1u64,
        (a >> 33u64) & 1u64 == (b >> 33u64) & 1u64,
        (a >> 34u64) & 1u64 == (b >> 34u64) & 1u64,
        (a >> 35u64) & 1u64 == (b >> 35u64) & 1u64,
        (a >> 36u64) & 1u64 == (b >> 36u64) & 1u64,
        (a >> 37u64) & 1u64 == (b >> 37u64) & 1u64,
        (a >> 38u64) & 1u64 == (b >> 38u64) & 1u64,
        (a >> 39u64) & 1u64 == (b >> 39u64) & 1u64,
        (a >> 40u64) & 1u64 == (b >> 40u64) & 1u64,
        (a >> 41u64) & 1u64 == (b >> 41u64) & 1u64,
        (a >> 42u64) & 1u64 == (b >> 42u64) & 1u64,
        (a >> 43u64) & 1u64 == (b >> 43u64) & 1u64,
        (a >> 44u64) & 1u64 == (b >> 44u64) & 1u64,
        (a >> 45u64) & 1u64 == (b >> 45u64) & 1u64,
        (a >> 46u64) & 1u64 == (b >> 46u64) & 1u64,
        (a >> 47u64) & 1u64 == (b >> 47u64) & 1u64,
        (a >> 48u64) & 1u64 == (b >> 48u64) & 1u64,
        (a >> 49u64) & 1u64 == (b >> 49u64) & 1u64,
        (a >> 50u64) & 1u64 == (b >> 50u64) & 1u64,
        (a >> 51u64) & 1u64 == (b >> 51u64) & 1u64,
        (a >> 52u64) & 1u64 == (b >> 52u64) & 1u64,
        (a >> 53u64) & 1u64 == (b >> 53u64) & 1u64,
        (a >> 54u64) & 1u64 == (b >> 54u64) & 1u64,
        (a >> 55u64) & 1u64 == (b >> 55u64) & 1u64,
        (a >> 56u64) & 1u64 == (b >> 56u64) & 1u64,
        (a >> 57u64) & 1u64 == (b >> 57u64) & 1u64,
        (a >> 58u64) & 1u64 == (b >> 58u64) & 1u64,
        (a >> 59u64) & 1u64 == (b >> 59u64) & 1u64,
        (a >> 60u64) & 1u64 == (b >> 60u64) & 1u64,
        (a >> 61u64) & 1u64 == (b >> 61u64) & 1u64,
        (a >> 62u64) & 1u64 == (b >> 62u64) & 1u64,
        (a >> 63u64) & 1u64 == (b >> 63u64) & 1u64,
    ensures
        a == b,
{
}

/// Putting the `k` low bits of `v` (`chunk`) above the `count` bits of `cur` keeps the bits of
/// `cur` below `count` and puts those of `v` above them.
pub proof fn lemma_lsb_put_bv(cur: u8, count: u8, v: u64, k: u8, mask: u64, chunk: u8, c2: u8)
    by (bit_vector)
    requires
        count < 8,
        1 <= k,
        count + k <= 8,
        cur >> count == 0,
        mask as int == (1u64 << (k as u64)) - 1,
        chunk == (v & mask) as u8,
        c2 == cur | (chunk << count),
    ensures
        forall|i: u64|
            #![trigger ((c2 as u64) >> i) & 1u64]
            i < (count + k) as u64 ==> ((c2 as u64) >> i) & 1u64 == if i < count as u64 {
                ((cur as u64) >> i) & 1u64
            } else {
                (v >> ((i - count) as u64)) & 1u64
            },
        count + k < 8 ==> c2 >> ((count + k) as u8) == 0,
{
}

/// Splitting a byte at bit `c` into the bits below it (`clean`) and those from it on (`stray`):
/// the low part has nothing from `c` on and keeps the low bits, OR-ing bits in at `c` and above
/// commutes with putting the stray bits back, and there are no stray bits exactly when nothing
/// stands from `c` on.
pub proof fn lemma_lsb_stray_bv(b: u8, c: u8, clean: u8, stray: u8)
    by (bit_vector)
    requires
        c < 8,
        stray == (b >> c) << c,
        clean == b ^ stray,
    ensures
        clean >> c == 0,
        forall|i: u64|
            #![trigger ((clean as u64) >> i) & 1u64]
            i < c as u64 ==> ((clean as u64) >> i) & 1u64 == ((b as u64) >> i) & 1u64,
        forall|ch: u8| #![trigger ch << c] (b | (ch << c)) == ((clean | (ch << c)) | stray),
        (stray == 0) == (b >> c == 0),
        (clean | stray) == b,
        stray == 0 ==> clean == b,
        forall|k: u64| #![trigger 1u64 << k] k <= 8 ==> 1u64 << k >= 1,
        0u8 >> 0u8 == 0u8,
{
}

/// The bits of a concatenation of byte strings, least significant bit first.
pub proof fn lemma_bytes_lsb_append(a: Seq<u8>, b: Seq<u8>)
    ensures
        bytes_lsb(a + b) == bytes_lsb(a) + bytes_lsb(b),
    decreases a.len(),
{
    if a.len() == 0 {
        assert(a + b =~= b);
        assert(bytes_lsb(a) + bytes_lsb(b) =~= bytes_lsb(b));
    } else {
        assert((a + b).drop_first() =~= a.drop_first() + b);
        assert((a + b)[0] == a[0]);
        lemma_bytes_lsb_append(a.drop_first(), b);
        assert(bytes_lsb(a + b) =~= bytes_lsb(a) + bytes_lsb(b));
    }
}

/// Splitting a byte below its `c` high bits into those bits (`clean`) and the ones under them
/// (`stray`): the high part has nothing under its `c` bits and keeps them, OR-ing bits in
/// commutes with putting the stray bits back, and there are no stray bits exactly when nothing
/// stands under the `c` high bits.
pub proof fn lemma_msb_stray_bv(b: u8, c: u8, m: u64, clean: u8, stray: u8)
    by (bit_vector)
    requires
        c <= 8,
        m == 0xffu64 >> (c as u64),
        stray == ((b as u64) & m) as u8,
        clean == b ^ stray,
    ensures
        m as int == (1u64 << ((8 - c) as u64)) - 1,
        (clean as u64) & m == 0,
        (clean as u64) >> ((8 - c) as u64) == (b as u64) >> ((8 - c) as u64),
        forall|x: u8| #![trigger b | x] (b | x) == ((clean | x) | stray),
        (stray == 0) == ((b as u64) & m == 0),
        stray == 0 ==> clean == b,
        (clean | stray) == b,
        c == 8 ==> stray == 0,
        forall|v: u64| #![trigger v >> 0u64] v >> 0u64 == v,
        forall|k: u64| #![trigger 1u64 << k] k <= 8 ==> 1u64 << k >= 1,
        0u64 & (((1u64 << 8u64) - 1) as u64) == 0,
{
}

/// The bits of a concatenation of byte strings, most significant bit first.
pub proof fn lemma_bytes_msb_append(a: Seq<u8>, b: Seq<u8>)
    ensures
        bytes_msb(a + b) == bytes_msb(a) + bytes_msb(b),
    decreases a.len(),
{
    if a.len() == 0 {
        assert(a + b =~= b);
        assert(bytes_msb(a) + bytes_msb(b) =~= bytes_msb(b));
    } else {
        assert((a + b).drop_first() =~= a.drop_first() + b);
        assert((a + b)[0] == a[0]);
        lemma_bytes_msb_append(a.drop_first(), b);
        assert(bytes_msb(a + b) =~= bytes_msb(a) + bytes_msb(b));
    }
}

/// Facts of shifting and masking that the bit writer and its laws use: the empty state has no
/// stray bits in either order, a one shifted by at most 8 is positive, and shifting by nothing
/// changes nothing.
pub proof fn lemma_shift_basics()
    by (bit_vector)
    ensures
        0u8 >> 0u8 == 0u8,
        0u64 & (((1u64 << 8u64) - 1) as u64) == 0,
        forall|k: u64| #![trigger 1u64 << k] k <= 8 ==> 1u64 << k >= 1,
        forall|v: u64| #![trigger v >> 0u64] v >> 0u64 == v,
{
}

/// The bits of `v >> k` are those of `v` from `k` on.
pub proof fn lemma_shr_bits_bv(v: u64, k: u64)
    by (bit_vector)
    requires
        k <= 64,
    ensures
        forall|j: u64|
            #![trigger ((v >> k) >> j) & 1u64]
            j < 64 ==> ((v >> k) >> j) & 1u64 == if j + k < 64 {
                (v >> (j + k)) & 1u64
            } else {
                0u64
            },
{
}

/// Putting the `k` low bits of `v` above the `count` bits of `cur` appends them to its bits.
pub proof fn lemma_lsb_put(cur: u8, count: u8, v: u64, k: u8, mask: u64, chunk: u8, c2: u8)
    requires
        count < 8,
        1 <= k,
        count + k <= 8,
        cur >> count == 0,
        mask as int == (1u64 << (k as u64)) - 1,
        chunk == (v & mask) as u8,
        c2 == cur | (chunk << count),
    ensures
        low_bits(c2 as u64, (count + k) as nat) == low_bits(cur as u64, count as nat) + low_bits(v, k as nat),
        count + k < 8 ==> c2 >> ((count + k) as u8) == 0,
{
    lemma_lsb_put_bv(cur, count, v, k, mask, chunk, c2);
    lemma_shr_bits_bv(v, 0);
    assert forall|i: int| 0 <= i < count + k implies #[trigger] low_bits(c2 as u64, (count + k) as nat)[i]
        == (low_bits(cur as u64, count as nat) + low_bits(v, k as nat))[i] by {
        let iu = i as u64;
        assert(((c2 as u64) >> iu) & 1u64 == if iu < count as u64 {
            ((cur as u64) >> iu) & 1u64
        } else {
            (v >> ((iu - count) as u64)) & 1u64
        });
    }
    assert(low_bits(c2 as u64, (count + k) as nat) =~= low_bits(cur as u64, count as nat) + low_bits(v, k as nat));
}

/// The `n` low bits of `v` are its `k` low bits followed by the `n - k` low bits of `v >> k`.
pub proof fn lemma_low_bits_split(v: u64, k: nat, n: nat)
    requires
        k <= n,
        k <= 64,
    ensures
        low_bits(v, n) == low_bits(v, k) + low_bits(v >> (k as u64), (n - k) as nat),
{
    lemma_shr_bits_bv(v, k as u64);
    assert forall|i: int| 0 <= i < n implies #[trigger] low_bits(v, n)[i] == (low_bits(v, k) + low_bits(
        v >> (k as u64),
        (n - k) as nat,
    ))[i] by {
        if i >= k {
            let j = (i - k) as u64;
            if j < 64 {
                assert(((v >> (k as u64)) >> j) & 1u64 == if j + k < 64 {
                    (v >> ((j + k) as u64)) & 1u64
                } else {
                    0u64
                });
            }
        }
    }
    assert(low_bits(v, n) =~= low_bits(v, k) + low_bits(v >> (k as u64), (n - k) as nat));
}

/// Whether `(byte, count)` leaves the bits below the `count` high bits of `byte` clear.
pub open spec fn msb_clear_below(byte: u8, count: u8) -> bool {
    count <= 8 && (byte as u64) & (((1u64 << ((8 - count) as u64)) - 1) as u64) == 0
}

/// The `count` high bits of `byte`, most significant first.
pub open spec fn top_bits(byte: u8, count: nat) -> Seq<bool> {
    high_first_bits((byte as u64) >> ((8 - count) as u64), count)
}

/// Putting the `k` bits of `v` below position `sd + k` (`chunk`) under the `count` high bits of
/// `cur` keeps those bits and puts the chunk right below them.
pub proof fn lemma_msb_put_bv(
    cur: u8,
    free: u8,
    v: u64,
    k: u8,
    sd: u64,
    mask: u64,
    chunk: u8,
    shift_up: u8,
    lowmask: u64,
    c2: u8,
)
    by (bit_vector)
    requires
        1 <= free <= 8,
        1 <= k <= free,
        sd < 64,
        mask as int == (1u64 << (k as u64)) - 1,
        chunk == ((v >> sd) & mask) as u8,
        shift_up as int == free - k,
        lowmask as int == (1u64 << (free as u64)) - 1,
        (cur as u64) & lowmask == 0,
        c2 == cur | (chunk << shift_up),
    ensures
        forall|p: u64|
            #![trigger ((c2 as u64) >> p) & 1u64]
            p < 8 ==> ((c2 as u64) >> p) & 1u64 == if p >= free as u64 {
                ((cur as u64) >> p) & 1u64
            } else if p >= shift_up as u64 {
                ((v >> sd) >> ((p - shift_up) as u64)) & 1u64
            } else {
                0u64
            },
        (c2 as u64) & (((1u64 << (shift_up as u64)) - 1) as u64) == 0,
{
}

/// The bit at position `p` of a byte read from the top: bit `7 - i` is the `i`-th of the
/// `count` high bits.
pub proof fn lemma_top_bits_index(byte: u8, count: nat, i: int)
    requires
        count <= 8,
        0 <= i < count,
    ensures
        top_bits(byte, count)[i] == (((byte as u64) >> ((7 - i) as u64)) & 1u64 == 1u64),
{
    let x = byte as u64;
    let f = (8 - count) as u64;
    let q = (count - 1 - i) as u64;
    assert((x >> f) >> q == x >> ((f + q) as u64)) by (bit_vector)
        requires f <= 8, q < 8;
}

/// Putting `k` bits of `v` under the `count` high bits of a byte appends them, most significant
/// first, to its high bits.
pub proof fn lemma_msb_put(cur: u8, count: u8, v: u64, k: u8, sd: u64, mask: u64, chunk: u8, shift_up: u8, c2: u8)
    requires
        count < 8,
        1 <= k,
        count + k <= 8,
        sd < 64,
        msb_clear_below(cur, count),
        mask as int == (1u64 << (k as u64)) - 1,
        chunk == ((v >> sd) & mask) as u8,
        shift_up as int == 8 - count - k,
        c2 == cur | (chunk << shift_up),
    ensures
        top_bits(c2, (count + k) as nat) == top_bits(cur, count as nat) + high_first_bits(v >> sd, k as nat),
        msb_clear_below(c2, (count + k) as u8),
{
    let free = (8 - count) as u8;
    assert(1u64 << (free as u64) >= 1) by (bit_vector)
        requires free <= 8;
    let lowmask = ((1u64 << (free as u64)) - 1) as u64;
    lemma_msb_put_bv(cur, free, v, k, sd, mask, chunk, shift_up, lowmask, c2);
    let n = (count + k) as nat;
    assert forall|i: int| 0 <= i < n implies #[trigger] top_bits(c2, n)[i] == (top_bits(cur, count as nat)
        + high_first_bits(v >> sd, k as nat))[i] by {
        lemma_top_bits_index(c2, n, i);
        let p = (7 - i) as u64;
        assert(((c2 as u64) >> p) & 1u64 == if p >= free as u64 {
            ((cur as u64) >> p) & 1u64
        } else if p >= shift_up as u64 {
            ((v >> sd) >> ((p - shift_up) as u64)) & 1u64
        } else {
            0u64
        });
        if i < count {
            lemma_top_bits_index(cur, count as nat, i);
        }
    }
    assert(top_bits(c2, n) =~= top_bits(cur, count as nat) + high_first_bits(v >> sd, k as nat));
}

/// The `n` low bits of `v`, most significant first, are the `k` bits from position `n - k` up,
/// then the `n - k` low bits.
pub proof fn lemma_high_first_split(v: u64, k: nat, n: nat)
    requires
        k <= n <= 64,
    ensures
        high_first_bits(v, n) == high_first_bits(v >> ((n - k) as u64), k) + high_first_bits(
            v,
            (n - k) as nat,
        ),
{
    let sd = (n - k) as u64;
    lemma_shr_bits_bv(v, sd);
    assert forall|i: int| 0 <= i < n implies #[trigger] high_first_bits(v, n)[i] == (high_first_bits(
        v >> sd,
        k,
    ) + high_first_bits(v, (n - k) as nat))[i] by {
        if i < k {
            let j = (k - 1 - i) as u64;
            assert(((v >> sd) >> j) & 1u64 == if j + sd < 64 {
                (v >> ((j + sd) as u64)) & 1u64
            } else {
                0u64
            });
        }
    }
    assert(high_first_bits(v, n) =~= high_first_bits(v >> sd, k) + high_first_bits(v, (n - k) as nat));
}

/// `n` clear bits.
pub open spec fn zero_bits(n: nat) -> Seq<bool> {
    Seq::new(n, |i: int| false)
}

/// A byte whose bits from `count` up are clear has, as its 8 bits, its `count` low bits and then
/// clear bits.
pub proof fn lemma_lsb_pad(c: u8, count: u8)
    requires
        count <= 8,
        count < 8 ==> c >> count == 0,
    ensures
        low_bits(c as u64, 8) == low_bits(c as u64, count as nat) + zero_bits((8 - count) as nat),
{
    assert forall|i: u64| count <= i < 8 implies #[trigger] ((c as u64) >> i) & 1u64 == 0u64 by {
        assert(((c as u64) >> i) & 1u64 == 0u64) by (bit_vector)
            requires count <= i < 8, c >> count == 0;
    }
    assert(low_bits(c as u64, 8) =~= low_bits(c as u64, count as nat) + zero_bits((8 - count) as nat));
}

/// A byte whose bits below its `count` high bits are clear has, as its 8 bits most significant
/// first, its `count` high bits and then clear bits.
pub proof fn lemma_msb_pad(c: u8, count: u8)
    requires
        msb_clear_below(c, count),
    ensures
        high_first_bits(c as u64, 8) == top_bits(c, count as nat) + zero_bits((8 - count) as nat),
{
    let free = (8 - count) as u64;
    assert(1u64 << free >= 1) by (bit_vector)
        requires free <= 8;
    let lowmask = ((1u64 << free) - 1) as u64;
    assert forall|i: int| 0 <= i < 8 implies #[trigger] high_first_bits(c as u64, 8)[i] == (top_bits(c, count as nat) + zero_bits((8 - count) as nat))[i] by {
        let p = (7 - i) as u64;
        if i < count {
            lemma_top_bits_index(c, count as nat, i);
        } else {
            assert(((c as u64) >> p) & 1u64 == 0u64) by (bit_vector)
                requires p < free, free <= 8, lowmask as int == (1u64 << free) - 1, (c as u64) & lowmask == 0;
        }
    }
    assert(high_first_bits(c as u64, 8) =~= top_bits(c, count as nat) + zero_bits((8 - count) as nat));
}

/// Putting `chunk` (of `k` bits) above the `nb` bits of `r` keeps the bits of `r` and puts the
/// chunk's bits above them.
pub proof fn lemma_acc_lsb_bv(r: u64, nb: u64, chunk: u64, k: u64, r2: u64)
    by (bit_vector)
    requires
        1 <= k <= 8,
        nb + k <= 64,
        r >> nb == 0,
        chunk >> k == 0,
        r2 == r | (chunk << nb),
    ensures
        forall|i: u64|
            #![trigger (r2 >> i) & 1u64]
            i < nb + k ==> (r2 >> i) & 1u64 == if i < nb {
                (r >> i) & 1u64
            } else {
                (chunk >> ((i - nb) as u64)) & 1u64
            },
        nb + k < 64 ==> r2 >> ((nb + k) as u64) == 0,
{
}

/// Shifting the `nb` bits of `r` up by `k` and putting `chunk` (of `k` bits) below them.
pub proof fn lemma_acc_msb_bv(r: u64, nb: u64, chunk: u64, k: u64, r2: u64)
    by (bit_vector)
    requires
        1 <= k <= 8,
        nb + k <= 64,
        r >> nb == 0,
        chunk >> k == 0,
        r2 == (r << k) | chunk,
    ensures
        forall|p: u64|
            #![trigger (r2 >> p) & 1u64]
            p < nb + k ==> (r2 >> p) & 1u64 == if p >= k {
                (r >> ((p - k) as u64)) & 1u64
            } else {
                (chunk >> p) & 1u64
            },
        nb + k < 64 ==> r2 >> ((nb + k) as u64) == 0,
{
}

/// Accumulating `k` bits least significant first.
pub proof fn lemma_acc_lsb(r: u64, nb: u64, chunk: u64, k: u64, r2: u64)
    requires
        1 <= k <= 8,
        nb + k <= 64,
        r >> nb == 0,
        chunk >> k == 0,
        r2 == r | (chunk << nb),
    ensures
        low_bits(r2, (nb + k) as nat) == low_bits(r, nb as nat) + low_bits(chunk, k as nat),
        nb + k < 64 ==> r2 >> ((nb + k) as u64) == 0,
{
    lemma_acc_lsb_bv(r, nb, chunk, k, r2);
    assert forall|i: int| 0 <= i < nb + k implies #[trigger] low_bits(r2, (nb + k) as nat)[i] == (low_bits(r, nb as nat)
        + low_bits(chunk, k as nat))[i] by {
        let iu = i as u64;
        assert((r2 >> iu) & 1u64 == if iu < nb {
            (r >> iu) & 1u64
        } else {
            (chunk >> ((iu - nb) as u64)) & 1u64
        });
    }
    assert(low_bits(r2, (nb + k) as nat) =~= low_bits(r, nb as nat) + low_bits(chunk, k as nat));
}

/// Accumulating `k` bits most significant first.
pub proof fn lemma_acc_msb(r: u64, nb: u64, chunk: u64, k: u64, r2: u64)
    requires
        1 <= k <= 8,
        nb + k <= 64,
        r >> nb == 0,
        chunk >> k == 0,
        r2 == (r << k) | chunk,
    ensures
        high_first_bits(r2, (nb + k) as nat) == high_first_bits(r, nb as nat) + high_first_bits(chunk, k as nat),
        nb + k < 64 ==> r2 >> ((nb + k) as u64) == 0,
{
    lemma_acc_msb_bv(r, nb, chunk, k, r2);
    assert forall|i: int| 0 <= i < nb + k implies #[trigger] high_first_bits(r2, (nb + k) as nat)[i] == (
    high_first_bits(r, nb as nat) + high_first_bits(chunk, k as nat))[i] by {
        let p = (nb + k - 1 - i) as u64;
        assert((r2 >> p) & 1u64 == if p >= k {
            (r >> ((p - k) as u64)) & 1u64
        } else {
            (chunk >> p) & 1u64
        });
    }
    assert(high_first_bits(r2, (nb + k) as nat) =~= high_first_bits(r, nb as nat) + high_first_bits(chunk, k as nat));
}

/// Masking keeps the low bits.
pub proof fn lemma_mask_bits(v: u64, k: u64, mask: u64)
    requires
        k <= 8,
        mask as int == (1u64 << k) - 1,
    ensures
        low_bits(v & mask, k as nat) == low_bits(v, k as nat),
        high_first_bits(v & mask, k as nat) == high_first_bits(v, k as nat),
        (v & mask) >> k == 0,
{
    assert(forall|i: u64| #![trigger ((v & mask) >> i) & 1u64] i < k ==> ((v & mask) >> i) & 1u64 == (v >> i) & 1u64) by (bit_vector)
        requires k <= 8, mask as int == (1u64 << k) - 1;
    assert((v & mask) >> k == 0) by (bit_vector)
        requires k <= 8, mask as int == (1u64 << k) - 1;
    assert(low_bits(v & mask, k as nat) =~= low_bits(v, k as nat));
    assert forall|i: int| 0 <= i < k implies #[trigger] high_first_bits(v & mask, k as nat)[i] == high_first_bits(v, k as nat)[i] by {
        let p = (k - 1 - i) as u64;
        assert(((v & mask) >> p) & 1u64 == (v >> p) & 1u64);
    }
    assert(high_first_bits(v & mask, k as nat) =~= high_first_bits(v, k as nat));
}

/// Two numbers below `2^n` with the same `n` low bits are equal.
pub proof fn lemma_low_bits_eq(v: u64, w: u64, n: nat)
    requires
        n <= 64,
        n < 64 ==> v >> (n as u64) == 0 && w >> (n as u64) == 0,
        low_bits(v, n) == low_bits(w, n),
    ensures
        v == w,
{
    assert forall|i: nat| i < 64 implies bit_at(v, i) == bit_at(w, i) by {
        if i < n {
            assert(low_bits(v, n)[i as int] == low_bits(w, n)[i as int]);
            assert(low_bits(v, n)[i as int] == bit_at(v, i));
            assert(low_bits(w, n)[i as int] == bit_at(w, i));
        } else {
            let iu = i as u64;
            let nu = n as u64;
            assert((v >> iu) & 1u64 == 0u64) by (bit_vector)
                requires nu <= iu, iu < 64, v >> nu == 0;
            assert((w >> iu) & 1u64 == 0u64) by (bit_vector)
                requires nu <= iu, iu < 64, w >> nu == 0;
            assert(!bit_at(v, i));
            assert(!bit_at(w, i));
        }
    }
    lemma_bits_ext(v, w);
}

/// Bits that were packed least significant bit first read back as the same value: when the bits
/// written after a prefix are the `n` low bits of `val` (then anything), the `n` bits read at the
/// same position make `val` again.
pub proof fn lemma_bit_packing_round_trip_lsb(prefix: Seq<bool>, val: u64, n: u8, after: Seq<bool>, read: u64)
    requires
        n <= 64,
        n < 64 ==> val >> (n as u64) == 0,
        n < 64 ==> read >> (n as u64) == 0,
        low_bits(read, n as nat) == (prefix + low_bits(val, n as nat) + after).skip(prefix.len() as int).take(
            n as int,
        ),
    ensures
        read == val,
{
    assert((prefix + low_bits(val, n as nat) + after).skip(prefix.len() as int).take(n as int) =~= low_bits(
        val,
        n as nat,
    ));
    lemma_low_bits_eq(read, val, n as nat);
}

/// Bits that were packed most significant bit first read back as the same value.
pub proof fn lemma_bit_packing_round_trip_msb(prefix: Seq<bool>, val: u64, n: u8, after: Seq<bool>, read: u64)
    requires
        n <= 64,
        n < 64 ==> val >> (n as u64) == 0,
        n < 64 ==> read >> (n as u64) == 0,
        high_first_bits(read, n as nat) == (prefix + high_first_bits(val, n as nat) + after).skip(
            prefix.len() as int,
        ).take(n as int),
    ensures
        read == val,
{
    let hv = high_first_bits(val, n as nat);
    assert((prefix + hv + after).skip(prefix.len() as int).take(n as int) =~= hv);
    assert forall|i: int| 0 <= i < n implies #[trigger] low_bits(read, n as nat)[i] == low_bits(val, n as nat)[i] by {
        assert(high_first_bits(read, n as nat)[n - 1 - i] == hv[n - 1 - i]);
    }
    assert(low_bits(read, n as nat) =~= low_bits(val, n as nat));
    lemma_low_bits_eq(read, val, n as nat);
}

} // verus!
