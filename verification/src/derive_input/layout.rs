//! How the bit-packing derives lay a type out: the width of an enum's variant index, and the
//! runs of bit-packed and plain fields of a struct.
use vstd::arithmetic::power2::{lemma_pow2_unfold, pow2};
use vstd::prelude::*;

verus! {

/// The number of binary digits of `v`: 0 for 0, else one more than for `v / 2`.
pub open spec fn bit_length(v: nat) -> nat
    decreases v,
{
    if v == 0 {
        0
    } else {
        1 + bit_length(v / 2)
    }
}

/// Every number below `pow2(bit_length(v))`, and none below `pow2(bit_length(v) - 1)`, is `v`.
pub proof fn lemma_bit_length_bounds(v: nat)
    ensures
        v < pow2(bit_length(v)),
        v > 0 ==> pow2((bit_length(v) - 1) as nat) <= v,
    decreases v,
{
    if v == 0 {
        vstd::arithmetic::power2::lemma_pow2_pos(0);
    } else {
        let b = bit_length(v);
        let h = v / 2;
        lemma_bit_length_bounds(h);
        assert(b == 1 + bit_length(h));
        lemma_pow2_unfold(b);
        assert(pow2(b) == 2 * pow2(bit_length(h)));
        assert(v <= 2 * h + 1);
        if h > 0 {
            lemma_pow2_unfold(bit_length(h));
            assert(pow2((b - 1) as nat) == 2 * pow2((bit_length(h) - 1) as nat));
        } else {
            assert(bit_length(h) == 0);
            assert(pow2(0) == 1) by {
                vstd::arithmetic::power2::lemma2_to64();
            }
        }
    }
}

/// How many bits the index of a variant of an enum with `variant_count` variants takes:
/// none for one variant or none, else enough for the greatest index, `variant_count - 1`.
pub open spec fn variant_index_bits(variant_count: nat) -> nat {
    if variant_count <= 1 {
        0
    } else {
        bit_length((variant_count - 1) as nat)
    }
}

/// The number of bits that the bit-packed form of an enum with `variant_count` variants spends
/// on the variant index.
pub fn variant_bits(variant_count: u32) -> (r: u32)
    ensures
        r == variant_index_bits(variant_count as nat),
        r <= 32,
{
    if variant_count <= 1 {
        return 0;
    }
    let mut v: u32 = variant_count - 1;
    let mut bits: u32 = 0;
    proof {
        lemma_bit_length_bounds(v as nat);
        lemma_bit_length_le_32(v as nat);
    }
    while v > 0
        invariant
            bits + bit_length(v as nat) == bit_length((variant_count - 1) as nat),
            bit_length((variant_count - 1) as nat) <= 32,
        decreases v,
    {
        v = v / 2;
        bits = bits + 1;
    }
    bits
}

/// A number below `2^32` has no more than 32 binary digits.
proof fn lemma_bit_length_le_32(v: nat)
    requires
        v < 0x1_0000_0000,
    ensures
        bit_length(v) <= 32,
{
    lemma_bit_length_bounds(v);
    if bit_length(v) > 32 {
        let e = (bit_length(v) - 1) as nat;
        vstd::arithmetic::power2::lemma2_to64();
        if e > 32 {
            vstd::arithmetic::power2::lemma_pow2_strictly_increases(32, e);
        }
        assert(pow2(e) >= pow2(32));
    }
}

/// Every index of an enum's variants fits in the bits that its packed form spends on it, and
/// no fewer bits would do: with `variant_index_bits(n)` bits, `2^bits` indices can be told
/// apart, at least `n` of them, and half as many would be fewer than `n`.
pub proof fn lemma_variant_bits_fit(variant_count: nat)
    requires
        variant_count >= 2,
    ensures
        variant_count <= pow2(variant_index_bits(variant_count)),
        pow2((variant_index_bits(variant_count) - 1) as nat) < variant_count,
{
    lemma_bit_length_bounds((variant_count - 1) as nat);
}

/// The flags that runs stand for: each run `(packed, n)` is `n` times `packed`, in order.
pub open spec fn expand_runs(runs: Seq<(bool, usize)>) -> Seq<bool>
    decreases runs.len(),
{
    if runs.len() == 0 {
        Seq::empty()
    } else {
        expand_runs(runs.drop_last()) + Seq::new(runs.last().1 as nat, |i: int| runs.last().0)
    }
}

/// Whether `runs` are the maximal runs of equal flags: none is empty, and no two neighbours
/// share their flag.
pub open spec fn maximal_runs(runs: Seq<(bool, usize)>) -> bool {
    &&& forall|i: int| 0 <= i < runs.len() ==> (#[trigger] runs[i]).1 > 0
    &&& forall|i: int| 0 <= i < runs.len() - 1 ==> (#[trigger] runs[i]).0 != runs[i + 1].0
}

/// Split the fields of a struct, given by whether each is bit-packed, into runs of
/// neighbouring fields that are all packed or all plain, in order: the derive packs each run
/// of packed fields into bits of its own, and writes plain fields as they are.
pub fn packing_runs(packed: &Vec<bool>) -> (runs: Vec<(bool, usize)>)
    ensures
        expand_runs(runs@) == packed@,
        maximal_runs(runs@),
{
    let mut runs: Vec<(bool, usize)> = Vec::new();
    let mut i: usize = 0;
    assert(expand_runs(runs@) =~= packed@.take(0));
    while i < packed.len()
        invariant
            i <= packed.len(),
            expand_runs(runs@) == packed@.take(i as int),
            maximal_runs(runs@),
            runs.len() > 0 ==> runs@.last().0 == packed@[i - 1],
            forall|j: int| 0 <= j < runs.len() ==> (#[trigger] runs@[j]).1 <= i,
        decreases packed.len() - i,
    {
        let flag = packed[i];
        let k = runs.len();
        if k > 0 && runs[k - 1].0 == flag {
            let (f, c) = runs[k - 1];
            let ghost before = runs@;
            runs.set(k - 1, (f, c + 1));
            proof {
                assert(runs@.drop_last() =~= before.drop_last());
                assert(expand_runs(before) == expand_runs(before.drop_last()) + Seq::new(
                    c as nat,
                    |j: int| f,
                ));
                assert(Seq::new((c + 1) as nat, |j: int| f) =~= Seq::new(c as nat, |j: int| f).push(
                    flag,
                ));
                assert(packed@.take(i + 1) =~= packed@.take(i as int).push(flag));
                assert(expand_runs(runs@) =~= packed@.take(i + 1));
            }
        } else {
            let ghost before = runs@;
            runs.push((flag, 1));
            proof {
                assert(runs@.drop_last() =~= before);
                assert(Seq::new(1, |j: int| flag) =~= seq![flag]);
                assert(packed@.take(i + 1) =~= packed@.take(i as int).push(flag));
                assert(expand_runs(runs@) =~= packed@.take(i + 1));
            }
        }
        i = i + 1;
    }
    assert(packed@.take(i as int) =~= packed@);
    runs
}

} // verus!
