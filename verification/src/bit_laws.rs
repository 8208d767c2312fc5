//! Laws of bit packing over runs of calls: what a bit writer holds after a run of writes, how
//! many bytes a flush leaves, and that reading the same widths back gives the values written.
use crate::bits::{
    bytes_lsb, bytes_msb, high_first_bits, lemma_shift_basics, lemma_bit_packing_round_trip_lsb, lemma_bit_packing_round_trip_msb, low_bits,
    top_bits,
};
use crate::de::bit_reader::{lemma_bytes_bits_len, BitReader};
use crate::de::read::Reader;
use crate::enc::bit_writer::{lsb_state_ok, msb_state_ok, BitWriter};
use crate::enc::write::Writer;
use vstd::arithmetic::div_mod::lemma_fundamental_div_mod_converse;
use vstd::prelude::*;

verus! {

/// The bits of the values of `items`, each the low bits of its value as wide as it says, least
/// significant first, one after the other.
pub open spec fn packed_lsb(items: Seq<(u64, u8)>) -> Seq<bool>
    decreases items.len(),
{
    if items.len() == 0 {
        Seq::empty()
    } else {
        low_bits(items[0].0, items[0].1 as nat) + packed_lsb(items.drop_first())
    }
}

/// The bits of the values of `items`, most significant first, one after the other.
pub open spec fn packed_msb(items: Seq<(u64, u8)>) -> Seq<bool>
    decreases items.len(),
{
    if items.len() == 0 {
        Seq::empty()
    } else {
        high_first_bits(items[0].0, items[0].1 as nat) + packed_msb(items.drop_first())
    }
}

/// The number of bits that `items` take.
pub open spec fn bits_total(items: Seq<(u64, u8)>) -> nat
    decreases items.len(),
{
    if items.len() == 0 {
        0
    } else {
        (items[0].1 + bits_total(items.drop_first())) as nat
    }
}

proof fn lemma_packed_push(items: Seq<(u64, u8)>, x: (u64, u8))
    ensures
        packed_lsb(items.push(x)) == packed_lsb(items) + low_bits(x.0, x.1 as nat),
        packed_msb(items.push(x)) == packed_msb(items) + high_first_bits(x.0, x.1 as nat),
        bits_total(items.push(x)) == bits_total(items) + x.1,
        packed_lsb(items).len() == bits_total(items),
        packed_msb(items).len() == bits_total(items),
    decreases items.len(),
{
    assert(items.push(x)[0] == if items.len() == 0 { x } else { items[0] });
    if items.len() == 0 {
        assert(items.push(x).drop_first() =~= Seq::<(u64, u8)>::empty());
        assert(packed_lsb(Seq::<(u64, u8)>::empty()) == Seq::<bool>::empty());
        assert(packed_msb(Seq::<(u64, u8)>::empty()) == Seq::<bool>::empty());
        assert(bits_total(Seq::<(u64, u8)>::empty()) == 0);
        assert(packed_lsb(items.push(x)) =~= packed_lsb(items) + low_bits(x.0, x.1 as nat));
        assert(packed_msb(items.push(x)) =~= packed_msb(items) + high_first_bits(x.0, x.1 as nat));
    } else {
        assert(items.push(x).drop_first() =~= items.drop_first().push(x));
        lemma_packed_push(items.drop_first(), x);
        assert(packed_lsb(items.push(x)) =~= packed_lsb(items) + low_bits(x.0, x.1 as nat));
        assert(packed_msb(items.push(x)) =~= packed_msb(items) + high_first_bits(x.0, x.1 as nat));
    }
}

/// A run of least-significant-bit-first writes into a new bit writer, each as its contract
/// states on success (`ws[i + 1]` is the writer after writing `items[i]`): the writer holds the
/// bits of all the values in turn, `bits_total % 8` of them pending with nothing above them, and
/// has handed out `bits_total / 8` bytes.
pub proof fn lemma_bit_writes_lsb<W: Writer>(ws: Seq<BitWriter<W>>, items: Seq<(u64, u8)>)
    requires
        ws.len() == items.len() + 1,
        ws[0].state() == (0u8, 0u8),
        ws[0].inner().written().len() == 0,
        forall|i: int|
            0 <= i < items.len() ==> #[trigger] ws[i + 1].bits_lsb() == ws[i].bits_lsb() + low_bits(
                items[i].0,
                items[i].1 as nat,
            ) && lsb_state_ok(ws[i + 1].state().0, ws[i + 1].state().1),
    ensures
        ws.last().bits_lsb() == packed_lsb(items),
        ws.last().state().1 == bits_total(items) % 8,
        ws.last().inner().written().len() == bits_total(items) / 8,
        ws.last().state().0 >> ws.last().state().1 == 0,
    decreases items.len(),
{
    let n = items.len() as int;
    if n == 0 {
        assert(bytes_lsb(ws[0].inner().written()) =~= Seq::<bool>::empty());
        assert(ws[0].bits_lsb() =~= Seq::<bool>::empty());
        lemma_bytes_bits_len(ws[0].inner().written());
        lemma_shift_basics();
    } else {
        let prev = ws.drop_last();
        let its = items.drop_last();
        assert forall|i: int| 0 <= i < its.len() implies #[trigger] prev[i + 1].bits_lsb() == prev[i].bits_lsb()
            + low_bits(its[i].0, its[i].1 as nat) && lsb_state_ok(prev[i + 1].state().0, prev[i + 1].state().1) by {
            assert(prev[i + 1] == ws[i + 1]);
            assert(prev[i] == ws[i]);
            assert(its[i] == items[i]);
            assert(ws[i + 1].bits_lsb() == ws[i].bits_lsb() + low_bits(items[i].0, items[i].1 as nat));
        }
        lemma_bit_writes_lsb(prev, its);
        assert(items =~= its.push(items.last()));
        lemma_packed_push(its, items.last());
        assert(ws[n - 1 + 1].bits_lsb() == ws[n - 1].bits_lsb() + low_bits(items[n - 1].0, items[n - 1].1 as nat));
        let last = ws.last();
        lemma_bytes_bits_len(last.inner().written());
        assert(last.bits_lsb().len() == 8 * last.inner().written().len() + last.state().1);
        lemma_packed_push(items, (0u64, 0u8));
        lemma_fundamental_div_mod_converse(
            bits_total(items) as int,
            8,
            last.inner().written().len() as int,
            last.state().1 as int,
        );
    }
}

/// The same law for most-significant-bit-first writes: nothing stands under the pending bits.
pub proof fn lemma_bit_writes_msb<W: Writer>(ws: Seq<BitWriter<W>>, items: Seq<(u64, u8)>)
    requires
        ws.len() == items.len() + 1,
        ws[0].state() == (0u8, 0u8),
        ws[0].inner().written().len() == 0,
        forall|i: int|
            0 <= i < items.len() ==> #[trigger] ws[i + 1].bits_msb() == ws[i].bits_msb() + high_first_bits(
                items[i].0,
                items[i].1 as nat,
            ) && msb_state_ok(ws[i + 1].state().0, ws[i + 1].state().1),
    ensures
        ws.last().bits_msb() == packed_msb(items),
        ws.last().state().1 == bits_total(items) % 8,
        ws.last().inner().written().len() == bits_total(items) / 8,
        msb_state_ok(ws.last().state().0, ws.last().state().1),
    decreases items.len(),
{
    let n = items.len() as int;
    if n == 0 {
        assert(bytes_msb(ws[0].inner().written()) =~= Seq::<bool>::empty());
        assert(top_bits(0u8, 0) =~= Seq::<bool>::empty());
        assert(ws[0].bits_msb() =~= Seq::<bool>::empty());
        lemma_shift_basics();
        assert(msb_state_ok(0u8, 0u8));
    } else {
        let prev = ws.drop_last();
        let its = items.drop_last();
        assert forall|i: int| 0 <= i < its.len() implies #[trigger] prev[i + 1].bits_msb() == prev[i].bits_msb()
            + high_first_bits(its[i].0, its[i].1 as nat) && msb_state_ok(prev[i + 1].state().0, prev[i + 1].state().1) by {
            assert(prev[i + 1] == ws[i + 1]);
            assert(prev[i] == ws[i]);
            assert(its[i] == items[i]);
            assert(ws[i + 1].bits_msb() == ws[i].bits_msb() + high_first_bits(items[i].0, items[i].1 as nat));
        }
        lemma_bit_writes_msb(prev, its);
        assert(items =~= its.push(items.last()));
        lemma_packed_push(its, items.last());
        assert(ws[n - 1 + 1].bits_msb() == ws[n - 1].bits_msb() + high_first_bits(items[n - 1].0, items[n - 1].1 as nat));
        let last = ws.last();
        lemma_bytes_bits_len(last.inner().written());
        assert(last.bits_msb().len() == 8 * last.inner().written().len() + last.state().1);
        lemma_packed_push(items, (0u64, 0u8));
        lemma_fundamental_div_mod_converse(
            bits_total(items) as int,
            8,
            last.inner().written().len() as int,
            last.state().1 as int,
        );
    }
}

/// After `total` bits were written (`total / 8` bytes handed out, `total % 8` bits pending), a
/// successful flush leaves exactly as many bytes as the bits take, rounded up.
pub proof fn lemma_flushed_len(written: Seq<u8>, pending: (u8, u8), flushed: Seq<u8>, total: nat)
    requires
        written.len() == total / 8,
        pending.1 == total % 8,
        flushed == written + if pending.1 > 0 {
            seq![pending.0]
        } else {
            Seq::<u8>::empty()
        },
    ensures
        flushed.len() == (total + 7) / 8,
{
}

/// The read `reads[i]` of as many bits as `items[i]` takes, least significant first, as the
/// contract of `read_bits_lsb` states it on success, from the reader `rs[i]` to `rs[i + 1]`.
pub open spec fn read_back_lsb<R: Reader>(rs: Seq<BitReader<R>>, items: Seq<(u64, u8)>, reads: Seq<u64>, i: int) -> bool {
    let n = items[i].1;
    &&& n <= 64
    &&& low_bits(reads[i], n as nat) == rs[i].bits_lsb().take(n as int)
    &&& (n < 64 ==> reads[i] >> (n as u64) == 0)
    &&& rs[i + 1].bits_lsb() == rs[i].bits_lsb().skip(n as int)
}

/// The same read, most significant bit first, as the contract of `read_bits_msb` states it.
pub open spec fn read_back_msb<R: Reader>(rs: Seq<BitReader<R>>, items: Seq<(u64, u8)>, reads: Seq<u64>, i: int) -> bool {
    let n = items[i].1;
    &&& n <= 64
    &&& high_first_bits(reads[i], n as nat) == rs[i].bits_msb().take(n as int)
    &&& (n < 64 ==> reads[i] >> (n as u64) == 0)
    &&& rs[i + 1].bits_msb() == rs[i].bits_msb().skip(n as int)
}

/// Reading back, least significant bit first, from bits that start with the packed values of
/// `items`: when each read (`rs[i + 1]` is the reader after the read `reads[i]`) takes as many
/// bits as was written, as its contract states on success, it gives the low bits of the value
/// written, and the value itself where that fits its width.
pub proof fn lemma_bit_reads_lsb<R: Reader>(
    rs: Seq<BitReader<R>>,
    items: Seq<(u64, u8)>,
    reads: Seq<u64>,
    after: Seq<bool>,
)
    requires
        rs.len() == items.len() + 1,
        reads.len() == items.len(),
        rs[0].bits_lsb() == packed_lsb(items) + after,
        forall|i: int| 0 <= i < items.len() ==> #[trigger] read_back_lsb(rs, items, reads, i),
    ensures
        forall|i: int|
            0 <= i < items.len() ==> #[trigger] low_bits(reads[i], items[i].1 as nat) == low_bits(
                items[i].0,
                items[i].1 as nat,
            ),
        forall|i: int|
            0 <= i < items.len() && (items[i].1 < 64 ==> items[i].0 >> (items[i].1 as u64) == 0) ==> #[trigger] reads[i]
                == items[i].0,
{
    assert(items.skip(0) =~= items);
    lemma_reads_from_lsb(rs, items, reads, after, 0);
}

proof fn lemma_reads_from_lsb<R: Reader>(
    rs: Seq<BitReader<R>>,
    items: Seq<(u64, u8)>,
    reads: Seq<u64>,
    after: Seq<bool>,
    m: int,
)
    requires
        rs.len() == items.len() + 1,
        reads.len() == items.len(),
        0 <= m <= items.len(),
        rs[m].bits_lsb() == packed_lsb(items.skip(m)) + after,
        forall|i: int| 0 <= i < items.len() ==> #[trigger] read_back_lsb(rs, items, reads, i),
    ensures
        forall|i: int|
            m <= i < items.len() ==> #[trigger] low_bits(reads[i], items[i].1 as nat) == low_bits(
                items[i].0,
                items[i].1 as nat,
            ),
        forall|i: int|
            m <= i < items.len() && (items[i].1 < 64 ==> items[i].0 >> (items[i].1 as u64) == 0) ==> #[trigger] reads[i]
                == items[i].0,
    decreases items.len() - m,
{
    if m < items.len() {
        assert(read_back_lsb(rs, items, reads, m));
        let x = items[m];
        let rest = packed_lsb(items.skip(m + 1)) + after;
        assert(items.skip(m).drop_first() =~= items.skip(m + 1));
        assert(items.skip(m)[0] == x);
        assert(rs[m].bits_lsb() =~= low_bits(x.0, x.1 as nat) + rest);
        assert(low_bits(reads[m], x.1 as nat) == rs[m].bits_lsb().take(x.1 as int));
        assert(rs[m].bits_lsb().take(x.1 as int) =~= low_bits(x.0, x.1 as nat));
        assert(rs[m + 1].bits_lsb() =~= rest);
        lemma_reads_from_lsb(rs, items, reads, after, m + 1);
        if x.1 < 64 ==> x.0 >> (x.1 as u64) == 0 {
            assert((Seq::<bool>::empty() + low_bits(x.0, x.1 as nat) + rest).skip(0).take(x.1 as int) =~= low_bits(
                x.0,
                x.1 as nat,
            ));
            lemma_bit_packing_round_trip_lsb(Seq::<bool>::empty(), x.0, x.1, rest, reads[m]);
        }
    }
}

/// The same law for reading most significant bit first.
pub proof fn lemma_bit_reads_msb<R: Reader>(
    rs: Seq<BitReader<R>>,
    items: Seq<(u64, u8)>,
    reads: Seq<u64>,
    after: Seq<bool>,
)
    requires
        rs.len() == items.len() + 1,
        reads.len() == items.len(),
        rs[0].bits_msb() == packed_msb(items) + after,
        forall|i: int| 0 <= i < items.len() ==> #[trigger] read_back_msb(rs, items, reads, i),
    ensures
        forall|i: int|
            0 <= i < items.len() ==> #[trigger] high_first_bits(reads[i], items[i].1 as nat) == high_first_bits(
                items[i].0,
                items[i].1 as nat,
            ),
        forall|i: int|
            0 <= i < items.len() && (items[i].1 < 64 ==> items[i].0 >> (items[i].1 as u64) == 0) ==> #[trigger] reads[i]
                == items[i].0,
{
    assert(items.skip(0) =~= items);
    lemma_reads_from_msb(rs, items, reads, after, 0);
}

proof fn lemma_reads_from_msb<R: Reader>(
    rs: Seq<BitReader<R>>,
    items: Seq<(u64, u8)>,
    reads: Seq<u64>,
    after: Seq<bool>,
    m: int,
)
    requires
        rs.len() == items.len() + 1,
        reads.len() == items.len(),
        0 <= m <= items.len(),
        rs[m].bits_msb() == packed_msb(items.skip(m)) + after,
        forall|i: int| 0 <= i < items.len() ==> #[trigger] read_back_msb(rs, items, reads, i),
    ensures
        forall|i: int|
            m <= i < items.len() ==> #[trigger] high_first_bits(reads[i], items[i].1 as nat) == high_first_bits(
                items[i].0,
                items[i].1 as nat,
            ),
        forall|i: int|
            m <= i < items.len() && (items[i].1 < 64 ==> items[i].0 >> (items[i].1 as u64) == 0) ==> #[trigger] reads[i]
                == items[i].0,
    decreases items.len() - m,
{
    if m < items.len() {
        assert(read_back_msb(rs, items, reads, m));
        let x = items[m];
        let rest = packed_msb(items.skip(m + 1)) + after;
        assert(items.skip(m).drop_first() =~= items.skip(m + 1));
        assert(items.skip(m)[0] == x);
        assert(rs[m].bits_msb() =~= high_first_bits(x.0, x.1 as nat) + rest);
        assert(high_first_bits(reads[m], x.1 as nat) == rs[m].bits_msb().take(x.1 as int));
        assert(rs[m].bits_msb().take(x.1 as int) =~= high_first_bits(x.0, x.1 as nat));
        assert(rs[m + 1].bits_msb() =~= rest);
        lemma_reads_from_msb(rs, items, reads, after, m + 1);
        if x.1 < 64 ==> x.0 >> (x.1 as u64) == 0 {
            assert((Seq::<bool>::empty() + high_first_bits(x.0, x.1 as nat) + rest).skip(0).take(x.1 as int)
                =~= high_first_bits(x.0, x.1 as nat));
            lemma_bit_packing_round_trip_msb(Seq::<bool>::empty(), x.0, x.1, rest, reads[m]);
        }
    }
}

} // verus!
