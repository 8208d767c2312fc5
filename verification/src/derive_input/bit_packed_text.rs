//! The body of the `encode` function that the `BitPacked` derive writes for a struct: its fields
//! in order, each run of bit-packed fields packed into bits when the configuration asks for bit
//! packing (each value checked against its width first) and written whole otherwise.
use crate::derive_input::attribute::FieldAttributes;
use crate::derive_input::layout::{variant_bits, variant_index_bits};
use vstd::prelude::*;
use vstd::string::StringExecFns;

verus! {

/// The decimal digit `d` as a character.
pub open spec fn digit_char(d: nat) -> char {
    ((d + 48) as u8) as char
}

/// The decimal text of `n`.
pub open spec fn decimal(n: u8) -> Seq<char> {
    if n < 10 {
        seq![digit_char(n as nat)]
    } else if n < 100 {
        seq![digit_char((n / 10) as nat), digit_char((n % 10) as nat)]
    } else {
        seq![digit_char((n / 100) as nat), digit_char(((n / 10) % 10) as nat), digit_char((n % 10) as nat)]
    }
}

/// Whether a field is packed into bits.
pub open spec fn packed(f: (String, FieldAttributes)) -> bool {
    f.1.bits is Some
}

/// The statements that write a bit-packed field: the check of its width, the check that its
/// value fits, and the write of its bits in the container's bit order (or the configured one).
pub open spec fn packed_text(f: (String, FieldAttributes), krate: Seq<char>, order: Option<Seq<char>>) -> Seq<char> {
    let name = f.0@;
    let bits = decimal(f.1.bits->0);
    "{ fn check_width<const B: u8, T: "@ + krate + "::utils::BitPackedCheck<B>>(_: &T) { let _ = <T as "@
        + krate + "::utils::BitPackedCheck<B>>::CHECK; } check_width::<"@ + bits + ", _>(&self."@ + name
        + "); } if (self."@ + name + " as u128) >= (1u128 << "@ + bits + ") { return "@ + krate
        + "::error::cold_encode_error_other(\"Value exceeds bit-packed width\"); } "@ + match order {
        Some(o) => "bit_writer.write_bits_"@ + o + "((self."@ + name + ") as u64, "@ + bits + ")?; "@,
        None => "bit_writer.write_bits((self."@ + name + ") as u64, "@ + bits + ", &__config)?; "@,
    }
}

/// The statement that writes a field whole, through serde where it asks for that.
pub open spec fn plain_text(f: (String, FieldAttributes), krate: Seq<char>) -> Seq<char> {
    let name = f.0@;
    if f.1.with_serde {
        krate + "::Encode::encode(&"@ + krate + "::serde::Compat(&self."@ + name + "), encoder)?; "@
    } else {
        krate + "::Encode::encode(&self."@ + name + ", encoder)?; "@
    }
}

/// The packed statements of the fields `i..j`.
pub open spec fn packed_texts(
    fields: Seq<(String, FieldAttributes)>,
    i: int,
    j: int,
    krate: Seq<char>,
    order: Option<Seq<char>>,
) -> Seq<char>
    decreases j - i,
{
    if j <= i {
        Seq::empty()
    } else {
        packed_texts(fields, i, j - 1, krate, order) + packed_text(fields[j - 1], krate, order)
    }
}

/// The plain statements of the fields `i..j`.
pub open spec fn plain_texts(fields: Seq<(String, FieldAttributes)>, i: int, j: int, krate: Seq<char>) -> Seq<char>
    decreases j - i,
{
    if j <= i {
        Seq::empty()
    } else {
        plain_texts(fields, i, j - 1, krate) + plain_text(fields[j - 1], krate)
    }
}

/// Where the run of fields that starts at `i` ends: the first later field packed otherwise, or
/// the end.
pub open spec fn run_end(fields: Seq<(String, FieldAttributes)>, i: int) -> int
    decreases fields.len() - i,
{
    if i + 1 >= fields.len() || packed(fields[i + 1]) != packed(fields[i]) {
        i + 1
    } else {
        run_end(fields, i + 1)
    }
}

/// The statements of the run `i..j`: for packed fields, a bit writer when bit packing is on
/// (flushed at the end) and the plain statements otherwise; for plain fields, their statements.
pub open spec fn run_text(
    fields: Seq<(String, FieldAttributes)>,
    i: int,
    j: int,
    krate: Seq<char>,
    order: Option<Seq<char>>,
) -> Seq<char> {
    if packed(fields[i]) {
        "if "@ + krate + "::config::Config::bit_packing_enabled(encoder.config()) { let __config = *encoder.config(); let mut bit_writer = "@
            + krate + "::enc::bit_writer::BitWriter::new("@ + krate + "::enc::Encoder::writer(encoder)); "@
            + packed_texts(fields, i, j, krate, order) + "bit_writer.flush()?; } else { "@
            + plain_texts(fields, i, j, krate) + "} "@
    } else {
        plain_texts(fields, i, j, krate)
    }
}

/// The statements of the fields from `i` on, run by run.
pub open spec fn runs_text(
    fields: Seq<(String, FieldAttributes)>,
    i: int,
    krate: Seq<char>,
    order: Option<Seq<char>>,
) -> Seq<char>
    decreases fields.len() - i,
{
    if i < 0 || i >= fields.len() {
        Seq::empty()
    } else {
        let j = run_end(fields, i);
        proof {
            lemma_run_end_bounds(fields, i);
        }
        run_text(fields, i, j, krate, order) + runs_text(fields, j, krate, order)
    }
}

/// The whole body: the statements of every field, then the `Ok` it ends with.
pub open spec fn encode_body(
    fields: Seq<(String, FieldAttributes)>,
    krate: Seq<char>,
    order: Option<Seq<char>>,
) -> Seq<char> {
    runs_text(fields, 0, krate, order) + "core::result::Result::Ok(())"@
}

/// Each run ends after it starts and no later than the last field.
pub proof fn lemma_run_end_bounds(fields: Seq<(String, FieldAttributes)>, i: int)
    requires
        0 <= i < fields.len(),
    ensures
        i < run_end(fields, i) <= fields.len(),
    decreases fields.len() - i,
{
    if !(i + 1 >= fields.len() || packed(fields[i + 1]) != packed(fields[i])) {
        lemma_run_end_bounds(fields, i + 1);
    }
}

/// The text of the decimal digit `d`.
fn digit_text(d: u8) -> (s: String)
    requires
        d < 10,
    ensures
        s@ == seq![digit_char(d as nat)],
{
    match d {
        0 => {
            proof {
                reveal_strlit("0");
            }
            String::from_str("0")
        },
        1 => {
            proof {
                reveal_strlit("1");
            }
            String::from_str("1")
        },
        2 => {
            proof {
                reveal_strlit("2");
            }
            String::from_str("2")
        },
        3 => {
            proof {
                reveal_strlit("3");
            }
            String::from_str("3")
        },
        4 => {
            proof {
                reveal_strlit("4");
            }
            String::from_str("4")
        },
        5 => {
            proof {
                reveal_strlit("5");
            }
            String::from_str("5")
        },
        6 => {
            proof {
                reveal_strlit("6");
            }
            String::from_str("6")
        },
        7 => {
            proof {
                reveal_strlit("7");
            }
            String::from_str("7")
        },
        8 => {
            proof {
                reveal_strlit("8");
            }
            String::from_str("8")
        },
        _ => {
            proof {
                reveal_strlit("9");
            }
            String::from_str("9")
        },
    }
}

/// The decimal text of a bit width.
fn decimal_text(n: u8) -> (s: String)
    ensures
        s@ == decimal(n),
{
    if n < 10 {
        digit_text(n)
    } else if n < 100 {
        let mut s = digit_text(n / 10);
        let low = digit_text(n % 10);
        s.append(low.as_str());
        s
    } else {
        let mut s = digit_text(n / 100);
        let mid = digit_text((n / 10) % 10);
        let low = digit_text(n % 10);
        s.append(mid.as_str());
        s.append(low.as_str());
        s
    }
}

/// The statements that write the bit-packed field `f`.
fn packed_field_text(f: &(String, FieldAttributes), krate: &String, order: Option<&String>) -> (s: String)
    requires
        packed(*f),
    ensures
        s@ == packed_text(*f, krate@, match order {
            Some(o) => Some(o@),
            None => None,
        }),
{
    let name = f.0.clone();
    let bits = match f.1.bits {
        Some(b) => decimal_text(b),
        None => String::new(),
    };
    let mut s = String::from_str("{ fn check_width<const B: u8, T: ");
    s.append(krate.as_str());
    s.append("::utils::BitPackedCheck<B>>(_: &T) { let _ = <T as ");
    s.append(krate.as_str());
    s.append("::utils::BitPackedCheck<B>>::CHECK; } check_width::<");
    s.append(bits.as_str());
    s.append(", _>(&self.");
    s.append(name.as_str());
    s.append("); } if (self.");
    s.append(name.as_str());
    s.append(" as u128) >= (1u128 << ");
    s.append(bits.as_str());
    s.append(") { return ");
    s.append(krate.as_str());
    s.append("::error::cold_encode_error_other(\"Value exceeds bit-packed width\"); } ");
    let tail = match order {
        Some(o) => {
            let mut t = String::from_str("bit_writer.write_bits_");
            t.append(o.as_str());
            t.append("((self.");
            t.append(name.as_str());
            t.append(") as u64, ");
            t.append(bits.as_str());
            t.append(")?; ");
            t
        },
        None => {
            let mut t = String::from_str("bit_writer.write_bits((self.");
            t.append(name.as_str());
            t.append(") as u64, ");
            t.append(bits.as_str());
            t.append(", &__config)?; ");
            t
        },
    };
    s.append(tail.as_str());
    s
}

/// The statement that writes the field `f` whole.
fn plain_field_text(f: &(String, FieldAttributes), krate: &String) -> (s: String)
    ensures
        s@ == plain_text(*f, krate@),
{
    let name = f.0.clone();
    if f.1.with_serde {
        let mut s = krate.clone();
        s.append("::Encode::encode(&");
        s.append(krate.as_str());
        s.append("::serde::Compat(&self.");
        s.append(name.as_str());
        s.append("), encoder)?; ");
        s
    } else {
        let mut s = krate.clone();
        s.append("::Encode::encode(&self.");
        s.append(name.as_str());
        s.append(", encoder)?; ");
        s
    }
}

/// The order given to the derive, as the contracts see it.
pub open spec fn order_model(order: Option<&String>) -> Option<Seq<char>> {
    match order {
        Some(o) => Some(o@),
        None => None,
    }
}

/// The packed statements of the fields `i..j`.
fn packed_run(
    fields: &Vec<(String, FieldAttributes)>,
    i: usize,
    j: usize,
    krate: &String,
    order: Option<&String>,
) -> (s: String)
    requires
        i <= j <= fields@.len(),
        forall|m: int| i <= m < j ==> packed(#[trigger] fields@[m]),
    ensures
        s@ == packed_texts(fields@, i as int, j as int, krate@, order_model(order)),
{
    let mut s = String::new();
    let mut k = i;
    while k < j
        invariant
            i <= k <= j <= fields@.len(),
            forall|m: int| i <= m < j ==> packed(#[trigger] fields@[m]),
            s@ == packed_texts(fields@, i as int, k as int, krate@, order_model(order)),
        decreases j - k,
    {
        let t = packed_field_text(&fields[k], krate, order);
        s.append(t.as_str());
        k = k + 1;
    }
    s
}

/// The plain statements of the fields `i..j`.
fn plain_run(fields: &Vec<(String, FieldAttributes)>, i: usize, j: usize, krate: &String) -> (s: String)
    requires
        i <= j <= fields@.len(),
    ensures
        s@ == plain_texts(fields@, i as int, j as int, krate@),
{
    let mut s = String::new();
    let mut k = i;
    while k < j
        invariant
            i <= k <= j <= fields@.len(),
            s@ == plain_texts(fields@, i as int, k as int, krate@),
        decreases j - k,
    {
        let t = plain_field_text(&fields[k], krate);
        s.append(t.as_str());
        k = k + 1;
    }
    s
}

/// The body of the `encode` function that the `BitPacked` derive writes for a struct with
/// `fields` (each its name and attributes), naming this crate `crate_name`, with the bit order
/// `bit_order` the container asks for (else the configured one).
pub fn bit_packed_encode_body(
    fields: &Vec<(String, FieldAttributes)>,
    crate_name: &String,
    bit_order: Option<&String>,
) -> (r: String)
    ensures
        r@ == encode_body(fields@, crate_name@, order_model(bit_order)),
{
    let ghost f = fields@;
    let ghost k = crate_name@;
    let ghost o = order_model(bit_order);
    let mut out = String::new();
    let mut i: usize = 0;
    assert(out@ + runs_text(f, 0, k, o) =~= runs_text(f, 0, k, o));
    while i < fields.len()
        invariant
            i <= fields@.len(),
            f == fields@,
            k == crate_name@,
            o == order_model(bit_order),
            out@ + runs_text(f, i as int, k, o) == runs_text(f, 0, k, o),
        decreases fields@.len() - i,
    {
        let p = fields[i].1.bits.is_some();
        let mut j: usize = i + 1;
        while j < fields.len() && fields[j].1.bits.is_some() == p
            invariant
                i < j <= fields@.len(),
                f == fields@,
                p == packed(f[i as int]),
                forall|m: int| i <= m < j ==> packed(#[trigger] f[m]) == p,
                run_end(f, i as int) == run_end(f, j - 1),
            decreases fields@.len() - j,
        {
            j = j + 1;
        }
        proof {
            assert(run_end(f, j - 1) == j);
            lemma_run_end_bounds(f, i as int);
        }
        let run = if p {
            let mut s = String::from_str("if ");
            s.append(crate_name.as_str());
            s.append("::config::Config::bit_packing_enabled(encoder.config()) { let __config = *encoder.config(); let mut bit_writer = ");
            s.append(crate_name.as_str());
            s.append("::enc::bit_writer::BitWriter::new(");
            s.append(crate_name.as_str());
            s.append("::enc::Encoder::writer(encoder)); ");
            let packed_part = packed_run(fields, i, j, crate_name, bit_order);
            s.append(packed_part.as_str());
            s.append("bit_writer.flush()?; } else { ");
            let plain_part = plain_run(fields, i, j, crate_name);
            s.append(plain_part.as_str());
            s.append("} ");
            s
        } else {
            plain_run(fields, i, j, crate_name)
        };
        proof {
            assert(run@ == run_text(f, i as int, j as int, k, o));
            assert(runs_text(f, i as int, k, o) == run_text(f, i as int, j as int, k, o) + runs_text(f, j as int, k, o));
            assert(out@ + run@ + runs_text(f, j as int, k, o) =~= out@ + (run@ + runs_text(f, j as int, k, o)));
        }
        out.append(run.as_str());
        i = j;
    }
    proof {
        assert(runs_text(f, i as int, k, o) =~= Seq::<char>::empty());
        assert(out@ + Seq::<char>::empty() =~= out@);
    }
    out.append("core::result::Result::Ok(())");
    out
}


/// The statements that read the bit-packed field `f`: its bits, in the container's bit order (or
/// the configured one), then the check of its width.
pub open spec fn packed_read_text(f: (String, FieldAttributes), krate: Seq<char>, order: Option<Seq<char>>) -> Seq<char> {
    let name = f.0@;
    let bits = decimal(f.1.bits->0);
    (match order {
        Some(o) => "__"@ + name + " = <_ as "@ + krate + "::de::bit_reader::Unpackable>::unpack(bit_reader.read_bits_"@ + o + "("@ + bits + ")?); "@,
        None => "__"@ + name + " = <_ as "@ + krate + "::de::bit_reader::Unpackable>::unpack(bit_reader.read_bits("@ + bits + ", &__config)?); "@,
    }) + "{ fn check_width<const B: u8, T: "@ + krate + "::utils::BitPackedCheck<B>>(_: &T) { let _ = <T as "@ + krate + "::utils::BitPackedCheck<B>>::CHECK; } check_width::<"@ + bits + ", _>(&__"@ + name + "); } "@
}

/// The statement that reads the field `f` whole, owned or borrowed, through serde where it asks
/// for that, with the decoding context `ctx`.
pub open spec fn plain_read_text(f: (String, FieldAttributes), krate: Seq<char>, ctx: Seq<char>, borrow: bool) -> Seq<char> {
    let name = f.0@;
    if borrow {
        if f.1.with_serde {
            "__"@ + name + " = (<"@ + krate + "::serde::BorrowCompat<_> as "@ + krate + "::BorrowDecode::<'__de, "@ + ctx + ">>::borrow_decode(decoder)?).0; "@
        } else {
            "__"@ + name + " = "@ + krate + "::BorrowDecode::borrow_decode(decoder)?; "@
        }
    } else {
        if f.1.with_serde {
            "__"@ + name + " = (<"@ + krate + "::serde::Compat<_> as "@ + krate + "::Decode::<"@ + ctx + ">>::decode(decoder)?).0; "@
        } else {
            "__"@ + name + " = "@ + krate + "::Decode::decode(decoder)?; "@
        }
    }
}

/// The packed reads of the fields `i..j`.
pub open spec fn packed_reads(
    fields: Seq<(String, FieldAttributes)>,
    i: int,
    j: int,
    krate: Seq<char>,
    order: Option<Seq<char>>,
) -> Seq<char>
    decreases j - i,
{
    if j <= i {
        Seq::empty()
    } else {
        packed_reads(fields, i, j - 1, krate, order) + packed_read_text(fields[j - 1], krate, order)
    }
}

/// The plain reads of the fields `i..j`.
pub open spec fn plain_reads(
    fields: Seq<(String, FieldAttributes)>,
    i: int,
    j: int,
    krate: Seq<char>,
    ctx: Seq<char>,
    borrow: bool,
) -> Seq<char>
    decreases j - i,
{
    if j <= i {
        Seq::empty()
    } else {
        plain_reads(fields, i, j - 1, krate, ctx, borrow) + plain_read_text(fields[j - 1], krate, ctx, borrow)
    }
}

/// The reads of the run `i..j`.
pub open spec fn read_run_text(
    fields: Seq<(String, FieldAttributes)>,
    i: int,
    j: int,
    krate: Seq<char>,
    order: Option<Seq<char>>,
    ctx: Seq<char>,
    borrow: bool,
) -> Seq<char> {
    if packed(fields[i]) {
        "if "@ + krate + "::config::Config::bit_packing_enabled(decoder.config()) { let __config = *decoder.config(); let mut bit_reader = "@ + krate + "::de::bit_reader::BitReader::new("@ + krate + "::de::Decoder::reader(decoder)); "@ + packed_reads(fields, i, j, krate, order) + "} else { "@
            + plain_reads(fields, i, j, krate, ctx, borrow) + "} "@
    } else {
        plain_reads(fields, i, j, krate, ctx, borrow)
    }
}

/// The reads of the fields from `i` on, run by run.
pub open spec fn read_runs_text(
    fields: Seq<(String, FieldAttributes)>,
    i: int,
    krate: Seq<char>,
    order: Option<Seq<char>>,
    ctx: Seq<char>,
    borrow: bool,
) -> Seq<char>
    decreases fields.len() - i,
{
    if i < 0 || i >= fields.len() {
        Seq::empty()
    } else {
        let j = run_end(fields, i);
        proof {
            lemma_run_end_bounds(fields, i);
        }
        read_run_text(fields, i, j, krate, order, ctx, borrow) + read_runs_text(fields, j, krate, order, ctx, borrow)
    }
}

/// The declarations of the fields `0..j`.
pub open spec fn declarations(fields: Seq<(String, FieldAttributes)>, j: int) -> Seq<char>
    decreases j,
{
    if j <= 0 {
        Seq::empty()
    } else {
        declarations(fields, j - 1) + "let mut __"@ + fields[j - 1].0@ + "; "@
    }
}

/// The field initializers of the fields `0..j`.
pub open spec fn initializers(fields: Seq<(String, FieldAttributes)>, j: int) -> Seq<char>
    decreases j,
{
    if j <= 0 {
        Seq::empty()
    } else {
        initializers(fields, j - 1) + fields[j - 1].0@ + ": __"@ + fields[j - 1].0@ + ", "@
    }
}

/// The whole body of `decode` (or `borrow_decode`): a declaration of each field, the reads run by
/// run, then the struct built from them.
pub open spec fn decode_body(
    fields: Seq<(String, FieldAttributes)>,
    krate: Seq<char>,
    order: Option<Seq<char>>,
    ctx: Seq<char>,
    borrow: bool,
) -> Seq<char> {
    declarations(fields, fields.len() as int) + read_runs_text(fields, 0, krate, order, ctx, borrow)
        + "core::result::Result::Ok(Self { "@ + initializers(fields, fields.len() as int) + "})"@
}

/// The statements that read the bit-packed field `f`.
fn packed_read_field(f: &(String, FieldAttributes), krate: &String, order: Option<&String>) -> (s: String)
    requires
        packed(*f),
    ensures
        s@ == packed_read_text(*f, krate@, order_model(order)),
{
    let name = f.0.clone();
    let bits = match f.1.bits {
        Some(b) => decimal_text(b),
        None => String::new(),
    };
    let mut s = match order {
        Some(o) => {
            let mut t = String::from_str("__");
            t.append(name.as_str());
            t.append(" = <_ as ");
            t.append(krate.as_str());
            t.append("::de::bit_reader::Unpackable>::unpack(bit_reader.read_bits_");
            t.append(o.as_str());
            t.append("(");
            t.append(bits.as_str());
            t.append(")?); ");
            t
        },
        None => {
            let mut t = String::from_str("__");
            t.append(name.as_str());
            t.append(" = <_ as ");
            t.append(krate.as_str());
            t.append("::de::bit_reader::Unpackable>::unpack(bit_reader.read_bits(");
            t.append(bits.as_str());
            t.append(", &__config)?); ");
            t
        },
    };
    let mut c = String::from_str("{ fn check_width<const B: u8, T: ");
    c.append(krate.as_str());
    c.append("::utils::BitPackedCheck<B>>(_: &T) { let _ = <T as ");
    c.append(krate.as_str());
    c.append("::utils::BitPackedCheck<B>>::CHECK; } check_width::<");
    c.append(bits.as_str());
    c.append(", _>(&__");
    c.append(name.as_str());
    c.append("); } ");
    s.append(c.as_str());
    s
}

/// The statement that reads the field `f` whole.
fn plain_read_field(f: &(String, FieldAttributes), krate: &String, ctx: &String, borrow: bool) -> (s: String)
    ensures
        s@ == plain_read_text(*f, krate@, ctx@, borrow),
{
    let name = f.0.clone();
    if borrow {
        if f.1.with_serde {
            let mut s = String::from_str("__");
            s.append(name.as_str());
            s.append(" = (<");
            s.append(krate.as_str());
            s.append("::serde::BorrowCompat<_> as ");
            s.append(krate.as_str());
            s.append("::BorrowDecode::<'__de, ");
            s.append(ctx.as_str());
            s.append(">>::borrow_decode(decoder)?).0; ");
            s
        } else {
            let mut s = String::from_str("__");
            s.append(name.as_str());
            s.append(" = ");
            s.append(krate.as_str());
            s.append("::BorrowDecode::borrow_decode(decoder)?; ");
            s
        }
    } else {
        if f.1.with_serde {
            let mut s = String::from_str("__");
            s.append(name.as_str());
            s.append(" = (<");
            s.append(krate.as_str());
            s.append("::serde::Compat<_> as ");
            s.append(krate.as_str());
            s.append("::Decode::<");
            s.append(ctx.as_str());
            s.append(">>::decode(decoder)?).0; ");
            s
        } else {
            let mut s = String::from_str("__");
            s.append(name.as_str());
            s.append(" = ");
            s.append(krate.as_str());
            s.append("::Decode::decode(decoder)?; ");
            s
        }
    }
}

/// The packed reads of the fields `i..j`.
fn packed_read_run(
    fields: &Vec<(String, FieldAttributes)>,
    i: usize,
    j: usize,
    krate: &String,
    order: Option<&String>,
) -> (s: String)
    requires
        i <= j <= fields@.len(),
        forall|m: int| i <= m < j ==> packed(#[trigger] fields@[m]),
    ensures
        s@ == packed_reads(fields@, i as int, j as int, krate@, order_model(order)),
{
    let mut s = String::new();
    let mut k = i;
    while k < j
        invariant
            i <= k <= j <= fields@.len(),
            forall|m: int| i <= m < j ==> packed(#[trigger] fields@[m]),
            s@ == packed_reads(fields@, i as int, k as int, krate@, order_model(order)),
        decreases j - k,
    {
        let t = packed_read_field(&fields[k], krate, order);
        s.append(t.as_str());
        k = k + 1;
    }
    s
}

/// The plain reads of the fields `i..j`.
fn plain_read_run(
    fields: &Vec<(String, FieldAttributes)>,
    i: usize,
    j: usize,
    krate: &String,
    ctx: &String,
    borrow: bool,
) -> (s: String)
    requires
        i <= j <= fields@.len(),
    ensures
        s@ == plain_reads(fields@, i as int, j as int, krate@, ctx@, borrow),
{
    let mut s = String::new();
    let mut k = i;
    while k < j
        invariant
            i <= k <= j <= fields@.len(),
            s@ == plain_reads(fields@, i as int, k as int, krate@, ctx@, borrow),
        decreases j - k,
    {
        let t = plain_read_field(&fields[k], krate, ctx, borrow);
        s.append(t.as_str());
        k = k + 1;
    }
    s
}

/// The body of the `decode` function (or, where `borrow` holds, of `borrow_decode`) that the
/// `BitPacked` derive writes for a struct with `fields`, naming this crate `crate_name`, with the
/// container's bit order `bit_order` (else the configured one) and the decoding context type
/// `decode_context`.
pub fn bit_packed_decode_body(
    fields: &Vec<(String, FieldAttributes)>,
    crate_name: &String,
    bit_order: Option<&String>,
    decode_context: &String,
    borrow: bool,
) -> (r: String)
    ensures
        r@ == decode_body(fields@, crate_name@, order_model(bit_order), decode_context@, borrow),
{
    let ghost f = fields@;
    let ghost k = crate_name@;
    let ghost o = order_model(bit_order);
    let ghost x = decode_context@;
    let mut decls = String::new();
    let mut inits = String::new();
    let mut d: usize = 0;
    while d < fields.len()
        invariant
            d <= fields@.len(),
            f == fields@,
            decls@ == declarations(f, d as int),
            inits@ == initializers(f, d as int),
        decreases fields@.len() - d,
    {
        decls.append("let mut __");
        decls.append(fields[d].0.as_str());
        decls.append("; ");
        inits.append(fields[d].0.as_str());
        inits.append(": __");
        inits.append(fields[d].0.as_str());
        inits.append(", ");
        d = d + 1;
    }
    let mut out = String::new();
    let mut i: usize = 0;
    assert(out@ + read_runs_text(f, 0, k, o, x, borrow) =~= read_runs_text(f, 0, k, o, x, borrow));
    while i < fields.len()
        invariant
            i <= fields@.len(),
            f == fields@,
            k == crate_name@,
            o == order_model(bit_order),
            x == decode_context@,
            out@ + read_runs_text(f, i as int, k, o, x, borrow) == read_runs_text(f, 0, k, o, x, borrow),
        decreases fields@.len() - i,
    {
        let p = fields[i].1.bits.is_some();
        let mut j: usize = i + 1;
        while j < fields.len() && fields[j].1.bits.is_some() == p
            invariant
                i < j <= fields@.len(),
                f == fields@,
                p == packed(f[i as int]),
                forall|m: int| i <= m < j ==> packed(#[trigger] f[m]) == p,
                run_end(f, i as int) == run_end(f, j - 1),
            decreases fields@.len() - j,
        {
            j = j + 1;
        }
        proof {
            assert(run_end(f, j - 1) == j);
            lemma_run_end_bounds(f, i as int);
        }
        let run = if p {
            let mut s = String::from_str("if ");
            s.append(crate_name.as_str());
            s.append("::config::Config::bit_packing_enabled(decoder.config()) { let __config = *decoder.config(); let mut bit_reader = ");
            s.append(crate_name.as_str());
            s.append("::de::bit_reader::BitReader::new(");
            s.append(crate_name.as_str());
            s.append("::de::Decoder::reader(decoder)); ");
            let packed_part = packed_read_run(fields, i, j, crate_name, bit_order);
            s.append(packed_part.as_str());
            s.append("} else { ");
            let plain_part = plain_read_run(fields, i, j, crate_name, decode_context, borrow);
            s.append(plain_part.as_str());
            s.append("} ");
            s
        } else {
            plain_read_run(fields, i, j, crate_name, decode_context, borrow)
        };
        proof {
            assert(run@ == read_run_text(f, i as int, j as int, k, o, x, borrow));
            assert(read_runs_text(f, i as int, k, o, x, borrow) == read_run_text(f, i as int, j as int, k, o, x, borrow)
                + read_runs_text(f, j as int, k, o, x, borrow));
            assert(out@ + run@ + read_runs_text(f, j as int, k, o, x, borrow) =~= out@ + (run@ + read_runs_text(
                f,
                j as int,
                k,
                o,
                x,
                borrow,
            )));
        }
        out.append(run.as_str());
        i = j;
    }
    proof {
        assert(read_runs_text(f, i as int, k, o, x, borrow) =~= Seq::<char>::empty());
        assert(out@ + Seq::<char>::empty() =~= out@);
    }
    let mut body = decls;
    body.append(out.as_str());
    body.append("core::result::Result::Ok(Self { ");
    body.append(inits.as_str());
    body.append("})");
    body
}


/// The decimal text of `n`.
pub open spec fn decimal_nat(n: nat) -> Seq<char>
    decreases n,
{
    if n < 10 {
        seq![digit_char(n)]
    } else {
        decimal_nat(n / 10) + seq![digit_char(n % 10)]
    }
}

/// Whether item `q` of a variant is packed: the variant index (item 0 where there is one, `off`
/// being 1) always, a field where it has a width.
pub open spec fn item_packed(fields: Seq<(String, FieldAttributes)>, off: int, q: int) -> bool {
    if q < off {
        true
    } else {
        packed(fields[q - off])
    }
}

/// Where the run of items of a variant that starts at `q` ends.
pub open spec fn item_run_end(fields: Seq<(String, FieldAttributes)>, off: int, q: int) -> int
    decreases fields.len() + off - q,
{
    if q + 1 >= fields.len() + off || item_packed(fields, off, q + 1) != item_packed(fields, off, q) {
        q + 1
    } else {
        item_run_end(fields, off, q + 1)
    }
}

/// Each run of items ends after it starts and no later than the last item.
pub proof fn lemma_item_run_end_bounds(fields: Seq<(String, FieldAttributes)>, off: int, q: int)
    requires
        0 <= q < fields.len() + off,
    ensures
        q < item_run_end(fields, off, q) <= fields.len() + off,
    decreases fields.len() + off - q,
{
    if !(q + 1 >= fields.len() + off || item_packed(fields, off, q + 1) != item_packed(fields, off, q)) {
        lemma_item_run_end_bounds(fields, off, q + 1);
    }
}

/// The statements that write the field `f` of a variant, bound by its pattern, into bits.
pub open spec fn variant_packed_text(f: (String, FieldAttributes), krate: Seq<char>, order: Option<Seq<char>>) -> Seq<char> {
    let name = f.0@;
    let bits = decimal(f.1.bits->0);
    "{ fn check_width<const B: u8, T: "@ + krate + "::utils::BitPackedCheck<B>>(_: &T) { let _ = <T as "@ + krate + "::utils::BitPackedCheck<B>>::CHECK; } check_width::<"@ + bits + ", _>("@ + name + "); } if ((*("@ + name + ")) as u128) >= (1u128 << "@ + bits + ") { return "@ + krate + "::error::cold_encode_error_other(\"Value exceeds bit-packed width\"); } "@ + (match order {
        Some(o) => "bit_writer.write_bits_"@ + o + "((*("@ + name + ")) as u64, "@ + bits + ")?; "@,
        None => "bit_writer.write_bits((*("@ + name + ")) as u64, "@ + bits + ", &__config)?; "@,
    })
}

/// The statement that writes the field `f` of a variant whole.
pub open spec fn variant_plain_text(f: (String, FieldAttributes), krate: Seq<char>) -> Seq<char> {
    let name = f.0@;
    if f.1.with_serde {
        krate + "::Encode::encode(&"@ + krate + "::serde::Compat("@ + name + "), encoder)?; "@
    } else {
        krate + "::Encode::encode("@ + name + ", encoder)?; "@
    }
}

/// The statement that writes the variant index `vi` into `vb` bits.
pub open spec fn index_text(vi: u32, vb: u32, order: Option<Seq<char>>) -> Seq<char> {
    let vi = decimal_nat(vi as nat);
    let vb = decimal_nat(vb as nat);
    match order {
        Some(o) => "bit_writer.write_bits_"@ + o + "("@ + vi + " as u64, "@ + vb + ")?; "@,
        None => "bit_writer.write_bits("@ + vi + " as u64, "@ + vb + ", &__config)?; "@,
    }
}

/// The packed statements of the items `q..r`.
pub open spec fn item_packed_texts(
    fields: Seq<(String, FieldAttributes)>,
    off: int,
    q: int,
    r: int,
    vi: u32,
    vb: u32,
    krate: Seq<char>,
    order: Option<Seq<char>>,
) -> Seq<char>
    decreases r - q,
{
    if r <= q {
        Seq::empty()
    } else {
        item_packed_texts(fields, off, q, r - 1, vi, vb, krate, order) + if r - 1 < off {
            index_text(vi, vb, order)
        } else {
            variant_packed_text(fields[r - 1 - off], krate, order)
        }
    }
}

/// The plain statements of the items `q..r` (the variant index, never plain, writes nothing).
pub open spec fn item_plain_texts(
    fields: Seq<(String, FieldAttributes)>,
    off: int,
    q: int,
    r: int,
    krate: Seq<char>,
) -> Seq<char>
    decreases r - q,
{
    if r <= q {
        Seq::empty()
    } else {
        item_plain_texts(fields, off, q, r - 1, krate) + if r - 1 < off {
            Seq::empty()
        } else {
            variant_plain_text(fields[r - 1 - off], krate)
        }
    }
}

/// The statements of the run of items `q..r` when bit packing is on: packed items into a bit
/// writer that takes up the bits left pending, plain items after the pending bits are flushed.
pub open spec fn item_run_text(
    fields: Seq<(String, FieldAttributes)>,
    off: int,
    q: int,
    r: int,
    vi: u32,
    vb: u32,
    krate: Seq<char>,
    order: Option<Seq<char>>,
) -> Seq<char> {
    if item_packed(fields, off, q) {
        "{ let __config = *encoder.config(); let mut bit_writer = "@ + krate + "::enc::bit_writer::BitWriter::from_state("@ + krate + "::enc::Encoder::writer(encoder), __bit_state.0, __bit_state.1); "@ + item_packed_texts(fields, off, q, r, vi, vb, krate, order)
            + "__bit_state = bit_writer.get_state(); } "@
    } else {
        "if __bit_state.1 > 0 { let mut bit_writer = "@ + krate + "::enc::bit_writer::BitWriter::from_state("@ + krate + "::enc::Encoder::writer(encoder), __bit_state.0, __bit_state.1); bit_writer.flush()?; } "@ + "__bit_state = (0, 0); "@ + item_plain_texts(fields, off, q, r, krate)
    }
}

/// The statements of the items from `q` on, run by run.
pub open spec fn item_runs_text(
    fields: Seq<(String, FieldAttributes)>,
    off: int,
    q: int,
    vi: u32,
    vb: u32,
    krate: Seq<char>,
    order: Option<Seq<char>>,
) -> Seq<char>
    decreases fields.len() + off - q,
{
    if q < 0 || q >= fields.len() + off {
        Seq::empty()
    } else {
        let r = item_run_end(fields, off, q);
        proof {
            lemma_item_run_end_bounds(fields, off, q);
        }
        item_run_text(fields, off, q, r, vi, vb, krate, order) + item_runs_text(fields, off, r, vi, vb, krate, order)
    }
}

/// The body of a variant's arm in the `encode` function that the `BitPacked` derive writes for
/// an enum: with bit packing on, its index in `vb` bits (none where `vb` is 0) and its fields,
/// packed run by run, the pending bits flushed at the end; otherwise its index as a `u32` and its
/// fields whole.
pub open spec fn variant_encode_body(
    fields: Seq<(String, FieldAttributes)>,
    vi: u32,
    vb: u32,
    krate: Seq<char>,
    order: Option<Seq<char>>,
) -> Seq<char> {
    let off: int = if vb > 0 { 1 } else { 0 };
    "if "@ + krate + "::config::Config::bit_packing_enabled(encoder.config()) { let mut __bit_state: (u8, u8) = (0, 0); "@ + item_runs_text(fields, off, 0, vi, vb, krate, order) + "if __bit_state.1 > 0 { let mut bit_writer = "@ + krate + "::enc::bit_writer::BitWriter::from_state("@ + krate + "::enc::Encoder::writer(encoder), __bit_state.0, __bit_state.1); bit_writer.flush()?; } "@
        + "core::result::Result::Ok(()) "@ + "} else { <u32 as "@ + krate + "::Encode>::encode(&( "@ + decimal_nat(vi as nat) + " as u32), encoder)?; "@
        + item_plain_texts(fields, 0, 0, fields.len() as int, krate) + "core::result::Result::Ok(()) }"@
}

/// The decimal text of `n`.
fn decimal_u32(n: u32) -> (s: String)
    ensures
        s@ == decimal_nat(n as nat),
{
    decimal_usize(n as usize)
}

/// The decimal text of `n`.
pub(crate) fn decimal_usize(n: usize) -> (s: String)
    ensures
        s@ == decimal_nat(n as nat),
    decreases n,
{
    if n < 10 {
        let s = digit_text(n as u8);
        s
    } else {
        let mut s = decimal_usize(n / 10);
        let d = digit_text((n % 10) as u8);
        s.append(d.as_str());
        s
    }
}

/// The statements that write the field `f` of a variant into bits.
fn variant_packed_field(f: &(String, FieldAttributes), krate: &String, order: Option<&String>) -> (s: String)
    requires
        packed(*f),
    ensures
        s@ == variant_packed_text(*f, krate@, order_model(order)),
{
    let name = f.0.clone();
    let bits = match f.1.bits {
        Some(b) => decimal_text(b),
        None => String::new(),
    };
    let mut s = String::from_str("{ fn check_width<const B: u8, T: ");
    s.append(krate.as_str());
    s.append("::utils::BitPackedCheck<B>>(_: &T) { let _ = <T as ");
    s.append(krate.as_str());
    s.append("::utils::BitPackedCheck<B>>::CHECK; } check_width::<");
    s.append(bits.as_str());
    s.append(", _>(");
    s.append(name.as_str());
    s.append("); } if ((*(");
    s.append(name.as_str());
    s.append(")) as u128) >= (1u128 << ");
    s.append(bits.as_str());
    s.append(") { return ");
    s.append(krate.as_str());
    s.append("::error::cold_encode_error_other(\"Value exceeds bit-packed width\"); } ");
    let tail = match order {
        Some(o) => {
            let mut t = String::from_str("bit_writer.write_bits_");
            t.append(o.as_str());
            t.append("((*(");
            t.append(name.as_str());
            t.append(")) as u64, ");
            t.append(bits.as_str());
            t.append(")?; ");
            t
        },
        None => {
            let mut t = String::from_str("bit_writer.write_bits((*(");
            t.append(name.as_str());
            t.append(")) as u64, ");
            t.append(bits.as_str());
            t.append(", &__config)?; ");
            t
        },
    };
    s.append(tail.as_str());
    s
}

/// The statement that writes the field `f` of a variant whole.
fn variant_plain_field(f: &(String, FieldAttributes), krate: &String) -> (s: String)
    ensures
        s@ == variant_plain_text(*f, krate@),
{
    let name = f.0.clone();
    if f.1.with_serde {
        let mut s = krate.clone();
        s.append("::Encode::encode(&");
        s.append(krate.as_str());
        s.append("::serde::Compat(");
        s.append(name.as_str());
        s.append("), encoder)?; ");
        s
    } else {
        let mut s = krate.clone();
        s.append("::Encode::encode(");
        s.append(name.as_str());
        s.append(", encoder)?; ");
        s
    }
}

/// The statement that writes the variant index.
fn index_field(vi: u32, vb: u32, order: Option<&String>) -> (s: String)
    ensures
        s@ == index_text(vi, vb, order_model(order)),
{
    let vis = decimal_u32(vi);
    let vbs = decimal_u32(vb);
    match order {
        Some(o) => {
            let mut t = String::from_str("bit_writer.write_bits_");
            t.append(o.as_str());
            t.append("(");
            t.append(vis.as_str());
            t.append(" as u64, ");
            t.append(vbs.as_str());
            t.append(")?; ");
            t
        },
        None => {
            let mut t = String::from_str("bit_writer.write_bits(");
            t.append(vis.as_str());
            t.append(" as u64, ");
            t.append(vbs.as_str());
            t.append(", &__config)?; ");
            t
        },
    }
}

/// The packed statements of the items `q..r`.
fn item_packed_run(
    fields: &Vec<(String, FieldAttributes)>,
    off: usize,
    q: usize,
    r: usize,
    vi: u32,
    vb: u32,
    krate: &String,
    order: Option<&String>,
) -> (s: String)
    requires
        off <= 1,
        q <= r <= fields@.len() + off,
        forall|m: int| q <= m < r ==> #[trigger] item_packed(fields@, off as int, m),
    ensures
        s@ == item_packed_texts(fields@, off as int, q as int, r as int, vi, vb, krate@, order_model(order)),
{
    let mut s = String::new();
    let mut m = q;
    while m < r
        invariant
            off <= 1,
            q <= m <= r <= fields@.len() + off,
            forall|t: int| q <= t < r ==> #[trigger] item_packed(fields@, off as int, t),
            s@ == item_packed_texts(fields@, off as int, q as int, m as int, vi, vb, krate@, order_model(order)),
        decreases r - m,
    {
        let t = if m < off {
            index_field(vi, vb, order)
        } else {
            assert(item_packed(fields@, off as int, m as int));
            variant_packed_field(&fields[m - off], krate, order)
        };
        s.append(t.as_str());
        m = m + 1;
    }
    s
}

/// The plain statements of the items `q..r`.
fn item_plain_run(fields: &Vec<(String, FieldAttributes)>, off: usize, q: usize, r: usize, krate: &String) -> (s: String)
    requires
        off <= 1,
        q <= r <= fields@.len() + off,
    ensures
        s@ == item_plain_texts(fields@, off as int, q as int, r as int, krate@),
{
    let mut s = String::new();
    let mut m = q;
    while m < r
        invariant
            off <= 1,
            q <= m <= r <= fields@.len() + off,
            s@ == item_plain_texts(fields@, off as int, q as int, m as int, krate@),
        decreases r - m,
    {
        if m >= off {
            let t = variant_plain_field(&fields[m - off], krate);
            s.append(t.as_str());
        } else {
            assert(s@ + Seq::<char>::empty() =~= s@);
        }
        m = m + 1;
    }
    s
}

/// Whether item `q` of a variant is packed.
fn item_is_packed(fields: &Vec<(String, FieldAttributes)>, off: usize, q: usize) -> (b: bool)
    requires
        off <= 1,
        q < fields@.len() + off,
    ensures
        b == item_packed(fields@, off as int, q as int),
{
    if q < off {
        true
    } else {
        fields[q - off].1.bits.is_some()
    }
}

/// The pending-bits flush that closes a run of packed items.
fn flush_text(krate: &String) -> (s: String)
    ensures
        s@ == "if __bit_state.1 > 0 { let mut bit_writer = "@ + krate@ + "::enc::bit_writer::BitWriter::from_state("@ + krate@ + "::enc::Encoder::writer(encoder), __bit_state.0, __bit_state.1); bit_writer.flush()?; } "@,
{
    let mut s = String::from_str("if __bit_state.1 > 0 { let mut bit_writer = ");
    s.append(krate.as_str());
    s.append("::enc::bit_writer::BitWriter::from_state(");
    s.append(krate.as_str());
    s.append("::enc::Encoder::writer(encoder), __bit_state.0, __bit_state.1); bit_writer.flush()?; } ");
    s
}

/// The body of the match arm for the variant with index `variant_index` (and `fields`, each
/// named as its pattern binds it) in the `encode` function that the `BitPacked` derive writes
/// for an enum whose variant indices take `variant_bits` bits.
pub fn bit_packed_variant_encode_body(
    fields: &Vec<(String, FieldAttributes)>,
    variant_index: u32,
    variant_bits: u32,
    crate_name: &String,
    bit_order: Option<&String>,
) -> (r: String)
    requires
        fields@.len() < usize::MAX,
    ensures
        r@ == variant_encode_body(fields@, variant_index, variant_bits, crate_name@, order_model(bit_order)),
{
    let ghost f = fields@;
    let ghost k = crate_name@;
    let ghost o = order_model(bit_order);
    let off: usize = if variant_bits > 0 { 1 } else { 0 };
    let n = fields.len() + off;
    let mut out = String::new();
    let mut q: usize = 0;
    assert(out@ + item_runs_text(f, off as int, 0, variant_index, variant_bits, k, o) =~= item_runs_text(f, off as int, 0, variant_index, variant_bits, k, o));
    while q < n
        invariant
            off <= 1,
            n == fields@.len() + off,
            q <= n,
            f == fields@,
            k == crate_name@,
            o == order_model(bit_order),
            out@ + item_runs_text(f, off as int, q as int, variant_index, variant_bits, k, o)
                == item_runs_text(f, off as int, 0, variant_index, variant_bits, k, o),
        decreases n - q,
    {
        let p = item_is_packed(fields, off, q);
        let mut r: usize = q + 1;
        while r < n && item_is_packed(fields, off, r) == p
            invariant
                off <= 1,
                n == fields@.len() + off,
                q < r <= n,
                f == fields@,
                p == item_packed(f, off as int, q as int),
                forall|m: int| q <= m < r ==> #[trigger] item_packed(f, off as int, m) == p,
                item_run_end(f, off as int, q as int) == item_run_end(f, off as int, r - 1),
            decreases n - r,
        {
            r = r + 1;
        }
        proof {
            assert(item_run_end(f, off as int, r - 1) == r);
            lemma_item_run_end_bounds(f, off as int, q as int);
        }
        let run = if p {
            let mut s = String::from_str("{ let __config = *encoder.config(); let mut bit_writer = ");
            s.append(crate_name.as_str());
            s.append("::enc::bit_writer::BitWriter::from_state(");
            s.append(crate_name.as_str());
            s.append("::enc::Encoder::writer(encoder), __bit_state.0, __bit_state.1); ");
            let packed_part = item_packed_run(fields, off, q, r, variant_index, variant_bits, crate_name, bit_order);
            s.append(packed_part.as_str());
            s.append("__bit_state = bit_writer.get_state(); } ");
            s
        } else {
            let mut s = flush_text(crate_name);
            s.append("__bit_state = (0, 0); ");
            let plain_part = item_plain_run(fields, off, q, r, crate_name);
            s.append(plain_part.as_str());
            s
        };
        proof {
            assert(run@ == item_run_text(f, off as int, q as int, r as int, variant_index, variant_bits, k, o));
            assert(out@ + run@ + item_runs_text(f, off as int, r as int, variant_index, variant_bits, k, o) =~= out@ + (run@
                + item_runs_text(f, off as int, r as int, variant_index, variant_bits, k, o)));
        }
        out.append(run.as_str());
        q = r;
    }
    proof {
        assert(item_runs_text(f, off as int, q as int, variant_index, variant_bits, k, o) =~= Seq::<char>::empty());
        assert(out@ + Seq::<char>::empty() =~= out@);
    }
    let mut body = String::from_str("if ");
    body.append(crate_name.as_str());
    body.append("::config::Config::bit_packing_enabled(encoder.config()) { let mut __bit_state: (u8, u8) = (0, 0); ");
    body.append(out.as_str());
    let fl = flush_text(crate_name);
    body.append(fl.as_str());
    body.append("core::result::Result::Ok(()) ");
    let vis = decimal_u32(variant_index);
    body.append("} else { <u32 as ");
    body.append(crate_name.as_str());
    body.append("::Encode>::encode(&( ");
    body.append(vis.as_str());
    body.append(" as u32), encoder)?; ");
    let all_plain = item_plain_run(fields, 0, 0, fields.len(), crate_name);
    body.append(all_plain.as_str());
    body.append("core::result::Result::Ok(()) }");
    body
}


/// How a variant's fields stand in its pattern and constructor: none at all, in round brackets by
/// position, or in braces by name.
pub enum VariantShape {
    Unit,
    Tuple,
    Named,
}

/// The positional values `__f, ` of the fields `0..j`.
pub open spec fn tuple_items(fields: Seq<(String, FieldAttributes)>, j: int) -> Seq<char>
    decreases j,
{
    if j <= 0 {
        Seq::empty()
    } else {
        tuple_items(fields, j - 1) + "__"@ + fields[j - 1].0@ + ", "@
    }
}

/// The statement that hands back the variant `name` built from its decoded fields.
pub open spec fn variant_value_text(name: Seq<char>, fields: Seq<(String, FieldAttributes)>, shape: VariantShape) -> Seq<char> {
    "core::result::Result::Ok(Self::"@ + name + (match shape {
        VariantShape::Unit => Seq::empty(),
        VariantShape::Tuple => "("@ + tuple_items(fields, fields.len() as int) + ")"@,
        VariantShape::Named => " { "@ + initializers(fields, fields.len() as int) + "}"@,
    }) + ")"@
}

/// The reads of the run `i..j` of a variant's fields with bit packing on: packed fields from a bit
/// reader that takes up the bits left pending, plain fields after the pending bits are dropped.
pub open spec fn arm_run_text(
    fields: Seq<(String, FieldAttributes)>,
    i: int,
    j: int,
    krate: Seq<char>,
    order: Option<Seq<char>>,
    ctx: Seq<char>,
    borrow: bool,
) -> Seq<char> {
    if packed(fields[i]) {
        "{ let __config = *decoder.config(); let mut bit_reader = "@ + krate + "::de::bit_reader::BitReader::from_state("@ + krate + "::de::Decoder::reader(decoder), __bit_state.0, __bit_state.1); "@
            + packed_reads(fields, i, j, krate, order) + "__bit_state = bit_reader.get_state(); } "@
    } else {
        "__bit_state = (0, 0); "@ + plain_reads(fields, i, j, krate, ctx, borrow)
    }
}

/// The reads of a variant's fields from `i` on, run by run, with bit packing on.
pub open spec fn arm_runs_text(
    fields: Seq<(String, FieldAttributes)>,
    i: int,
    krate: Seq<char>,
    order: Option<Seq<char>>,
    ctx: Seq<char>,
    borrow: bool,
) -> Seq<char>
    decreases fields.len() - i,
{
    if i < 0 || i >= fields.len() {
        Seq::empty()
    } else {
        let j = run_end(fields, i);
        proof {
            lemma_run_end_bounds(fields, i);
        }
        arm_run_text(fields, i, j, krate, order, ctx, borrow) + arm_runs_text(fields, j, krate, order, ctx, borrow)
    }
}

/// Each of the fields `0..j` declared and read whole, one after the other.
pub open spec fn declared_reads(
    fields: Seq<(String, FieldAttributes)>,
    j: int,
    krate: Seq<char>,
    ctx: Seq<char>,
    borrow: bool,
) -> Seq<char>
    decreases j,
{
    if j <= 0 {
        Seq::empty()
    } else {
        declared_reads(fields, j - 1, krate, ctx, borrow) + "let mut __"@ + fields[j - 1].0@ + "; "@
            + plain_read_text(fields[j - 1], krate, ctx, borrow)
    }
}

/// The body of the match arm of a variant in the `decode` (or `borrow_decode`) function that the
/// `BitPacked` derive writes for an enum, once the variant index is read: with bit packing on
/// (`packing`), the fields declared, then read run by run; otherwise each declared and read whole;
/// then the variant built from them.
pub open spec fn variant_decode_arm(
    fields: Seq<(String, FieldAttributes)>,
    name: Seq<char>,
    shape: VariantShape,
    krate: Seq<char>,
    order: Option<Seq<char>>,
    ctx: Seq<char>,
    borrow: bool,
    packing: bool,
) -> Seq<char> {
    if packing {
        declarations(fields, fields.len() as int) + arm_runs_text(fields, 0, krate, order, ctx, borrow)
            + variant_value_text(name, fields, shape)
    } else {
        declared_reads(fields, fields.len() as int, krate, ctx, borrow) + variant_value_text(name, fields, shape)
    }
}

/// The statement that hands back the variant `name` built from its decoded fields.
fn variant_value(name: &String, fields: &Vec<(String, FieldAttributes)>, shape: &VariantShape) -> (s: String)
    ensures
        s@ == variant_value_text(name@, fields@, *shape),
{
    let mut s = String::from_str("core::result::Result::Ok(Self::");
    s.append(name.as_str());
    match shape {
        VariantShape::Unit => {
            assert(s@ + Seq::<char>::empty() =~= s@);
        },
        VariantShape::Tuple => {
            let mut items = String::new();
            let mut d: usize = 0;
            while d < fields.len()
                invariant
                    d <= fields@.len(),
                    items@ == tuple_items(fields@, d as int),
                decreases fields@.len() - d,
            {
                items.append("__");
                items.append(fields[d].0.as_str());
                items.append(", ");
                d = d + 1;
            }
            s.append("(");
            s.append(items.as_str());
            s.append(")");
        },
        VariantShape::Named => {
            let mut inits = String::new();
            let mut d: usize = 0;
            while d < fields.len()
                invariant
                    d <= fields@.len(),
                    inits@ == initializers(fields@, d as int),
                decreases fields@.len() - d,
            {
                inits.append(fields[d].0.as_str());
                inits.append(": __");
                inits.append(fields[d].0.as_str());
                inits.append(", ");
                d = d + 1;
            }
            s.append(" { ");
            s.append(inits.as_str());
            s.append("}");
        },
    }
    s.append(")");
    s
}

/// The body of the match arm for the variant `variant_name` (of `shape`, with `fields`, each
/// named as its pattern binds it) in the `decode` function (or, where `borrow` holds, the
/// `borrow_decode` function) that the `BitPacked` derive writes for an enum, in the branch with
/// bit packing on where `packing` holds and in the other branch where it does not, naming this
/// crate `crate_name`, with the container's bit order `bit_order` (else the configured one) and
/// the decoding context type `decode_context`.
pub fn bit_packed_variant_decode_arm(
    fields: &Vec<(String, FieldAttributes)>,
    variant_name: &String,
    shape: &VariantShape,
    crate_name: &String,
    bit_order: Option<&String>,
    decode_context: &String,
    borrow: bool,
    packing: bool,
) -> (r: String)
    ensures
        r@ == variant_decode_arm(
            fields@,
            variant_name@,
            *shape,
            crate_name@,
            order_model(bit_order),
            decode_context@,
            borrow,
            packing,
        ),
{
    let ghost f = fields@;
    let ghost k = crate_name@;
    let ghost o = order_model(bit_order);
    let ghost x = decode_context@;
    let value = variant_value(variant_name, fields, shape);
    if !packing {
        let mut out = String::new();
        let mut d: usize = 0;
        while d < fields.len()
            invariant
                d <= fields@.len(),
                f == fields@,
                out@ == declared_reads(f, d as int, k, x, borrow),
                k == crate_name@,
                x == decode_context@,
            decreases fields@.len() - d,
        {
            out.append("let mut __");
            out.append(fields[d].0.as_str());
            out.append("; ");
            let t = plain_read_field(&fields[d], crate_name, decode_context, borrow);
            out.append(t.as_str());
            d = d + 1;
        }
        out.append(value.as_str());
        return out;
    }
    let mut decls = String::new();
    let mut d: usize = 0;
    while d < fields.len()
        invariant
            d <= fields@.len(),
            f == fields@,
            decls@ == declarations(f, d as int),
        decreases fields@.len() - d,
    {
        decls.append("let mut __");
        decls.append(fields[d].0.as_str());
        decls.append("; ");
        d = d + 1;
    }
    let mut out = String::new();
    let mut i: usize = 0;
    assert(out@ + arm_runs_text(f, 0, k, o, x, borrow) =~= arm_runs_text(f, 0, k, o, x, borrow));
    while i < fields.len()
        invariant
            i <= fields@.len(),
            f == fields@,
            k == crate_name@,
            o == order_model(bit_order),
            x == decode_context@,
            out@ + arm_runs_text(f, i as int, k, o, x, borrow) == arm_runs_text(f, 0, k, o, x, borrow),
        decreases fields@.len() - i,
    {
        let p = fields[i].1.bits.is_some();
        let mut j: usize = i + 1;
        while j < fields.len() && fields[j].1.bits.is_some() == p
            invariant
                i < j <= fields@.len(),
                f == fields@,
                p == packed(f[i as int]),
                forall|m: int| i <= m < j ==> packed(#[trigger] f[m]) == p,
                run_end(f, i as int) == run_end(f, j - 1),
            decreases fields@.len() - j,
        {
            j = j + 1;
        }
        proof {
            assert(run_end(f, j - 1) == j);
            lemma_run_end_bounds(f, i as int);
        }
        let run = if p {
            let mut s = String::from_str("{ let __config = *decoder.config(); let mut bit_reader = ");
            s.append(crate_name.as_str());
            s.append("::de::bit_reader::BitReader::from_state(");
            s.append(crate_name.as_str());
            s.append("::de::Decoder::reader(decoder), __bit_state.0, __bit_state.1); ");
            let packed_part = packed_read_run(fields, i, j, crate_name, bit_order);
            s.append(packed_part.as_str());
            s.append("__bit_state = bit_reader.get_state(); } ");
            s
        } else {
            let mut s = String::from_str("__bit_state = (0, 0); ");
            let plain_part = plain_read_run(fields, i, j, crate_name, decode_context, borrow);
            s.append(plain_part.as_str());
            s
        };
        proof {
            assert(run@ == arm_run_text(f, i as int, j as int, k, o, x, borrow));
            assert(arm_runs_text(f, i as int, k, o, x, borrow) == arm_run_text(f, i as int, j as int, k, o, x, borrow)
                + arm_runs_text(f, j as int, k, o, x, borrow));
            assert(out@ + run@ + arm_runs_text(f, j as int, k, o, x, borrow) =~= out@ + (run@ + arm_runs_text(
                f,
                j as int,
                k,
                o,
                x,
                borrow,
            )));
        }
        out.append(run.as_str());
        i = j;
    }
    proof {
        assert(arm_runs_text(f, i as int, k, o, x, borrow) =~= Seq::<char>::empty());
        assert(out@ + Seq::<char>::empty() =~= out@);
    }
    let mut body = decls;
    body.append(out.as_str());
    body.append(value.as_str());
    body
}

/// The statement, with bit packing on, that reads the variant index from `vb` bits (none where
/// `vb` is 0).
pub open spec fn index_read_text(vb: u32, krate: Seq<char>, order: Option<Seq<char>>) -> Seq<char> {
    if vb > 0 {
        let bits = decimal_nat(vb as nat);
        "let variant_index = { let __config = *decoder.config(); let mut bit_reader = "@ + krate + "::de::bit_reader::BitReader::from_state("@ + krate + "::de::Decoder::reader(decoder), __bit_state.0, __bit_state.1); "@
            + (match order {
            Some(o) => "let variant_index = <u32 as "@ + krate + "::de::bit_reader::Unpackable>::unpack(bit_reader.read_bits_"@ + o + "("@ + bits + ")?); "@,
            None => "let variant_index = <u32 as "@ + krate + "::de::bit_reader::Unpackable>::unpack(bit_reader.read_bits("@ + bits + ", &__config)?); "@,
        }) + "__bit_state = bit_reader.get_state(); core::result::Result::Ok(variant_index) }?; "@
    } else {
        "let variant_index = 0u32; "@
    }
}

/// The match arms of the variants `0..j`, each under its index, with a comma after each where
/// `packing` holds.
pub open spec fn decode_arms(
    variants: Seq<(String, VariantShape, Vec<(String, FieldAttributes)>)>,
    j: int,
    krate: Seq<char>,
    order: Option<Seq<char>>,
    ctx: Seq<char>,
    borrow: bool,
    packing: bool,
) -> Seq<char>
    decreases j,
{
    if j <= 0 {
        Seq::empty()
    } else {
        let v = variants[j - 1];
        decode_arms(variants, j - 1, krate, order, ctx, borrow, packing) + decimal_nat((j - 1) as nat) + " => { "@
            + variant_decode_arm(v.2@, v.0@, v.1, krate, order, ctx, borrow, packing) + (if packing {
            "}, "@
        } else {
            "} "@
        })
    }
}

/// The names of the variants `0..j`, separated by commas.
pub open spec fn variant_names(variants: Seq<(String, VariantShape, Vec<(String, FieldAttributes)>)>, j: int) -> Seq<char>
    decreases j,
{
    if j <= 0 {
        Seq::empty()
    } else if j == 1 {
        variants[0].0@
    } else {
        variant_names(variants, j - 1) + ", "@ + variants[j - 1].0@
    }
}

/// The match arm that refuses any other variant index, naming the enum `enum_name` and the
/// variants allowed: by name where a variant of the enum has an explicit discriminant
/// (`discriminants`), else as the range of indices.
pub open spec fn invalid_variant_text(
    variants: Seq<(String, VariantShape, Vec<(String, FieldAttributes)>)>,
    enum_name: Seq<char>,
    krate: Seq<char>,
    discriminants: bool,
) -> Seq<char> {
    "variant => "@ + krate + "::error::cold_decode_error_unexpected_variant(\""@ + enum_name + "\", "@ + (if discriminants {
        "&"@ + krate + "::error::AllowedEnumVariants::Allowed(&["@ + variant_names(variants, variants.len() as int) + "])"@
    } else {
        "&"@ + krate + "::error::AllowedEnumVariants::Range { min: 0, max: "@ + decimal_nat((variants.len() - 1) as nat) + " }"@
    }) + ", variant)"@
}

/// The body of the `decode` function (or, where `borrow` holds, of `borrow_decode`) that the
/// `BitPacked` derive writes for an enum: with bit packing on, the variant index from as few bits
/// as tell the variants apart, else a `u32`; then the arm of that variant, or the refusal of any
/// other index. An enum without variants is refused in both branches.
pub open spec fn enum_decode_body(
    variants: Seq<(String, VariantShape, Vec<(String, FieldAttributes)>)>,
    enum_name: Seq<char>,
    krate: Seq<char>,
    order: Option<Seq<char>>,
    ctx: Seq<char>,
    borrow: bool,
    discriminants: bool,
    vb: u32,
) -> Seq<char> {
    let n = variants.len() as int;
    let empty = krate + "::error::cold_decode_error_empty_enum(core::any::type_name::<Self>()) "@;
    let invalid = invalid_variant_text(variants, enum_name, krate, discriminants);
    "if "@ + krate + "::config::Config::bit_packing_enabled(decoder.config()) { "@ + (if n == 0 {
        empty
    } else {
        "let mut __bit_state: (u8, u8) = (0, 0); "@ + index_read_text(vb, krate, order) + "match variant_index { "@
            + decode_arms(variants, n, krate, order, ctx, borrow, true) + invalid + " } "@
    }) + "} else { "@ + (if n == 0 {
        empty
    } else {
        "let variant_index: u32 = "@ + krate + "::Decode::decode(decoder)?; match variant_index { "@ + decode_arms(
            variants,
            n,
            krate,
            order,
            ctx,
            borrow,
            false,
        ) + invalid + " } "@
    }) + "}"@
}

/// The statement that reads the variant index with bit packing on.
fn index_read(vb: u32, krate: &String, order: Option<&String>) -> (s: String)
    ensures
        s@ == index_read_text(vb, krate@, order_model(order)),
{
    if vb == 0 {
        return String::from_str("let variant_index = 0u32; ");
    }
    let bits = decimal_u32(vb);
    let mut s = String::from_str("let variant_index = { let __config = *decoder.config(); let mut bit_reader = ");
    s.append(krate.as_str());
    s.append("::de::bit_reader::BitReader::from_state(");
    s.append(krate.as_str());
    s.append("::de::Decoder::reader(decoder), __bit_state.0, __bit_state.1); ");
    let read = match order {
        Some(o) => {
            let mut t = String::from_str("let variant_index = <u32 as ");
            t.append(krate.as_str());
            t.append("::de::bit_reader::Unpackable>::unpack(bit_reader.read_bits_");
            t.append(o.as_str());
            t.append("(");
            t.append(bits.as_str());
            t.append(")?); ");
            t
        },
        None => {
            let mut t = String::from_str("let variant_index = <u32 as ");
            t.append(krate.as_str());
            t.append("::de::bit_reader::Unpackable>::unpack(bit_reader.read_bits(");
            t.append(bits.as_str());
            t.append(", &__config)?); ");
            t
        },
    };
    s.append(read.as_str());
    s.append("__bit_state = bit_reader.get_state(); core::result::Result::Ok(variant_index) }?; ");
    s
}

/// The match arms of all the variants.
fn decode_arm_list(
    variants: &Vec<(String, VariantShape, Vec<(String, FieldAttributes)>)>,
    krate: &String,
    order: Option<&String>,
    ctx: &String,
    borrow: bool,
    packing: bool,
) -> (s: String)
    ensures
        s@ == decode_arms(variants@, variants@.len() as int, krate@, order_model(order), ctx@, borrow, packing),
{
    let mut s = String::new();
    let mut v: usize = 0;
    while v < variants.len()
        invariant
            v <= variants@.len(),
            s@ == decode_arms(variants@, v as int, krate@, order_model(order), ctx@, borrow, packing),
        decreases variants@.len() - v,
    {
        let index = decimal_usize(v);
        let arm = bit_packed_variant_decode_arm(&variants[v].2, &variants[v].0, &variants[v].1, krate, order, ctx, borrow, packing);
        s.append(index.as_str());
        s.append(" => { ");
        s.append(arm.as_str());
        if packing {
            s.append("}, ");
        } else {
            s.append("} ");
        }
        v = v + 1;
    }
    s
}

/// The arm that refuses any other variant index.
fn invalid_variant(
    variants: &Vec<(String, VariantShape, Vec<(String, FieldAttributes)>)>,
    enum_name: &String,
    krate: &String,
    discriminants: bool,
) -> (s: String)
    requires
        variants@.len() > 0,
    ensures
        s@ == invalid_variant_text(variants@, enum_name@, krate@, discriminants),
{
    let mut s = String::from_str("variant => ");
    s.append(krate.as_str());
    s.append("::error::cold_decode_error_unexpected_variant(\"");
    s.append(enum_name.as_str());
    s.append("\", ");
    let mut allowed = String::from_str("&");
    allowed.append(krate.as_str());
    if discriminants {
        let mut names = String::new();
        let mut v: usize = 0;
        while v < variants.len()
            invariant
                v <= variants@.len(),
                names@ == variant_names(variants@, v as int),
            decreases variants@.len() - v,
        {
            if v > 0 {
                names.append(", ");
            }
            names.append(variants[v].0.as_str());
            v = v + 1;
        }
        allowed.append("::error::AllowedEnumVariants::Allowed(&[");
        allowed.append(names.as_str());
        allowed.append("])");
    } else {
        let max = decimal_usize(variants.len() - 1);
        allowed.append("::error::AllowedEnumVariants::Range { min: 0, max: ");
        allowed.append(max.as_str());
        allowed.append(" }");
    }
    s.append(allowed.as_str());
    s.append(", variant)");
    s
}

/// The body of the `decode` function (or, where `borrow` holds, of `borrow_decode`) that the
/// `BitPacked` derive writes for an enum named `enum_name` with `variants` (each its name, its
/// shape and its fields), naming this crate `crate_name`, with the container's bit order
/// `bit_order` (else the configured one) and the decoding context type `decode_context`;
/// `discriminants` tells whether a variant has an explicit discriminant.
pub fn bit_packed_enum_decode_body(
    variants: &Vec<(String, VariantShape, Vec<(String, FieldAttributes)>)>,
    enum_name: &String,
    crate_name: &String,
    bit_order: Option<&String>,
    decode_context: &String,
    borrow: bool,
    discriminants: bool,
) -> (r: String)
    requires
        variants@.len() <= u32::MAX,
    ensures
        r@ == enum_decode_body(
            variants@,
            enum_name@,
            crate_name@,
            order_model(bit_order),
            decode_context@,
            borrow,
            discriminants,
            variant_index_bits(variants@.len()) as u32,
        ),
{
    let mut r = String::from_str("if ");
    r.append(crate_name.as_str());
    r.append("::config::Config::bit_packing_enabled(decoder.config()) { ");
    if variants.len() == 0 {
        let mut empty = crate_name.clone();
        empty.append("::error::cold_decode_error_empty_enum(core::any::type_name::<Self>()) ");
        r.append(empty.as_str());
        r.append("} else { ");
        r.append(empty.as_str());
        r.append("}");
        return r;
    }
    let vb = variant_bits(variants.len() as u32);
    let invalid = invalid_variant(variants, enum_name, crate_name, discriminants);
    let index = index_read(vb, crate_name, bit_order);
    let packed_arms = decode_arm_list(variants, crate_name, bit_order, decode_context, borrow, true);
    let mut on = String::from_str("let mut __bit_state: (u8, u8) = (0, 0); ");
    on.append(index.as_str());
    on.append("match variant_index { ");
    on.append(packed_arms.as_str());
    on.append(invalid.as_str());
    on.append(" } ");
    let mut off = String::from_str("let variant_index: u32 = ");
    off.append(crate_name.as_str());
    off.append("::Decode::decode(decoder)?; match variant_index { ");
    let plain_arms = decode_arm_list(variants, crate_name, bit_order, decode_context, borrow, false);
    off.append(plain_arms.as_str());
    off.append(invalid.as_str());
    off.append(" } ");
    r.append(on.as_str());
    r.append("} else { ");
    r.append(off.as_str());
    r.append("}");
    r
}

/// The names of the fields `0..j`, separated by commas.
pub open spec fn field_names(fields: Seq<(String, FieldAttributes)>, j: int) -> Seq<char>
    decreases j,
{
    if j <= 0 {
        Seq::empty()
    } else if j == 1 {
        fields[0].0@
    } else {
        field_names(fields, j - 1) + ", "@ + fields[j - 1].0@
    }
}

/// The pattern that binds a variant's fields by their names.
pub open spec fn variant_pattern(fields: Seq<(String, FieldAttributes)>, shape: VariantShape) -> Seq<char> {
    match shape {
        VariantShape::Unit => Seq::empty(),
        VariantShape::Tuple => "("@ + field_names(fields, fields.len() as int) + ")"@,
        VariantShape::Named => " { "@ + field_names(fields, fields.len() as int) + " }"@,
    }
}

/// The match arms of the variants `0..j` in the `encode` function, each under its pattern.
pub open spec fn encode_arms(
    variants: Seq<(String, VariantShape, Vec<(String, FieldAttributes)>)>,
    j: int,
    krate: Seq<char>,
    order: Option<Seq<char>>,
    vb: u32,
) -> Seq<char>
    decreases j,
{
    if j <= 0 {
        Seq::empty()
    } else {
        let v = variants[j - 1];
        encode_arms(variants, j - 1, krate, order, vb) + "Self::"@ + v.0@ + variant_pattern(v.2@, v.1) + " => { "@
            + variant_encode_body(v.2@, (j - 1) as u32, vb, krate, order) + "}, "@
    }
}

/// The body of the `encode` function that the `BitPacked` derive writes for an enum: a match on
/// the value with an arm for each variant (an enum without variants has none to reach).
pub open spec fn enum_encode_body(
    variants: Seq<(String, VariantShape, Vec<(String, FieldAttributes)>)>,
    krate: Seq<char>,
    order: Option<Seq<char>>,
) -> Seq<char> {
    let n = variants.len() as int;
    "match self { "@ + (if n == 0 {
        "_ => core::unreachable!(), "@
    } else {
        Seq::empty()
    }) + encode_arms(variants, n, krate, order, variant_index_bits(variants.len()) as u32) + "}"@
}

/// The pattern that binds a variant's fields.
fn pattern(fields: &Vec<(String, FieldAttributes)>, shape: &VariantShape) -> (s: String)
    ensures
        s@ == variant_pattern(fields@, *shape),
{
    let mut names = String::new();
    let mut d: usize = 0;
    while d < fields.len()
        invariant
            d <= fields@.len(),
            names@ == field_names(fields@, d as int),
        decreases fields@.len() - d,
    {
        if d > 0 {
            names.append(", ");
        }
        names.append(fields[d].0.as_str());
        d = d + 1;
    }
    match shape {
        VariantShape::Unit => String::new(),
        VariantShape::Tuple => {
            let mut s = String::from_str("(");
            s.append(names.as_str());
            s.append(")");
            s
        },
        VariantShape::Named => {
            let mut s = String::from_str(" { ");
            s.append(names.as_str());
            s.append(" }");
            s
        },
    }
}

/// The body of the `encode` function that the `BitPacked` derive writes for an enum with
/// `variants` (each its name, its shape and its fields, named as its pattern binds them), naming
/// this crate `crate_name`, with the container's bit order `bit_order` (else the configured one).
pub fn bit_packed_enum_encode_body(
    variants: &Vec<(String, VariantShape, Vec<(String, FieldAttributes)>)>,
    crate_name: &String,
    bit_order: Option<&String>,
) -> (r: String)
    requires
        variants@.len() <= u32::MAX,
        forall|v: int| 0 <= v < variants@.len() ==> (#[trigger] variants@[v]).2@.len() < usize::MAX,
    ensures
        r@ == enum_encode_body(variants@, crate_name@, order_model(bit_order)),
{
    let vb = variant_bits(variants.len() as u32);
    let mut arms = String::new();
    let mut v: usize = 0;
    while v < variants.len()
        invariant
            v <= variants@.len() <= u32::MAX,
            forall|t: int| 0 <= t < variants@.len() ==> (#[trigger] variants@[t]).2@.len() < usize::MAX,
            vb == variant_index_bits(variants@.len()),
            arms@ == encode_arms(variants@, v as int, crate_name@, order_model(bit_order), vb),
        decreases variants@.len() - v,
    {
        let pat = pattern(&variants[v].2, &variants[v].1);
        let body = bit_packed_variant_encode_body(&variants[v].2, v as u32, vb, crate_name, bit_order);
        arms.append("Self::");
        arms.append(variants[v].0.as_str());
        arms.append(pat.as_str());
        arms.append(" => { ");
        arms.append(body.as_str());
        arms.append("}, ");
        v = v + 1;
    }
    let mut r = String::from_str("match self { ");
    if variants.len() == 0 {
        r.append("_ => core::unreachable!(), ");
    } else {
        assert(r@ + Seq::<char>::empty() =~= r@);
    }
    r.append(arms.as_str());
    r.append("}");
    r
}

/// Whether `t` stands in `body` from position `p` on.
pub open spec fn contains_at(body: Seq<char>, p: int, t: Seq<char>) -> bool {
    0 <= p && p + t.len() <= body.len() && body.subrange(p, p + t.len()) == t
}

proof fn lemma_contains_middle(a: Seq<char>, t: Seq<char>, b: Seq<char>)
    ensures
        contains_at(a + t + b, a.len() as int, t),
{
    assert((a + t + b).subrange(a.len() as int, (a.len() + t.len()) as int) =~= t);
}

proof fn lemma_encode_arms_prefix(
    variants: Seq<(String, VariantShape, Vec<(String, FieldAttributes)>)>,
    m: int,
    n: int,
    krate: Seq<char>,
    order: Option<Seq<char>>,
    vb: u32,
)
    requires
        0 <= m <= n,
    ensures
        encode_arms(variants, n, krate, order, vb) == encode_arms(variants, m, krate, order, vb) + encode_arms(
            variants,
            n,
            krate,
            order,
            vb,
        ).skip(encode_arms(variants, m, krate, order, vb).len() as int),
    decreases n - m,
{
    let e = encode_arms(variants, n, krate, order, vb);
    let em = encode_arms(variants, m, krate, order, vb);
    if m < n {
        lemma_encode_arms_prefix(variants, m, n - 1, krate, order, vb);
        assert(e =~= em + e.skip(em.len() as int));
    } else {
        assert(e =~= em + e.skip(em.len() as int));
    }
}

/// In the `encode` body that the `BitPacked` derive writes for an enum, the arm that matches the
/// variant at position `i` (by its name and pattern) writes the body of that variant with the
/// index `i`, so that each variant is written under its own position.
#[verifier::rlimit(100)]
#[verifier::spinoff_prover]
pub proof fn lemma_enum_encode_arm_index(
    variants: Seq<(String, VariantShape, Vec<(String, FieldAttributes)>)>,
    krate: Seq<char>,
    order: Option<Seq<char>>,
    i: int,
)
    requires
        0 <= i < variants.len(),
    ensures
        exists|p: int|
            #[trigger] contains_at(
                enum_encode_body(variants, krate, order),
                p,
                "Self::"@ + variants[i].0@ + variant_pattern(variants[i].2@, variants[i].1) + " => { "@
                    + variant_encode_body(
                    variants[i].2@,
                    i as u32,
                    variant_index_bits(variants.len()) as u32,
                    krate,
                    order,
                ),
            ),
{
    let n = variants.len() as int;
    let vb = variant_index_bits(variants.len()) as u32;
    let v = variants[i];
    let t = "Self::"@ + v.0@ + variant_pattern(v.2@, v.1) + " => { "@ + variant_encode_body(v.2@, i as u32, vb, krate, order);
    lemma_encode_arms_prefix(variants, i + 1, n, krate, order, vb);
    let ei = encode_arms(variants, i, krate, order, vb);
    let e1 = encode_arms(variants, i + 1, krate, order, vb);
    let en = encode_arms(variants, n, krate, order, vb);
    assert(e1 == ei + t + "}, "@);
    let head = "match self { "@ + (if n == 0 {
        "_ => core::unreachable!(), "@
    } else {
        Seq::empty()
    });
    let body = enum_encode_body(variants, krate, order);
    assert(body == head + en + "}"@);
    let rest = "}, "@ + en.skip(e1.len() as int) + "}"@;
    assert(body =~= (head + ei) + t + rest);
    lemma_contains_middle(head + ei, t, rest);
}

/// The body of a variant's arm writes the variant index `vi`: as a `u32` when bit packing is off,
/// and, when indices take bits (`vb > 0`), as the first `vb` bits written when it is on, in the
/// container's bit order or else the configured one.
#[verifier::rlimit(100)]
#[verifier::spinoff_prover]
pub proof fn lemma_variant_encode_writes_index(
    fields: Seq<(String, FieldAttributes)>,
    vi: u32,
    vb: u32,
    krate: Seq<char>,
    order: Option<Seq<char>>,
)
    ensures
        exists|p: int|
            #[trigger] contains_at(
                variant_encode_body(fields, vi, vb, krate, order),
                p,
                "} else { <u32 as "@ + krate + "::Encode>::encode(&( "@ + decimal_nat(vi as nat) + " as u32), encoder)?; "@,
            ),
        vb > 0 ==> contains_at(
            variant_encode_body(fields, vi, vb, krate, order),
            0,
            "if "@ + krate + "::config::Config::bit_packing_enabled(encoder.config()) { let mut __bit_state: (u8, u8) = (0, 0); "@
                + "{ let __config = *encoder.config(); let mut bit_writer = "@ + krate + "::enc::bit_writer::BitWriter::from_state("@ + krate
                + "::enc::Encoder::writer(encoder), __bit_state.0, __bit_state.1); "@ + match order {
                Some(o) => "bit_writer.write_bits_"@ + o + "("@ + decimal_nat(vi as nat) + " as u64, "@ + decimal_nat(vb as nat) + ")?; "@,
                None => "bit_writer.write_bits("@ + decimal_nat(vi as nat) + " as u64, "@ + decimal_nat(vb as nat) + ", &__config)?; "@,
            },
        ),
{
    let off: int = if vb > 0 { 1 } else { 0 };
    let body = variant_encode_body(fields, vi, vb, krate, order);
    let head = "if "@ + krate + "::config::Config::bit_packing_enabled(encoder.config()) { let mut __bit_state: (u8, u8) = (0, 0); "@
        + item_runs_text(fields, off, 0, vi, vb, krate, order) + "if __bit_state.1 > 0 { let mut bit_writer = "@ + krate
        + "::enc::bit_writer::BitWriter::from_state("@ + krate + "::enc::Encoder::writer(encoder), __bit_state.0, __bit_state.1); bit_writer.flush()?; } "@
        + "core::result::Result::Ok(()) "@;
    let t = "} else { <u32 as "@ + krate + "::Encode>::encode(&( "@ + decimal_nat(vi as nat) + " as u32), encoder)?; "@;
    let tail = item_plain_texts(fields, 0, 0, fields.len() as int, krate) + "core::result::Result::Ok(()) }"@;
    assert(body =~= head + t + tail);
    lemma_contains_middle(head, t, tail);
    if vb > 0 {
        let r = item_run_end(fields, 1, 0);
        lemma_item_run_end_bounds(fields, 1, 0);
        assert(item_packed(fields, 1, 0));
        lemma_item_packed_texts_first(fields, r, vi, vb, krate, order);
        let idx = index_text(vi, vb, order);
        let pk = item_packed_texts(fields, 1, 0, r, vi, vb, krate, order);
        let open_run = "{ let __config = *encoder.config(); let mut bit_writer = "@ + krate + "::enc::bit_writer::BitWriter::from_state("@ + krate
            + "::enc::Encoder::writer(encoder), __bit_state.0, __bit_state.1); "@;
        let start = "if "@ + krate + "::config::Config::bit_packing_enabled(encoder.config()) { let mut __bit_state: (u8, u8) = (0, 0); "@;
        let runs = item_runs_text(fields, 1, 0, vi, vb, krate, order);
        assert(runs == item_run_text(fields, 1, 0, r, vi, vb, krate, order) + item_runs_text(fields, 1, r, vi, vb, krate, order));
        let after = pk.skip(idx.len() as int) + "__bit_state = bit_writer.get_state(); } "@ + item_runs_text(fields, 1, r, vi, vb, krate, order);
        assert(runs =~= open_run + idx + after);
        let u = start + open_run + idx;
        let fin = "if __bit_state.1 > 0 { let mut bit_writer = "@ + krate
            + "::enc::bit_writer::BitWriter::from_state("@ + krate + "::enc::Encoder::writer(encoder), __bit_state.0, __bit_state.1); bit_writer.flush()?; } "@
            + "core::result::Result::Ok(()) "@ + t + tail;
        assert(body =~= start + runs + fin);
        assert(idx == match order {
            Some(o) => "bit_writer.write_bits_"@ + o + "("@ + decimal_nat(vi as nat) + " as u64, "@ + decimal_nat(vb as nat) + ")?; "@,
            None => "bit_writer.write_bits("@ + decimal_nat(vi as nat) + " as u64, "@ + decimal_nat(vb as nat) + ", &__config)?; "@,
        });
        assert(body =~= Seq::<char>::empty() + u + (after + fin));
        lemma_contains_middle(Seq::<char>::empty(), u, after + fin);
        assert(contains_at(body, 0, u));
        let want = "if "@ + krate + "::config::Config::bit_packing_enabled(encoder.config()) { let mut __bit_state: (u8, u8) = (0, 0); "@
            + "{ let __config = *encoder.config(); let mut bit_writer = "@ + krate + "::enc::bit_writer::BitWriter::from_state("@ + krate
            + "::enc::Encoder::writer(encoder), __bit_state.0, __bit_state.1); "@ + idx;
        assert(want =~= u);
    }
}

proof fn lemma_item_packed_texts_first(
    fields: Seq<(String, FieldAttributes)>,
    r: int,
    vi: u32,
    vb: u32,
    krate: Seq<char>,
    order: Option<Seq<char>>,
)
    requires
        r >= 1,
    ensures
        item_packed_texts(fields, 1, 0, r, vi, vb, krate, order) == index_text(vi, vb, order) + item_packed_texts(
            fields,
            1,
            0,
            r,
            vi,
            vb,
            krate,
            order,
        ).skip(index_text(vi, vb, order).len() as int),
    decreases r,
{
    let t = item_packed_texts(fields, 1, 0, r, vi, vb, krate, order);
    let idx = index_text(vi, vb, order);
    if r == 1 {
        assert(item_packed_texts(fields, 1, 0, 0, vi, vb, krate, order) == Seq::<char>::empty());
        assert(t =~= idx + t.skip(idx.len() as int));
    } else {
        lemma_item_packed_texts_first(fields, r - 1, vi, vb, krate, order);
        assert(t =~= idx + t.skip(idx.len() as int));
    }
}

proof fn lemma_decode_arms_prefix(
    variants: Seq<(String, VariantShape, Vec<(String, FieldAttributes)>)>,
    m: int,
    n: int,
    krate: Seq<char>,
    order: Option<Seq<char>>,
    ctx: Seq<char>,
    borrow: bool,
    packing: bool,
)
    requires
        0 <= m <= n,
    ensures
        decode_arms(variants, n, krate, order, ctx, borrow, packing) == decode_arms(variants, m, krate, order, ctx, borrow, packing)
            + decode_arms(variants, n, krate, order, ctx, borrow, packing).skip(
            decode_arms(variants, m, krate, order, ctx, borrow, packing).len() as int,
        ),
    decreases n - m,
{
    let e = decode_arms(variants, n, krate, order, ctx, borrow, packing);
    let em = decode_arms(variants, m, krate, order, ctx, borrow, packing);
    if m < n {
        lemma_decode_arms_prefix(variants, m, n - 1, krate, order, ctx, borrow, packing);
    }
    assert(e =~= em + e.skip(em.len() as int));
}

/// In the `decode` (or `borrow_decode`) body that the `BitPacked` derive writes for an enum, in
/// both branches, the arm for the index `i` decodes the variant at position `i`: it ends by
/// building that variant, by its name.
proof fn lemma_contains_in(a: Seq<char>, b: Seq<char>, c: Seq<char>, p: int, t: Seq<char>)
    requires
        contains_at(b, p, t),
    ensures
        contains_at(a + b + c, a.len() + p, t),
{
    assert((a + b + c).subrange(a.len() + p, a.len() + p + t.len()) =~= b.subrange(p, p + t.len()));
}

proof fn lemma_contains_extend(x: Seq<char>, y: Seq<char>, p: int, t: Seq<char>)
    requires
        contains_at(x, p, t),
    ensures
        contains_at(x + y, p, t),
{
    assert((x + y).subrange(p, p + t.len()) =~= x.subrange(p, p + t.len()));
}

/// The arm for the index `i` among the decode arms.
#[verifier::rlimit(100)]
#[verifier::spinoff_prover]
proof fn lemma_decode_arms_contain(
    variants: Seq<(String, VariantShape, Vec<(String, FieldAttributes)>)>,
    krate: Seq<char>,
    order: Option<Seq<char>>,
    ctx: Seq<char>,
    borrow: bool,
    i: int,
    packing: bool,
)
    requires
        0 <= i < variants.len(),
    ensures
        contains_at(
            decode_arms(variants, variants.len() as int, krate, order, ctx, borrow, packing),
            decode_arms(variants, i, krate, order, ctx, borrow, packing).len() as int,
            decimal_nat(i as nat) + " => { "@ + variant_decode_arm(
                variants[i].2@,
                variants[i].0@,
                variants[i].1,
                krate,
                order,
                ctx,
                borrow,
                packing,
            ),
        ),
{
    let n = variants.len() as int;
    let v = variants[i];
    let t = decimal_nat(i as nat) + " => { "@ + variant_decode_arm(v.2@, v.0@, v.1, krate, order, ctx, borrow, packing);
    lemma_decode_arms_prefix(variants, i + 1, n, krate, order, ctx, borrow, packing);
    let ei = decode_arms(variants, i, krate, order, ctx, borrow, packing);
    let e1 = decode_arms(variants, i + 1, krate, order, ctx, borrow, packing);
    let en = decode_arms(variants, n, krate, order, ctx, borrow, packing);
    let close: Seq<char> = if packing { "}, "@ } else { "} "@ };
    let d = decimal_nat(i as nat) + " => { "@;
    let arm = variant_decode_arm(v.2@, v.0@, v.1, krate, order, ctx, borrow, packing);
    assert(e1 == ei + d + arm + close);
    lemma_regroup(ei, d, arm, close);
    lemma_contains_middle(ei, t, close);
    lemma_contains_extend(e1, en.skip(e1.len() as int), ei.len() as int, t);
}

proof fn lemma_regroup(a: Seq<char>, b: Seq<char>, c: Seq<char>, d: Seq<char>)
    ensures
        a + b + c + d == a + (b + c) + d,
{
    assert(a + b + c + d =~= a + (b + c) + d);
}

/// In the `decode` (or `borrow_decode`) body that the `BitPacked` derive writes for an enum, in
/// both branches (`packing`), the arm for the index `i` decodes the variant at position `i`.
#[verifier::rlimit(100)]
#[verifier::spinoff_prover]
pub proof fn lemma_enum_decode_arm_variant(
    variants: Seq<(String, VariantShape, Vec<(String, FieldAttributes)>)>,
    enum_name: Seq<char>,
    krate: Seq<char>,
    order: Option<Seq<char>>,
    ctx: Seq<char>,
    borrow: bool,
    discriminants: bool,
    i: int,
    packing: bool,
)
    requires
        0 <= i < variants.len(),
    ensures
        exists|p: int|
            #[trigger] contains_at(
                enum_decode_body(
                    variants,
                    enum_name,
                    krate,
                    order,
                    ctx,
                    borrow,
                    discriminants,
                    variant_index_bits(variants.len()) as u32,
                ),
                p,
                decimal_nat(i as nat) + " => { "@ + variant_decode_arm(
                    variants[i].2@,
                    variants[i].0@,
                    variants[i].1,
                    krate,
                    order,
                    ctx,
                    borrow,
                    packing,
                ),
            ),
{
    let n = variants.len() as int;
    let vb = variant_index_bits(variants.len()) as u32;
    let v = variants[i];
    let t = decimal_nat(i as nat) + " => { "@ + variant_decode_arm(v.2@, v.0@, v.1, krate, order, ctx, borrow, packing);
    lemma_decode_arms_contain(variants, krate, order, ctx, borrow, i, packing);
    let ei = decode_arms(variants, i, krate, order, ctx, borrow, packing);
    let body = enum_decode_body(variants, enum_name, krate, order, ctx, borrow, discriminants, vb);
    let invalid = invalid_variant_text(variants, enum_name, krate, discriminants);
    let on_head = "if "@ + krate + "::config::Config::bit_packing_enabled(decoder.config()) { "@ + "let mut __bit_state: (u8, u8) = (0, 0); "@
        + index_read_text(vb, krate, order) + "match variant_index { "@;
    let on_arms = decode_arms(variants, n, krate, order, ctx, borrow, true);
    let off_arms = decode_arms(variants, n, krate, order, ctx, borrow, false);
    let off_head = "let variant_index: u32 = "@ + krate + "::Decode::decode(decoder)?; match variant_index { "@;
    let mid = invalid + " } "@ + "} else { "@ + off_head;
    let end = invalid + " } "@ + "}"@;
    lemma_decode_body_parts(krate, index_read_text(vb, krate, order), on_arms, invalid, off_arms, body);
    if packing {
        lemma_contains_in(on_head, on_arms, mid + off_arms + end, ei.len() as int, t);
    } else {
        lemma_contains_in(on_head + on_arms + mid, off_arms, end, ei.len() as int, t);
    }
}

proof fn lemma_decode_body_parts(
    krate: Seq<char>,
    idx: Seq<char>,
    on_arms: Seq<char>,
    invalid: Seq<char>,
    off_arms: Seq<char>,
    body: Seq<char>,
)
    requires
        body == "if "@ + krate + "::config::Config::bit_packing_enabled(decoder.config()) { "@ + ("let mut __bit_state: (u8, u8) = (0, 0); "@
            + idx + "match variant_index { "@ + on_arms + invalid + " } "@) + "} else { "@ + ("let variant_index: u32 = "@ + krate
            + "::Decode::decode(decoder)?; match variant_index { "@ + off_arms + invalid + " } "@) + "}"@,
    ensures
        ({
            let on_head = "if "@ + krate + "::config::Config::bit_packing_enabled(decoder.config()) { "@
                + "let mut __bit_state: (u8, u8) = (0, 0); "@ + idx + "match variant_index { "@;
            let off_head = "let variant_index: u32 = "@ + krate + "::Decode::decode(decoder)?; match variant_index { "@;
            let mid = invalid + " } "@ + "} else { "@ + off_head;
            let end = invalid + " } "@ + "}"@;
            &&& body == on_head + on_arms + (mid + off_arms + end)
            &&& body == (on_head + on_arms + mid) + off_arms + end
        }),
{
    let on_head = "if "@ + krate + "::config::Config::bit_packing_enabled(decoder.config()) { "@ + "let mut __bit_state: (u8, u8) = (0, 0); "@
        + idx + "match variant_index { "@;
    let off_head = "let variant_index: u32 = "@ + krate + "::Decode::decode(decoder)?; match variant_index { "@;
    let mid = invalid + " } "@ + "} else { "@ + off_head;
    let end = invalid + " } "@ + "}"@;
    assert(body =~= on_head + on_arms + (mid + off_arms + end));
    assert(body =~= (on_head + on_arms + mid) + off_arms + end);
}

/// The arm of a variant in a derived `decode` body ends by building that variant, by its name.
pub proof fn lemma_variant_decode_arm_builds(
    fields: Seq<(String, FieldAttributes)>,
    name: Seq<char>,
    shape: VariantShape,
    krate: Seq<char>,
    order: Option<Seq<char>>,
    ctx: Seq<char>,
    borrow: bool,
    packing: bool,
)
    ensures
        exists|p: int|
            #[trigger] contains_at(
                variant_decode_arm(fields, name, shape, krate, order, ctx, borrow, packing),
                p,
                "core::result::Result::Ok(Self::"@ + name,
            ),
{
    let arm = variant_decode_arm(fields, name, shape, krate, order, ctx, borrow, packing);
    let value = variant_value_text(name, fields, shape);
    let lead = "core::result::Result::Ok(Self::"@ + name;
    let shape_part = match shape {
        VariantShape::Unit => Seq::<char>::empty(),
        VariantShape::Tuple => "("@ + tuple_items(fields, fields.len() as int) + ")"@,
        VariantShape::Named => " { "@ + initializers(fields, fields.len() as int) + "}"@,
    };
    assert(value =~= lead + (shape_part + ")"@));
    let before = if packing {
        declarations(fields, fields.len() as int) + arm_runs_text(fields, 0, krate, order, ctx, borrow)
    } else {
        declared_reads(fields, fields.len() as int, krate, ctx, borrow)
    };
    assert(arm =~= before + lead + (shape_part + ")"@));
    lemma_contains_middle(before, lead, shape_part + ")"@);
}

proof fn lemma_decimal_nat_shape(n: nat)
    ensures
        decimal_nat(n).len() >= 1,
        n < 10 <==> decimal_nat(n).len() == 1,
        decimal_nat(n).last() == digit_char(n % 10),
    decreases n,
{
    if n >= 10 {
        lemma_decimal_nat_shape(n / 10);
    }
}

proof fn lemma_digit_char_injective(a: nat, b: nat)
    requires
        a < 10,
        b < 10,
        digit_char(a) == digit_char(b),
    ensures
        a == b,
{
    let x = (a + 48) as u8;
    let y = (b + 48) as u8;
    assert(x as char == y as char);
    assert(x as u32 == (x as char) as u32);
    assert(y as u32 == (y as char) as u32);
}

/// Different numbers have different decimal texts: the variant indices that the derived bodies
/// write for different positions differ.
pub proof fn lemma_decimal_nat_injective(a: nat, b: nat)
    ensures
        decimal_nat(a) == decimal_nat(b) ==> a == b,
    decreases a + b,
{
    if decimal_nat(a) == decimal_nat(b) {
        lemma_decimal_nat_shape(a);
        lemma_decimal_nat_shape(b);
        lemma_digit_char_injective(a % 10, b % 10);
        if a >= 10 && b >= 10 {
            assert(decimal_nat(a / 10) =~= decimal_nat(a).drop_last());
            assert(decimal_nat(b / 10) =~= decimal_nat(b).drop_last());
            lemma_decimal_nat_injective(a / 10, b / 10);
        }
    }
}

} // verus!
