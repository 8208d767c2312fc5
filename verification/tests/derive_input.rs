use bincode_next::config::standard;
use bincode_next::enc::bit_writer::BitWriter;
use bincode_next::derive_input::attribute::{
    AttributeItem, AttributeProblem, ContainerAttributes, FieldAttributes, ReprAttributes,
};
use bincode_next::derive_input::bit_packed_text::{
    bit_packed_decode_body, bit_packed_encode_body, bit_packed_enum_decode_body,
    bit_packed_enum_encode_body, bit_packed_variant_decode_arm, bit_packed_variant_encode_body,
    VariantShape,
};
use bincode_next::derive_input::layout::{packing_runs, variant_bits};
use bincode_next::derive_input::size_expr::{
    compute_static_size_expr, const_max_expr, fields_sum_expr,
};

fn tag(name: &str) -> AttributeItem {
    AttributeItem::Tag(name.to_string())
}

fn prop(key: &str, val: &str) -> AttributeItem {
    AttributeItem::Property(key.to_string(), val.to_string())
}

fn container_problem(items: Vec<AttributeItem>) -> (AttributeProblem, String) {
    match ContainerAttributes::parse(Some(&items)) {
        Err(e) => (e.problem, e.at),
        Ok(a) => panic!("expected a refusal, got {a:?}"),
    }
}

fn field_problem(
    bincode: Option<Vec<AttributeItem>>,
    static_size: Option<Vec<AttributeItem>>,
) -> (AttributeProblem, String) {
    match FieldAttributes::parse(bincode.as_ref(), static_size.as_ref()) {
        Err(e) => (e.problem, e.at),
        Ok(a) => panic!("expected a refusal, got {a:?}"),
    }
}

#[test]
fn container_without_bincode_attribute_reads_nothing() {
    assert!(ContainerAttributes::parse(None).unwrap().is_none());
    let empty: Vec<AttributeItem> = vec![];
    let a = ContainerAttributes::parse(Some(&empty)).unwrap().unwrap();
    assert_eq!(a.crate_name, "::bincode_next");
    assert!(a.bounds.is_none());
    assert!(a.align.is_none());
    assert!(a.bit_packing.is_none());
    assert_eq!(ContainerAttributes::default().crate_name, "::bincode_next");
}

#[test]
fn container_properties_are_read_in_order() {
    let items = vec![
        prop("crate", "\"my_crate\""),
        prop("bounds", "\"T: Clone\""),
        prop("decode_context", "\"Ctx\""),
        prop("align", "\"16\""),
        prop("bit_packing", "\"msb\""),
        prop("crate", "\"other\""),
        AttributeItem::Other,
    ];
    let a = ContainerAttributes::parse(Some(&items)).unwrap().unwrap();
    assert_eq!(a.crate_name, "other");
    assert_eq!(a.bounds, Some(("T: Clone".to_string(), "\"T: Clone\"".to_string())));
    assert_eq!(a.decode_context, Some(("Ctx".to_string(), "\"Ctx\"".to_string())));
    assert_eq!(a.align, Some((16, "\"16\"".to_string())));
    assert_eq!(a.bit_packing, Some(("msb".to_string(), "\"msb\"".to_string())));
    assert!(a.decode_bounds.is_none());
    assert!(a.endian.is_none());

    let items = vec![
        prop("encode_bounds", "\"T: A\""),
        prop("decode_bounds", "\"T: B\""),
        prop("borrow_decode_bounds", "\"T: C\""),
        prop("align", "\"+8\""),
        prop("bit_packing", "\"lsb\""),
    ];
    let a = ContainerAttributes::parse(Some(&items)).unwrap().unwrap();
    assert_eq!(a.encode_bounds.unwrap().0, "T: A");
    assert_eq!(a.decode_bounds.unwrap().0, "T: B");
    assert_eq!(a.borrow_decode_bounds.unwrap().0, "T: C");
    assert_eq!(a.align.unwrap().0, 8);
    assert_eq!(a.bit_packing.unwrap().0, "lsb");
}

#[test]
fn container_refusals_point_at_the_offending_token() {
    assert_eq!(
        container_problem(vec![prop("crate", "my_crate")]),
        (AttributeProblem::LiteralStrExpected, "my_crate".to_string())
    );
    assert_eq!(
        container_problem(vec![prop("align", "\"sixteen\"")]),
        (AttributeProblem::UsizeExpected, "\"sixteen\"".to_string())
    );
    assert_eq!(
        container_problem(vec![prop("align", "\"-1\"")]),
        (AttributeProblem::UsizeExpected, "\"-1\"".to_string())
    );
    assert_eq!(
        container_problem(vec![prop("align", "\"99999999999999999999999\"")]),
        (AttributeProblem::UsizeExpected, "\"99999999999999999999999\"".to_string())
    );
    assert_eq!(
        container_problem(vec![prop("bit_packing", "\"middle\"")]),
        (AttributeProblem::BitOrderExpected, "\"middle\"".to_string())
    );
    assert_eq!(
        container_problem(vec![prop("crate", "\"a\""), prop("colour", "\"red\"")]),
        (AttributeProblem::UnknownFieldAttribute, "colour".to_string())
    );
    assert_eq!(
        container_problem(vec![tag("transparent"), prop("crate", "oops")]),
        (AttributeProblem::UnknownFieldAttribute, "transparent".to_string())
    );
    assert_eq!(AttributeProblem::LiteralStrExpected.message(), "Should be a literal str");
    assert_eq!(AttributeProblem::BitOrderExpected.message(), "Should be \"msb\" or \"lsb\"");
}

#[test]
fn field_attributes_read_both_lists() {
    assert!(FieldAttributes::parse(None, None).unwrap().is_none());
    let bincode = vec![tag("with_serde"), prop("bits", "5")];
    let a = FieldAttributes::parse(Some(&bincode), None).unwrap().unwrap();
    assert!(a.with_serde);
    assert_eq!(a.bits, Some(5));
    assert!(!a.static_size_skip);

    let static_size = vec![tag("skip"), prop("custom", "\"4 + 4\"")];
    let a = FieldAttributes::parse(None, Some(&static_size)).unwrap().unwrap();
    assert!(!a.with_serde);
    assert!(a.static_size_skip);
    assert_eq!(a.static_size_custom, Some("4 + 4".to_string()));

    let empty: Vec<AttributeItem> = vec![];
    let a = FieldAttributes::parse(Some(&empty), None).unwrap().unwrap();
    assert!(a.bits.is_none());
    let a = FieldAttributes::parse(Some(&vec![prop("bits", "64")]), None).unwrap().unwrap();
    assert_eq!(a.bits, Some(64));
}

#[test]
fn field_attribute_refusals() {
    for bad in ["0", "65", "300", "x", "0x10"] {
        assert_eq!(
            field_problem(Some(vec![prop("bits", bad)]), None),
            (AttributeProblem::BitWidthExpected, bad.to_string())
        );
    }
    assert_eq!(
        field_problem(Some(vec![tag("flatten")]), None),
        (AttributeProblem::UnknownFieldAttribute, "flatten".to_string())
    );
    assert_eq!(
        field_problem(Some(vec![prop("width", "3")]), None),
        (AttributeProblem::UnknownFieldAttribute, "width".to_string())
    );
    assert_eq!(
        field_problem(None, Some(vec![tag("ignore")])),
        (AttributeProblem::UnknownStaticSizeAttribute, "ignore".to_string())
    );
    assert_eq!(
        field_problem(None, Some(vec![prop("custom", "8")])),
        (AttributeProblem::LiteralStrExpected, "8".to_string())
    );
    // the first list is read before the second
    assert_eq!(
        field_problem(Some(vec![tag("nope")]), Some(vec![tag("ignore")])),
        (AttributeProblem::UnknownFieldAttribute, "nope".to_string())
    );
}

#[test]
fn repr_attributes_need_a_known_tag() {
    assert_eq!(ReprAttributes::parse(None), None);
    let r = ReprAttributes::parse(Some(&vec![tag("C"), tag("u8")])).unwrap();
    assert!(r.is_c && r.is_u8 && !r.is_transparent && !r.is_u16);
    let r = ReprAttributes::parse(Some(&vec![tag("transparent"), tag("align")])).unwrap();
    assert!(r.is_transparent && !r.is_c);
    let r = ReprAttributes::parse(Some(&vec![tag("i64")])).unwrap();
    assert!(r.is_i64);
    assert_eq!(ReprAttributes::parse(Some(&vec![tag("packed"), prop("align", "8")])), None);
}

#[test]
fn variant_index_widths() {
    let expected = [(0u32, 0u32), (1, 0), (2, 1), (3, 2), (4, 2), (5, 3), (8, 3), (9, 4), (256, 8), (257, 9)];
    for (count, bits) in expected {
        assert_eq!(variant_bits(count), bits, "variants: {count}");
    }
    assert_eq!(variant_bits(u32::MAX), 32);
}

#[test]
fn packed_fields_fall_into_runs() {
    assert_eq!(packing_runs(&vec![]), vec![]);
    assert_eq!(
        packing_runs(&vec![true, true, false, true, false, false]),
        vec![(true, 2), (false, 1), (true, 1), (false, 2)]
    );
    assert_eq!(packing_runs(&vec![false; 3]), vec![(false, 3)]);
}

#[test]
fn static_size_expressions() {
    let crate_name = "::bincode_next".to_string();
    let mut skipped = FieldAttributes::default();
    skipped.static_size_skip = true;
    let mut custom = FieldAttributes::default();
    custom.static_size_custom = Some("10".to_string());
    let fields = vec![
        ("u32".to_string(), FieldAttributes::default()),
        ("Vec<u8>".to_string(), skipped),
        ("Foo".to_string(), custom),
    ];
    assert_eq!(
        fields_sum_expr(&fields, &crate_name),
        "<u32 as ::bincode_next::StaticSize>::MAX_SIZE + 10"
    );
    assert_eq!(fields_sum_expr(&vec![], &crate_name), "0");

    assert_eq!(const_max_expr(&vec![]), "0");
    assert_eq!(const_max_expr(&vec!["a".to_string()]), "a");
    assert_eq!(
        const_max_expr(&vec!["a".to_string(), "b".to_string(), "c".to_string()]),
        "{ const __A: usize = { const __A: usize = a; const __B: usize = b; if __A > __B { __A } else { __B } }; \
         const __B: usize = c; if __A > __B { __A } else { __B } }"
    );

    assert_eq!(compute_static_size_expr(None, Some(&vec![]), &crate_name), "5");
    let variants = vec![None, Some(vec![("u16".to_string(), FieldAttributes::default())])];
    assert_eq!(
        compute_static_size_expr(None, Some(&variants), &crate_name),
        "5 + { const __A: usize = 0; const __B: usize = <u16 as ::bincode_next::StaticSize>::MAX_SIZE; \
         if __A > __B { __A } else { __B } }"
    );
    assert_eq!(
        compute_static_size_expr(Some(&fields), None, &crate_name),
        "<u32 as ::bincode_next::StaticSize>::MAX_SIZE + 10"
    );
    assert_eq!(compute_static_size_expr(None, None, &crate_name), "0");
}

#[test]
fn packed_three_and_five_bit_fields_take_one_byte() {
    // `#[bincode(bits = 3)] a` and `#[bincode(bits = 5)] b` form one run of packed fields
    let a = FieldAttributes::parse(Some(&vec![prop("bits", "3")]), None).unwrap().unwrap();
    let b = FieldAttributes::parse(Some(&vec![prop("bits", "5")]), None).unwrap().unwrap();
    let runs = packing_runs(&vec![a.bits.is_some(), b.bits.is_some()]);
    assert_eq!(runs, vec![(true, 2)]);

    let config = standard().with_bit_packing();
    let mut writer = BitWriter::new(Vec::<u8>::new());
    writer.write_bits(7, a.bits.unwrap(), &config).unwrap();
    writer.write_bits(31, b.bits.unwrap(), &config).unwrap();
    writer.flush().unwrap();
    assert_eq!(writer.into_inner().len(), 1);
}

fn field(name: &str, bits: Option<u8>, with_serde: bool) -> (String, FieldAttributes) {
    let mut attrs = FieldAttributes::default();
    attrs.bits = bits;
    attrs.with_serde = with_serde;
    (name.to_string(), attrs)
}

fn packed_write(k: &str, f: &str, b: u8, order: Option<&str>) -> String {
    let write = match order {
        Some(o) => format!("bit_writer.write_bits_{o}((self.{f}) as u64, {b})?; "),
        None => format!("bit_writer.write_bits((self.{f}) as u64, {b}, &__config)?; "),
    };
    format!(
        "{{ fn check_width<const B: u8, T: {k}::utils::BitPackedCheck<B>>(_: &T) {{ let _ = <T as {k}::utils::BitPackedCheck<B>>::CHECK; }} check_width::<{b}, _>(&self.{f}); }} if (self.{f} as u128) >= (1u128 << {b}) {{ return {k}::error::cold_encode_error_other(\"Value exceeds bit-packed width\"); }} {write}"
    )
}

#[test]
fn bit_packed_encode_body_for_the_readme_struct() {
    let k = "::bincode_next";
    let fields = vec![field("a", Some(3), false), field("b", Some(5), false)];
    let body = bit_packed_encode_body(&fields, &k.to_string(), None);
    let expected = format!(
        "if {k}::config::Config::bit_packing_enabled(encoder.config()) {{ let __config = *encoder.config(); let mut bit_writer = {k}::enc::bit_writer::BitWriter::new({k}::enc::Encoder::writer(encoder)); {}{}bit_writer.flush()?; }} else {{ {k}::Encode::encode(&self.a, encoder)?; {k}::Encode::encode(&self.b, encoder)?; }} core::result::Result::Ok(())",
        packed_write(k, "a", 3, None),
        packed_write(k, "b", 5, None),
    );
    assert_eq!(body, expected);
}

#[test]
fn bit_packed_encode_body_with_runs_and_an_order() {
    let k = "c";
    let fields = vec![field("x", None, false), field("y", Some(12), false), field("z", None, true)];
    let body = bit_packed_encode_body(&fields, &k.to_string(), Some(&"msb".to_string()));
    let expected = format!(
        "c::Encode::encode(&self.x, encoder)?; if c::config::Config::bit_packing_enabled(encoder.config()) {{ let __config = *encoder.config(); let mut bit_writer = c::enc::bit_writer::BitWriter::new(c::enc::Encoder::writer(encoder)); {}bit_writer.flush()?; }} else {{ c::Encode::encode(&self.y, encoder)?; }} c::Encode::encode(&c::serde::Compat(&self.z), encoder)?; core::result::Result::Ok(())",
        packed_write(k, "y", 12, Some("msb")),
    );
    assert_eq!(body, expected);
    assert_eq!(bit_packed_encode_body(&vec![], &k.to_string(), None), "core::result::Result::Ok(())");
}

#[test]
fn bit_packed_decode_bodies() {
    let k = "c";
    let fields = vec![field("a", Some(3), false), field("s", None, true)];
    let owned = bit_packed_decode_body(&fields, &k.to_string(), Some(&"lsb".to_string()), &"__Context".to_string(), false);
    let expected = "let mut __a; let mut __s; if c::config::Config::bit_packing_enabled(decoder.config()) { let __config = *decoder.config(); let mut bit_reader = c::de::bit_reader::BitReader::new(c::de::Decoder::reader(decoder)); __a = <_ as c::de::bit_reader::Unpackable>::unpack(bit_reader.read_bits_lsb(3)?); { fn check_width<const B: u8, T: c::utils::BitPackedCheck<B>>(_: &T) { let _ = <T as c::utils::BitPackedCheck<B>>::CHECK; } check_width::<3, _>(&__a); } } else { __a = c::Decode::decode(decoder)?; } __s = (<c::serde::Compat<_> as c::Decode::<__Context>>::decode(decoder)?).0; core::result::Result::Ok(Self { a: __a, s: __s, })";
    assert_eq!(owned, expected);
    let fields = vec![field("n", None, false)];
    let borrowed = bit_packed_decode_body(&fields, &k.to_string(), None, &"Ctx".to_string(), true);
    assert_eq!(
        borrowed,
        "let mut __n; __n = c::BorrowDecode::borrow_decode(decoder)?; core::result::Result::Ok(Self { n: __n, })"
    );
}

#[test]
fn bit_packed_variant_encode_bodies() {
    let k = "c";
    let flush = "if __bit_state.1 > 0 { let mut bit_writer = c::enc::bit_writer::BitWriter::from_state(c::enc::Encoder::writer(encoder), __bit_state.0, __bit_state.1); bit_writer.flush()?; } ";
    let open = "{ let __config = *encoder.config(); let mut bit_writer = c::enc::bit_writer::BitWriter::from_state(c::enc::Encoder::writer(encoder), __bit_state.0, __bit_state.1); ";
    let check = "{ fn check_width<const B: u8, T: c::utils::BitPackedCheck<B>>(_: &T) { let _ = <T as c::utils::BitPackedCheck<B>>::CHECK; } check_width::<4, _>(field_0); } if ((*(field_0)) as u128) >= (1u128 << 4) { return c::error::cold_encode_error_other(\"Value exceeds bit-packed width\"); } ";
    let fields = vec![field("field_0", Some(4), false), field("field_1", None, false)];
    let body = bit_packed_variant_encode_body(&fields, 12, 2, &k.to_string(), None);
    let expected = format!(
        "if c::config::Config::bit_packing_enabled(encoder.config()) {{ let mut __bit_state: (u8, u8) = (0, 0); {open}bit_writer.write_bits(12 as u64, 2, &__config)?; {check}bit_writer.write_bits((*(field_0)) as u64, 4, &__config)?; __bit_state = bit_writer.get_state(); }} {flush}__bit_state = (0, 0); c::Encode::encode(field_1, encoder)?; {flush}core::result::Result::Ok(()) }} else {{ <u32 as c::Encode>::encode(&( 12 as u32), encoder)?; c::Encode::encode(field_0, encoder)?; c::Encode::encode(field_1, encoder)?; core::result::Result::Ok(()) }}"
    );
    assert_eq!(body, expected);
    let unit = bit_packed_variant_encode_body(&vec![], 0, 0, &k.to_string(), Some(&"lsb".to_string()));
    assert_eq!(
        unit,
        format!("if c::config::Config::bit_packing_enabled(encoder.config()) {{ let mut __bit_state: (u8, u8) = (0, 0); {flush}core::result::Result::Ok(()) }} else {{ <u32 as c::Encode>::encode(&( 0 as u32), encoder)?; core::result::Result::Ok(()) }}")
    );
}

#[test]
fn bit_packed_variant_decode_arms() {
    let k = "c".to_string();
    let ctx = "__Context".to_string();
    let fields = vec![field("field_0", Some(3), false), field("field_1", None, false)];
    let check = "{ fn check_width<const B: u8, T: c::utils::BitPackedCheck<B>>(_: &T) { let _ = <T as c::utils::BitPackedCheck<B>>::CHECK; } check_width::<3, _>(&__field_0); } ";
    let packed = bit_packed_variant_decode_arm(&fields, &"B".to_string(), &VariantShape::Tuple, &k, None, &ctx, false, true);
    assert_eq!(
        packed,
        format!("let mut __field_0; let mut __field_1; {{ let __config = *decoder.config(); let mut bit_reader = c::de::bit_reader::BitReader::from_state(c::de::Decoder::reader(decoder), __bit_state.0, __bit_state.1); __field_0 = <_ as c::de::bit_reader::Unpackable>::unpack(bit_reader.read_bits(3, &__config)?); {check}__bit_state = bit_reader.get_state(); }} __bit_state = (0, 0); __field_1 = c::Decode::decode(decoder)?; core::result::Result::Ok(Self::B(__field_0, __field_1, ))")
    );
    let plain = bit_packed_variant_decode_arm(&fields, &"B".to_string(), &VariantShape::Named, &k, None, &ctx, true, false);
    assert_eq!(
        plain,
        "let mut __field_0; __field_0 = c::BorrowDecode::borrow_decode(decoder)?; let mut __field_1; __field_1 = c::BorrowDecode::borrow_decode(decoder)?; core::result::Result::Ok(Self::B { field_0: __field_0, field_1: __field_1, })"
    );
    let unit = bit_packed_variant_decode_arm(&vec![], &"A".to_string(), &VariantShape::Unit, &k, None, &ctx, false, true);
    assert_eq!(unit, "core::result::Result::Ok(Self::A)");
}

#[test]
fn bit_packed_enum_decode_bodies() {
    let k = "c".to_string();
    let ctx = "__Context".to_string();
    let none = bit_packed_enum_decode_body(&vec![], &"E".to_string(), &k, None, &ctx, false, false);
    assert_eq!(
        none,
        "if c::config::Config::bit_packing_enabled(decoder.config()) { c::error::cold_decode_error_empty_enum(core::any::type_name::<Self>()) } else { c::error::cold_decode_error_empty_enum(core::any::type_name::<Self>()) }"
    );
    let variants = vec![
        ("A".to_string(), VariantShape::Unit, vec![]),
        ("B".to_string(), VariantShape::Tuple, vec![field("field_0", None, false)]),
    ];
    let body = bit_packed_enum_decode_body(&variants, &"E".to_string(), &k, Some(&"msb".to_string()), &ctx, false, false);
    assert_eq!(
        body,
        "if c::config::Config::bit_packing_enabled(decoder.config()) { let mut __bit_state: (u8, u8) = (0, 0); let variant_index = { let __config = *decoder.config(); let mut bit_reader = c::de::bit_reader::BitReader::from_state(c::de::Decoder::reader(decoder), __bit_state.0, __bit_state.1); let variant_index = <u32 as c::de::bit_reader::Unpackable>::unpack(bit_reader.read_bits_msb(1)?); __bit_state = bit_reader.get_state(); core::result::Result::Ok(variant_index) }?; match variant_index { 0 => { core::result::Result::Ok(Self::A)}, 1 => { let mut __field_0; __bit_state = (0, 0); __field_0 = c::Decode::decode(decoder)?; core::result::Result::Ok(Self::B(__field_0, ))}, variant => c::error::cold_decode_error_unexpected_variant(\"E\", &c::error::AllowedEnumVariants::Range { min: 0, max: 1 }, variant) } } else { let variant_index: u32 = c::Decode::decode(decoder)?; match variant_index { 0 => { core::result::Result::Ok(Self::A)} 1 => { let mut __field_0; __field_0 = c::Decode::decode(decoder)?; core::result::Result::Ok(Self::B(__field_0, ))} variant => c::error::cold_decode_error_unexpected_variant(\"E\", &c::error::AllowedEnumVariants::Range { min: 0, max: 1 }, variant) } }"
    );
    let named = bit_packed_enum_decode_body(&variants, &"E".to_string(), &k, None, &ctx, true, true);
    assert!(named.contains("&c::error::AllowedEnumVariants::Allowed(&[A, B])"));
}

#[test]
fn bit_packed_enum_encode_bodies() {
    let k = "c".to_string();
    assert_eq!(bit_packed_enum_encode_body(&vec![], &k, None), "match self { _ => core::unreachable!(), }");
    let variants = vec![("A".to_string(), VariantShape::Named, vec![field("x", None, false), field("y", None, false)])];
    let body = bit_packed_enum_encode_body(&variants, &k, None);
    let flush = "if __bit_state.1 > 0 { let mut bit_writer = c::enc::bit_writer::BitWriter::from_state(c::enc::Encoder::writer(encoder), __bit_state.0, __bit_state.1); bit_writer.flush()?; } ";
    assert_eq!(
        body,
        format!("match self {{ Self::A {{ x, y }} => {{ if c::config::Config::bit_packing_enabled(encoder.config()) {{ let mut __bit_state: (u8, u8) = (0, 0); {flush}__bit_state = (0, 0); c::Encode::encode(x, encoder)?; c::Encode::encode(y, encoder)?; {flush}core::result::Result::Ok(()) }} else {{ <u32 as c::Encode>::encode(&( 0 as u32), encoder)?; c::Encode::encode(x, encoder)?; c::Encode::encode(y, encoder)?; core::result::Result::Ok(()) }}}}, }}")
    );
}
