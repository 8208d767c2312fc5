use bincode_next::derive_input::attribute::{AttributeProblem, ReprAttributes};
use bincode_next::derive_input::bit_packed_text::VariantShape;
use bincode_next::derive_input::zero_copy_text::{
    zero_copy_builder_field_type, zero_copy_endian_type, zero_copy_enum_build_body,
    zero_copy_struct_build_body, zero_copy_tag_type,
};

fn s(t: &str) -> String {
    t.to_string()
}

#[test]
fn zero_copy_endianness_is_read_or_refused() {
    let k = s("bc");
    assert_eq!(zero_copy_endian_type(&k, None), Ok(s("bc::relative_ptr::NativeEndian")));
    assert_eq!(zero_copy_endian_type(&k, Some(&s("little"))), Ok(s("bc::relative_ptr::LittleEndian")));
    assert_eq!(zero_copy_endian_type(&k, Some(&s("big"))), Ok(s("bc::relative_ptr::BigEndian")));
    assert_eq!(zero_copy_endian_type(&k, Some(&s("native"))), Ok(s("bc::relative_ptr::NativeEndian")));
    assert_eq!(zero_copy_endian_type(&k, Some(&s("middle"))), Err(AttributeProblem::EndiannessExpected));
    assert_eq!(
        AttributeProblem::EndiannessExpected.message(),
        "Invalid endianness. Expected 'little', 'big', or 'native'"
    );
}

#[test]
fn zero_copy_tag_follows_the_repr() {
    let mut repr = ReprAttributes {
        is_c: false,
        is_transparent: false,
        is_u8: false,
        is_u16: false,
        is_u32: false,
        is_u64: false,
        is_i8: false,
        is_i16: false,
        is_i32: false,
        is_i64: false,
    };
    assert_eq!(zero_copy_tag_type(&repr), "u32");
    repr.is_i16 = true;
    assert_eq!(zero_copy_tag_type(&repr), "i16");
    repr.is_u8 = true;
    assert_eq!(zero_copy_tag_type(&repr), "u8");
    assert_eq!(
        zero_copy_builder_field_type(&s("u64"), &s("bc"), &s("E")),
        "<u64 as bc::relative_ptr::ZeroCopyType<E>>::Builder"
    );
}

#[test]
fn zero_copy_struct_bodies() {
    let names = vec![s("a"), s("b")];
    assert_eq!(
        zero_copy_struct_build_body(&s("P"), &names, false, &s("bc"), &s("E")),
        "P { a: bc::relative_ptr::ZeroCopyBuilder::<E, _ >::build_to_target(self.a, builder, offset + core::mem::offset_of!(Self::Target, a)), b: bc::relative_ptr::ZeroCopyBuilder::<E, _ >::build_to_target(self.b, builder, offset + core::mem::offset_of!(Self::Target, b)), }"
    );
    assert_eq!(
        zero_copy_struct_build_body(&s("T"), &vec![s("x")], true, &s("bc"), &s("E")),
        "T(bc::relative_ptr::ZeroCopyBuilder::<E, _ >::build_to_target(self.field_0, builder, offset + core::mem::offset_of!(Self::Target, 0)), )"
    );
}

#[test]
fn zero_copy_enum_bodies() {
    let variants = vec![
        (s("A"), VariantShape::Unit, vec![]),
        (s("B"), VariantShape::Tuple, vec![(s("0"), s("u16"))]),
    ];
    let body = zero_copy_enum_build_body(&variants, &s("En"), &s("bc"), &s("E"), &s("u8"));
    assert_eq!(
        body,
        "let data_offset = if core::mem::align_of::<Self::Target>() > core::mem::size_of::<u8>() { core::mem::align_of::<Self::Target>() } else { core::mem::size_of::<u8>() }; match self { Self::A => { let mut __target_val = En::A; builder.write::<u8>(offset, &((0 as u32) as u8)); __target_val }, Self::B(__field_0, ) => { let mut __target_val = En::B({ #[repr(C)] struct __VariantFields (u16, ); bc::relative_ptr::ZeroCopyBuilder::<E, _ >::build_to_target(__field_0, builder, offset + data_offset + core::mem::offset_of!(__VariantFields, 0)) }, ); builder.write::<u8>(offset, &((1 as u32) as u8)); __target_val }, }"
    );
    let named = vec![(s("C"), VariantShape::Named, vec![(s("x"), s("u32"))])];
    let body = zero_copy_enum_build_body(&named, &s("En"), &s("bc"), &s("E"), &s("u32"));
    assert!(body.contains("Self::C { x, } => { let mut __target_val = En::C { x: { #[repr(C)] struct __VariantFields { x: u32, }; bc::relative_ptr::ZeroCopyBuilder::<E, _ >::build_to_target(x, builder, offset + data_offset + core::mem::offset_of!(__VariantFields, x)) }, }; builder.write::<u32>(offset, &((0 as u32) as u32)); __target_val }, "));
}
