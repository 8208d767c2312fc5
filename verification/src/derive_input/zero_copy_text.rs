//! The code text of the builder that the `ZeroCopy` derive writes for a type: the byte order its
//! fields take, the integer type of an enum's tag, the builder's field types, and the body of
//! `build_to_target`, which builds each field in place at its offset.
use crate::derive_input::attribute::{no_repr, repr_tag, AttributeProblem, ReprAttributes};
use crate::derive_input::bit_packed_text::{decimal_nat, decimal_usize, order_model, VariantShape};
use crate::derive_input::text::text_is;
use vstd::prelude::*;
use vstd::string::StringExecFns;

verus! {

/// The byte-order type that the `endian` attribute (if any) names, or `None` where it names none
/// that the derive knows.
pub open spec fn endian_type_text(krate: Seq<char>, endian: Option<Seq<char>>) -> Option<Seq<char>> {
    match endian {
        None => Some(krate + "::relative_ptr::NativeEndian"@),
        Some(e) => if e == "little"@ {
            Some(krate + "::relative_ptr::LittleEndian"@)
        } else if e == "big"@ {
            Some(krate + "::relative_ptr::BigEndian"@)
        } else if e == "native"@ {
            Some(krate + "::relative_ptr::NativeEndian"@)
        } else {
            None
        },
    }
}

/// The byte-order type of a zero-copy layout, naming this crate `crate_name`, from the container's
/// `endian` attribute: native where there is none; an endianness the derive does not know is
/// refused.
pub fn zero_copy_endian_type(crate_name: &String, endian: Option<&String>) -> (r: Result<String, AttributeProblem>)
    ensures
        match endian_type_text(crate_name@, order_model(endian)) {
            Some(t) => r matches Ok(s) && s@ == t,
            None => r == Err::<String, AttributeProblem>(AttributeProblem::EndiannessExpected),
        },
{
    let name = match endian {
        None => "::relative_ptr::NativeEndian",
        Some(e) => if text_is(e, "little") {
            "::relative_ptr::LittleEndian"
        } else if text_is(e, "big") {
            "::relative_ptr::BigEndian"
        } else if text_is(e, "native") {
            "::relative_ptr::NativeEndian"
        } else {
            return Err(AttributeProblem::EndiannessExpected);
        },
    };
    let mut s = crate_name.clone();
    s.append(name);
    Ok(s)
}

/// The integer type of an enum's tag: the one its `#[repr(..)]` names, else `u32`.
pub open spec fn tag_type_text(r: ReprAttributes) -> Seq<char> {
    if r.is_u8 {
        "u8"@
    } else if r.is_u16 {
        "u16"@
    } else if r.is_u32 {
        "u32"@
    } else if r.is_u64 {
        "u64"@
    } else if r.is_i8 {
        "i8"@
    } else if r.is_i16 {
        "i16"@
    } else if r.is_i32 {
        "i32"@
    } else if r.is_i64 {
        "i64"@
    } else {
        "u32"@
    }
}

/// The tag of a zero-copy enum is written in the integer type that its `#[repr(..)]` names: a
/// repr of one integer type gives that type, a repr of none (or of `C` or `transparent` alone)
/// gives `u32`, and where several are named the first of `u8`, `u16`, `u32`, `u64`, `i8`, `i16`,
/// `i32`, `i64` wins.
pub proof fn lemma_tag_type_names_the_repr(name: Seq<char>, r: ReprAttributes)
    ensures
        name == "u8"@ || name == "u16"@ || name == "u32"@ || name == "u64"@ || name == "i8"@ || name == "i16"@
            || name == "i32"@ || name == "i64"@ ==> repr_tag(no_repr(), name) is Some && tag_type_text(
            repr_tag(no_repr(), name)->Some_0,
        ) == name,
        name == "C"@ || name == "transparent"@ ==> repr_tag(no_repr(), name) is Some && tag_type_text(
            repr_tag(no_repr(), name)->Some_0,
        ) == "u32"@,
        tag_type_text(no_repr()) == "u32"@,
        r.is_u8 ==> tag_type_text(r) == "u8"@,
        !r.is_u8 && r.is_u16 ==> tag_type_text(r) == "u16"@,
        !r.is_u8 && !r.is_u16 && r.is_u32 ==> tag_type_text(r) == "u32"@,
        !r.is_u8 && !r.is_u16 && !r.is_u32 && r.is_u64 ==> tag_type_text(r) == "u64"@,
        !r.is_u8 && !r.is_u16 && !r.is_u32 && !r.is_u64 && r.is_i8 ==> tag_type_text(r) == "i8"@,
        !r.is_u8 && !r.is_u16 && !r.is_u32 && !r.is_u64 && !r.is_i8 && r.is_i16 ==> tag_type_text(r) == "i16"@,
        !r.is_u8 && !r.is_u16 && !r.is_u32 && !r.is_u64 && !r.is_i8 && !r.is_i16 && r.is_i32 ==> tag_type_text(r)
            == "i32"@,
        !r.is_u8 && !r.is_u16 && !r.is_u32 && !r.is_u64 && !r.is_i8 && !r.is_i16 && !r.is_i32 && r.is_i64
            ==> tag_type_text(r) == "i64"@,
{
    reveal_strlit("C");
    reveal_strlit("transparent");
    reveal_strlit("u8");
    reveal_strlit("u16");
    reveal_strlit("u32");
    reveal_strlit("u64");
    reveal_strlit("i8");
    reveal_strlit("i16");
    reveal_strlit("i32");
    reveal_strlit("i64");
}

/// The integer type in which a zero-copy enum with the `#[repr(..)]` `repr` writes its tag.
pub fn zero_copy_tag_type(repr: &ReprAttributes) -> (r: String)
    ensures
        r@ == tag_type_text(*repr),
{
    if repr.is_u8 {
        String::from_str("u8")
    } else if repr.is_u16 {
        String::from_str("u16")
    } else if repr.is_u32 {
        String::from_str("u32")
    } else if repr.is_u64 {
        String::from_str("u64")
    } else if repr.is_i8 {
        String::from_str("i8")
    } else if repr.is_i16 {
        String::from_str("i16")
    } else if repr.is_i32 {
        String::from_str("i32")
    } else if repr.is_i64 {
        String::from_str("i64")
    } else {
        String::from_str("u32")
    }
}

/// The type of the builder's field for a field of type `ty`.
pub open spec fn builder_field_type_text(ty: Seq<char>, krate: Seq<char>, endian: Seq<char>) -> Seq<char> {
    "<"@ + ty + " as "@ + krate + "::relative_ptr::ZeroCopyType<"@ + endian + ">>::Builder"@
}

/// The type of the builder's field for a field of type `field_type`, naming this crate
/// `crate_name`, in the byte order `endian_type`.
pub fn zero_copy_builder_field_type(field_type: &String, crate_name: &String, endian_type: &String) -> (r: String)
    ensures
        r@ == builder_field_type_text(field_type@, crate_name@, endian_type@),
{
    let mut s = String::from_str("<");
    s.append(field_type.as_str());
    s.append(" as ");
    s.append(crate_name.as_str());
    s.append("::relative_ptr::ZeroCopyType<");
    s.append(endian_type.as_str());
    s.append(">>::Builder");
    s
}

/// The call that builds `value` in place, at `base` plus the offset of `field` in `container`.
pub open spec fn build_call_text(
    krate: Seq<char>,
    endian: Seq<char>,
    value: Seq<char>,
    base: Seq<char>,
    container: Seq<char>,
    field: Seq<char>,
) -> Seq<char> {
    krate + "::relative_ptr::ZeroCopyBuilder::<"@ + endian + ", _ >::build_to_target("@ + value + ", builder, "@ + base
        + "core::mem::offset_of!("@ + container + ", "@ + field + "))"@
}

fn build_call(krate: &String, endian: &String, value: &String, base: &str, container: &str, field: &String) -> (s: String)
    ensures
        s@ == build_call_text(krate@, endian@, value@, base@, container@, field@),
{
    let mut s = krate.clone();
    s.append("::relative_ptr::ZeroCopyBuilder::<");
    s.append(endian.as_str());
    s.append(", _ >::build_to_target(");
    s.append(value.as_str());
    s.append(", builder, ");
    s.append(base);
    s.append("core::mem::offset_of!(");
    s.append(container);
    s.append(", ");
    s.append(field.as_str());
    s.append("))");
    s
}

/// The initializers of the fields `0..j` of a struct's target, each built from the builder's own
/// field: by position (`field_i`) where `tuple` holds, else by name.
pub open spec fn struct_build_items(
    names: Seq<String>,
    j: int,
    tuple: bool,
    krate: Seq<char>,
    endian: Seq<char>,
) -> Seq<char>
    decreases j,
{
    if j <= 0 {
        Seq::empty()
    } else {
        let i = decimal_nat((j - 1) as nat);
        let n = names[j - 1]@;
        struct_build_items(names, j - 1, tuple, krate, endian) + (if tuple {
            build_call_text(krate, endian, "self.field_"@ + i, "offset + "@, "Self::Target"@, i)
        } else {
            n + ": "@ + build_call_text(krate, endian, "self."@ + n, "offset + "@, "Self::Target"@, n)
        }) + ", "@
    }
}

/// The body of `build_to_target` for a struct named `target`.
pub open spec fn struct_build_body(
    target: Seq<char>,
    names: Seq<String>,
    tuple: bool,
    krate: Seq<char>,
    endian: Seq<char>,
) -> Seq<char> {
    target + (if tuple { "("@ } else { " { "@ }) + struct_build_items(names, names.len() as int, tuple, krate, endian) + (
    if tuple {
        ")"@
    } else {
        "}"@
    })
}

/// The body of the `build_to_target` function that the `ZeroCopy` derive writes for the builder
/// of the struct `target_name` with the fields `field_names` (their number alone counts where
/// `tuple` holds), naming this crate `crate_name`, in the byte order `endian_type`.
pub fn zero_copy_struct_build_body(
    target_name: &String,
    field_names: &Vec<String>,
    tuple: bool,
    crate_name: &String,
    endian_type: &String,
) -> (r: String)
    ensures
        r@ == struct_build_body(target_name@, field_names@, tuple, crate_name@, endian_type@),
{
    let mut items = String::new();
    let mut j: usize = 0;
    while j < field_names.len()
        invariant
            j <= field_names@.len(),
            items@ == struct_build_items(field_names@, j as int, tuple, crate_name@, endian_type@),
        decreases field_names@.len() - j,
    {
        let item = if tuple {
            let i = decimal_usize(j);
            let mut value = String::from_str("self.field_");
            value.append(i.as_str());
            build_call(crate_name, endian_type, &value, "offset + ", "Self::Target", &i)
        } else {
            let n = &field_names[j];
            let mut value = String::from_str("self.");
            value.append(n.as_str());
            let call = build_call(crate_name, endian_type, &value, "offset + ", "Self::Target", n);
            let mut t = n.clone();
            t.append(": ");
            t.append(call.as_str());
            t
        };
        items.append(item.as_str());
        items.append(", ");
        j = j + 1;
    }
    let mut r = target_name.clone();
    if tuple {
        r.append("(");
    } else {
        r.append(" { ");
    }
    r.append(items.as_str());
    if tuple {
        r.append(")");
    } else {
        r.append("}");
    }
    r
}

/// The fields `0..j` of a variant as the `#[repr(C)]` struct that mirrors its layout declares
/// them: with their names where `named` holds, else by type alone.
pub open spec fn mirror_fields(fields: Seq<(String, String)>, j: int, named: bool) -> Seq<char>
    decreases j,
{
    if j <= 0 {
        Seq::empty()
    } else {
        mirror_fields(fields, j - 1, named) + (if named {
            fields[j - 1].0@ + ": "@ + fields[j - 1].1@
        } else {
            fields[j - 1].1@
        }) + ", "@
    }
}

/// The declaration of the `#[repr(C)]` struct that mirrors a variant's fields.
pub open spec fn mirror_text(fields: Seq<(String, String)>, named: bool) -> Seq<char> {
    "#[repr(C)] struct __VariantFields "@ + (if named {
        "{ "@ + mirror_fields(fields, fields.len() as int, true) + "}"@
    } else {
        "("@ + mirror_fields(fields, fields.len() as int, false) + ")"@
    }) + "; "@
}

/// The binding of field `i` of a variant in its pattern.
pub open spec fn binding_text(fields: Seq<(String, String)>, i: int, named: bool) -> Seq<char> {
    if named {
        fields[i].0@
    } else {
        "__field_"@ + decimal_nat(i as nat)
    }
}

/// The initializers of the fields `0..j` of a variant's target, each built in place after the tag.
pub open spec fn variant_build_items(
    fields: Seq<(String, String)>,
    j: int,
    named: bool,
    krate: Seq<char>,
    endian: Seq<char>,
) -> Seq<char>
    decreases j,
{
    if j <= 0 {
        Seq::empty()
    } else {
        let i = j - 1;
        let field = if named { fields[i].0@ } else { decimal_nat(i as nat) };
        variant_build_items(fields, i, named, krate, endian) + (if named { fields[i].0@ + ": "@ } else { Seq::empty() })
            + "{ "@ + mirror_text(fields, named) + build_call_text(krate, endian, binding_text(fields, i, named), "offset + data_offset + "@, "__VariantFields"@, field) + " }, "@
    }
}

/// The bindings `b, ` of the fields `0..j` of a variant.
pub open spec fn bindings(fields: Seq<(String, String)>, j: int, named: bool) -> Seq<char>
    decreases j,
{
    if j <= 0 {
        Seq::empty()
    } else {
        bindings(fields, j - 1, named) + binding_text(fields, j - 1, named) + ", "@
    }
}

/// The match arm of the variant `v` (its name, shape, and fields with their types), with index
/// `vi`, of an enum named `target` whose tag is of type `tag`.
pub open spec fn zero_copy_arm_text(
    v: (String, VariantShape, Vec<(String, String)>),
    vi: nat,
    target: Seq<char>,
    krate: Seq<char>,
    endian: Seq<char>,
    tag: Seq<char>,
) -> Seq<char> {
    let f = v.2@;
    let n = f.len() as int;
    let (pattern, value) = match v.1 {
        VariantShape::Unit => (Seq::<char>::empty(), Seq::<char>::empty()),
        VariantShape::Named => (" { "@ + bindings(f, n, true) + "}"@, " { "@ + variant_build_items(f, n, true, krate, endian) + "}"@),
        VariantShape::Tuple => ("("@ + bindings(f, n, false) + ")"@, "("@ + variant_build_items(f, n, false, krate, endian) + ")"@),
    };
    "Self::"@ + v.0@ + pattern + " => { let mut __target_val = "@ + target + "::"@ + v.0@ + value + "; builder.write::<"@ + tag
        + ">(offset, &(("@ + decimal_nat(vi) + " as u32) as "@ + tag + ")); __target_val }, "@
}

/// The match arms of the variants `0..j`.
pub open spec fn zero_copy_arms(
    variants: Seq<(String, VariantShape, Vec<(String, String)>)>,
    j: int,
    target: Seq<char>,
    krate: Seq<char>,
    endian: Seq<char>,
    tag: Seq<char>,
) -> Seq<char>
    decreases j,
{
    if j <= 0 {
        Seq::empty()
    } else {
        zero_copy_arms(variants, j - 1, target, krate, endian, tag) + zero_copy_arm_text(variants[j - 1], (j - 1) as nat, target, krate, endian, tag)
    }
}

/// The body of `build_to_target` for an enum: the data after the tag, at the larger of the
/// target's alignment and the tag's size, then for each variant its fields built in place and
/// its index written as the tag.
pub open spec fn enum_build_body(
    variants: Seq<(String, VariantShape, Vec<(String, String)>)>,
    target: Seq<char>,
    krate: Seq<char>,
    endian: Seq<char>,
    tag: Seq<char>,
) -> Seq<char> {
    "let data_offset = if core::mem::align_of::<Self::Target>() > core::mem::size_of::<"@ + tag
        + ">() { core::mem::align_of::<Self::Target>() } else { core::mem::size_of::<"@ + tag + ">() }; match self { "@
        + zero_copy_arms(variants, variants.len() as int, target, krate, endian, tag) + "}"@
}

fn mirror(fields: &Vec<(String, String)>, named: bool) -> (s: String)
    ensures
        s@ == mirror_text(fields@, named),
{
    let mut list = String::new();
    let mut j: usize = 0;
    while j < fields.len()
        invariant
            j <= fields@.len(),
            list@ == mirror_fields(fields@, j as int, named),
        decreases fields@.len() - j,
    {
        if named {
            list.append(fields[j].0.as_str());
            list.append(": ");
            list.append(fields[j].1.as_str());
        } else {
            list.append(fields[j].1.as_str());
        }
        list.append(", ");
        j = j + 1;
    }
    let mut s = String::from_str("#[repr(C)] struct __VariantFields ");
    if named {
        s.append("{ ");
        s.append(list.as_str());
        s.append("}");
    } else {
        s.append("(");
        s.append(list.as_str());
        s.append(")");
    }
    s.append("; ");
    s
}

fn binding(fields: &Vec<(String, String)>, i: usize, named: bool) -> (s: String)
    requires
        i < fields@.len(),
    ensures
        s@ == binding_text(fields@, i as int, named),
{
    if named {
        fields[i].0.clone()
    } else {
        let mut s = String::from_str("__field_");
        let d = decimal_usize(i);
        s.append(d.as_str());
        s
    }
}

fn zero_copy_arm(
    v: &(String, VariantShape, Vec<(String, String)>),
    vi: usize,
    target: &String,
    krate: &String,
    endian: &String,
    tag: &String,
) -> (s: String)
    ensures
        s@ == zero_copy_arm_text(*v, vi as nat, target@, krate@, endian@, tag@),
{
    let fields = &v.2;
    let named = match v.1 {
        VariantShape::Named => true,
        _ => false,
    };
    let mut binds = String::new();
    let mut items = String::new();
    let decl = mirror(fields, named);
    let mut j: usize = 0;
    while j < fields.len()
        invariant
            j <= fields@.len(),
            fields == &v.2,
            decl@ == mirror_text(fields@, named),
            binds@ == bindings(fields@, j as int, named),
            items@ == variant_build_items(fields@, j as int, named, krate@, endian@),
        decreases fields@.len() - j,
    {
        let b = binding(fields, j, named);
        binds.append(b.as_str());
        binds.append(", ");
        let field = if named { fields[j].0.clone() } else { decimal_usize(j) };
        let call = build_call(krate, endian, &b, "offset + data_offset + ", "__VariantFields", &field);
        let mut item = if named {
            let mut t = fields[j].0.clone();
            t.append(": ");
            t
        } else {
            String::new()
        };
        item.append("{ ");
        item.append(decl.as_str());
        item.append(call.as_str());
        item.append(" }, ");
        proof {
            assert(item@ == (if named { fields@[j as int].0@ + ": "@ } else { Seq::<char>::empty() }) + "{ "@ + mirror_text(fields@, named)
                + build_call_text(krate@, endian@, binding_text(fields@, j as int, named), "offset + data_offset + "@, "__VariantFields"@, field@) + " }, "@);
            assert(items@ + item@ =~= variant_build_items(fields@, j + 1, named, krate@, endian@));
        }
        items.append(item.as_str());
        j = j + 1;
    }
    let (pattern, value) = match v.1 {
        VariantShape::Unit => (String::new(), String::new()),
        VariantShape::Named => {
            let mut p = String::from_str(" { ");
            p.append(binds.as_str());
            p.append("}");
            let mut q = String::from_str(" { ");
            q.append(items.as_str());
            q.append("}");
            (p, q)
        },
        VariantShape::Tuple => {
            let mut p = String::from_str("(");
            p.append(binds.as_str());
            p.append(")");
            let mut q = String::from_str("(");
            q.append(items.as_str());
            q.append(")");
            (p, q)
        },
    };
    let mut s = String::from_str("Self::");
    s.append(v.0.as_str());
    s.append(pattern.as_str());
    s.append(" => { let mut __target_val = ");
    s.append(target.as_str());
    s.append("::");
    s.append(v.0.as_str());
    s.append(value.as_str());
    s.append("; builder.write::<");
    s.append(tag.as_str());
    s.append(">(offset, &((");
    let d = decimal_usize(vi);
    s.append(d.as_str());
    s.append(" as u32) as ");
    s.append(tag.as_str());
    s.append(")); __target_val }, ");
    s
}

/// The body of the `build_to_target` function that the `ZeroCopy` derive writes for the builder
/// of the enum `target_name` with `variants` (each its name, its shape, and its fields with
/// their types), naming this crate `crate_name`, in the byte order `endian_type`, with tags of
/// the integer type `tag_type`.
pub fn zero_copy_enum_build_body(
    variants: &Vec<(String, VariantShape, Vec<(String, String)>)>,
    target_name: &String,
    crate_name: &String,
    endian_type: &String,
    tag_type: &String,
) -> (r: String)
    ensures
        r@ == enum_build_body(variants@, target_name@, crate_name@, endian_type@, tag_type@),
{
    let mut arms = String::new();
    let mut j: usize = 0;
    while j < variants.len()
        invariant
            j <= variants@.len(),
            arms@ == zero_copy_arms(variants@, j as int, target_name@, crate_name@, endian_type@, tag_type@),
        decreases variants@.len() - j,
    {
        let arm = zero_copy_arm(&variants[j], j, target_name, crate_name, endian_type, tag_type);
        arms.append(arm.as_str());
        j = j + 1;
    }
    let mut r = String::from_str("let data_offset = if core::mem::align_of::<Self::Target>() > core::mem::size_of::<");
    r.append(tag_type.as_str());
    r.append(">() { core::mem::align_of::<Self::Target>() } else { core::mem::size_of::<");
    r.append(tag_type.as_str());
    r.append(">() }; match self { ");
    r.append(arms.as_str());
    r.append("}");
    r
}

} // verus!
