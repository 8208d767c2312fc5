//! The `#[bincode(..)]`, `#[static_size(..)]` and `#[repr(..)]` attributes that the derive
//! macros read off a type and its fields.
use crate::derive_input::text::{
    parse_unsigned, quoted_inner, quoted_text, text_is, unsigned_up_to,
};
use vstd::prelude::*;

verus! {

/// One item of an attribute's argument list: a bare name (`with_serde`), a name set to a
/// literal (`crate = "my_crate"`, with the literal's source text, quotes and all), or an item of
/// any other shape.
#[derive(Debug, Clone)]
pub enum AttributeItem {
    Tag(String),
    Property(String, String),
    Other,
}

/// Whether no literal of `items` is a lone quote (which no tokenizer hands out, and whose inner
/// text cannot be taken).
pub open spec fn literals_well_formed(items: Seq<AttributeItem>) -> bool {
    forall|i: int|
        0 <= i < items.len() ==> match #[trigger] items[i] {
            AttributeItem::Property(_, val) => val@ != seq!['"'],
            _ => true,
        }
}

/// What an attribute item got wrong.
#[derive(Debug, Clone, Copy, PartialEq, Eq, Structural)]
pub enum AttributeProblem {
    /// A property's value should be a string literal.
    LiteralStrExpected,
    /// `align` should hold a `usize`.
    UsizeExpected,
    /// `bit_packing` should be `"msb"` or `"lsb"`.
    BitOrderExpected,
    /// `bits` should be an integer from 1 to 64.
    BitWidthExpected,
    /// A `bincode` attribute that no derive knows.
    UnknownFieldAttribute,
    /// A `static_size` attribute that no derive knows.
    UnknownStaticSizeAttribute,
    /// `endian` should be `"little"`, `"big"` or `"native"`.
    EndiannessExpected,
}

/// The message that the compiler shows for the problem `p`.
pub open spec fn problem_message(p: AttributeProblem) -> Seq<char> {
    match p {
        AttributeProblem::LiteralStrExpected => "Should be a literal str"@,
        AttributeProblem::UsizeExpected => "Should be a valid usize"@,
        AttributeProblem::BitOrderExpected => "Should be \"msb\" or \"lsb\""@,
        AttributeProblem::BitWidthExpected => "Should be an integer from 1 to 64"@,
        AttributeProblem::UnknownFieldAttribute => "Unknown field attribute"@,
        AttributeProblem::UnknownStaticSizeAttribute => "Unknown static_size attribute"@,
        AttributeProblem::EndiannessExpected => "Invalid endianness. Expected 'little', 'big', or 'native'"@,
    }
}

impl AttributeProblem {
    /// The message that the compiler shows for this problem.
    pub fn message(&self) -> (m: String)
        ensures
            m@ == problem_message(*self),
    {
        match self {
            AttributeProblem::LiteralStrExpected => String::from_str("Should be a literal str"),
            AttributeProblem::UsizeExpected => String::from_str("Should be a valid usize"),
            AttributeProblem::BitOrderExpected => String::from_str("Should be \"msb\" or \"lsb\""),
            AttributeProblem::BitWidthExpected => String::from_str(
                "Should be an integer from 1 to 64",
            ),
            AttributeProblem::UnknownFieldAttribute => String::from_str("Unknown field attribute"),
            AttributeProblem::UnknownStaticSizeAttribute => String::from_str(
                "Unknown static_size attribute",
            ),
            AttributeProblem::EndiannessExpected => String::from_str(
                "Invalid endianness. Expected 'little', 'big', or 'native'",
            ),
        }
    }
}

/// A refused attribute: what is wrong, and the text of the token that the error points at.
#[derive(Debug, Clone)]
pub struct AttributeError {
    pub problem: AttributeProblem,
    pub at: String,
}

/// An attribute error as the contracts see it.
pub type ErrorModel = (AttributeProblem, Seq<char>);

/// The model of an optional `(text, literal)` pair.
pub open spec fn pair_model(p: Option<(String, String)>) -> Option<(Seq<char>, Seq<char>)> {
    match p {
        Some((a, b)) => Some((a@, b@)),
        None => None,
    }
}

/// The container attributes as the contracts see them.
pub struct ContainerModel {
    pub crate_name: Seq<char>,
    pub bounds: Option<(Seq<char>, Seq<char>)>,
    pub decode_bounds: Option<(Seq<char>, Seq<char>)>,
    pub decode_context: Option<(Seq<char>, Seq<char>)>,
    pub borrow_decode_bounds: Option<(Seq<char>, Seq<char>)>,
    pub encode_bounds: Option<(Seq<char>, Seq<char>)>,
    pub endian: Option<(Seq<char>, Seq<char>)>,
    pub align: Option<(nat, Seq<char>)>,
    pub bit_packing: Option<(Seq<char>, Seq<char>)>,
}

/// The `#[bincode(..)]` attributes of a type: the path of this crate as the generated code
/// names it, the `where` bounds to use in place of the derived ones, the decode context type,
/// the alignment and the bit order of bit-packed fields. Each optional value keeps the literal
/// it was read from.
#[derive(Debug, Clone)]
pub struct ContainerAttributes {
    pub crate_name: String,
    pub bounds: Option<(String, String)>,
    pub decode_bounds: Option<(String, String)>,
    pub decode_context: Option<(String, String)>,
    pub borrow_decode_bounds: Option<(String, String)>,
    pub encode_bounds: Option<(String, String)>,
    pub endian: Option<(String, String)>,
    pub align: Option<(usize, String)>,
    pub bit_packing: Option<(String, String)>,
}

/// The crate path that generated code uses where no `crate = ".."` is given.
pub open spec fn default_crate_name() -> Seq<char> {
    "::bincode_next"@
}

/// The container attributes of a type that has no `#[bincode(..)]` properties.
pub open spec fn default_container() -> ContainerModel {
    ContainerModel {
        crate_name: default_crate_name(),
        bounds: None,
        decode_bounds: None,
        decode_context: None,
        borrow_decode_bounds: None,
        encode_bounds: None,
        endian: None,
        align: None,
        bit_packing: None,
    }
}

/// What one item of `#[bincode(..)]` on a type does to the attributes read so far.
pub open spec fn container_step(m: ContainerModel, item: AttributeItem) -> Result<
    ContainerModel,
    ErrorModel,
> {
    match item {
        AttributeItem::Property(key, val) => {
            let k = key@;
            let v = val@;
            if k == "crate"@ || k == "bounds"@ || k == "decode_bounds"@ || k == "decode_context"@
                || k == "encode_bounds"@ || k == "borrow_decode_bounds"@ || k == "align"@ || k
                == "bit_packing"@ {
                match quoted_inner(v) {
                    None => Err((AttributeProblem::LiteralStrExpected, v)),
                    Some(inner) => if k == "crate"@ {
                        Ok(ContainerModel { crate_name: inner, ..m })
                    } else if k == "bounds"@ {
                        Ok(ContainerModel { bounds: Some((inner, v)), ..m })
                    } else if k == "decode_bounds"@ {
                        Ok(ContainerModel { decode_bounds: Some((inner, v)), ..m })
                    } else if k == "decode_context"@ {
                        Ok(ContainerModel { decode_context: Some((inner, v)), ..m })
                    } else if k == "encode_bounds"@ {
                        Ok(ContainerModel { encode_bounds: Some((inner, v)), ..m })
                    } else if k == "borrow_decode_bounds"@ {
                        Ok(ContainerModel { borrow_decode_bounds: Some((inner, v)), ..m })
                    } else if k == "align"@ {
                        match unsigned_up_to(inner, usize::MAX as nat) {
                            Some(n) => Ok(ContainerModel { align: Some((n, v)), ..m }),
                            None => Err((AttributeProblem::UsizeExpected, v)),
                        }
                    } else if inner == "msb"@ || inner == "lsb"@ {
                        Ok(ContainerModel { bit_packing: Some((inner, v)), ..m })
                    } else {
                        Err((AttributeProblem::BitOrderExpected, v))
                    },
                }
            } else {
                Err((AttributeProblem::UnknownFieldAttribute, k))
            }
        },
        AttributeItem::Tag(name) => Err((AttributeProblem::UnknownFieldAttribute, name@)),
        AttributeItem::Other => Ok(m),
    }
}

/// The container attributes that `items` leave behind when read, in order, on top of `m`; or
/// the first refusal.
pub open spec fn container_fold(m: ContainerModel, items: Seq<AttributeItem>) -> Result<
    ContainerModel,
    ErrorModel,
>
    decreases items.len(),
{
    if items.len() == 0 {
        Ok(m)
    } else {
        match container_step(m, items[0]) {
            Ok(next) => container_fold(next, items.skip(1)),
            Err(e) => Err(e),
        }
    }
}

/// Unfolding the fold one item further.
proof fn lemma_container_fold_step(m: ContainerModel, items: Seq<AttributeItem>, i: int)
    requires
        0 <= i < items.len(),
    ensures
        container_fold(m, items.skip(i)) == match container_step(m, items[i]) {
            Ok(next) => container_fold(next, items.skip(i + 1)),
            Err(e) => Err(e),
        },
{
    assert(items.skip(i).skip(1) =~= items.skip(i + 1));
    assert(items.skip(i)[0] == items[i]);
}

impl ContainerAttributes {
    /// The model of these attributes.
    pub open spec fn model(&self) -> ContainerModel {
        ContainerModel {
            crate_name: self.crate_name@,
            bounds: pair_model(self.bounds),
            decode_bounds: pair_model(self.decode_bounds),
            decode_context: pair_model(self.decode_context),
            borrow_decode_bounds: pair_model(self.borrow_decode_bounds),
            encode_bounds: pair_model(self.encode_bounds),
            endian: pair_model(self.endian),
            align: match self.align {
                Some((n, lit)) => Some((n as nat, lit@)),
                None => None,
            },
            bit_packing: pair_model(self.bit_packing),
        }
    }

    /// Read one item of `#[bincode(..)]` on top of these attributes.
    fn apply(&mut self, item: &AttributeItem) -> (r: Result<(), AttributeError>)
        requires
            literals_well_formed(seq![*item]),
        ensures
            match container_step(old(self).model(), *item) {
                Ok(next) => r is Ok && final(self).model() == next,
                Err((p, at)) => r matches Err(e) && e.problem == p && e.at@ == at,
            },
    {
        assert(seq![*item][0] == *item);
        match item {
            AttributeItem::Property(key, val) => {
                let is_crate = text_is(key, "crate");
                let is_bounds = text_is(key, "bounds");
                let is_decode_bounds = text_is(key, "decode_bounds");
                let is_decode_context = text_is(key, "decode_context");
                let is_encode_bounds = text_is(key, "encode_bounds");
                let is_borrow_decode_bounds = text_is(key, "borrow_decode_bounds");
                let is_align = text_is(key, "align");
                let is_bit_packing = text_is(key, "bit_packing");
                if !(is_crate || is_bounds || is_decode_bounds || is_decode_context
                    || is_encode_bounds || is_borrow_decode_bounds || is_align || is_bit_packing) {
                    return Err(
                        AttributeError {
                            problem: AttributeProblem::UnknownFieldAttribute,
                            at: key.clone(),
                        },
                    );
                }
                let inner = match quoted_text(val) {
                    Some(inner) => inner,
                    None => {
                        return Err(
                            AttributeError {
                                problem: AttributeProblem::LiteralStrExpected,
                                at: val.clone(),
                            },
                        );
                    },
                };
                if is_crate {
                    self.crate_name = inner;
                } else if is_bounds {
                    self.bounds = Some((inner, val.clone()));
                } else if is_decode_bounds {
                    self.decode_bounds = Some((inner, val.clone()));
                } else if is_decode_context {
                    self.decode_context = Some((inner, val.clone()));
                } else if is_encode_bounds {
                    self.encode_bounds = Some((inner, val.clone()));
                } else if is_borrow_decode_bounds {
                    self.borrow_decode_bounds = Some((inner, val.clone()));
                } else if is_align {
                    match parse_unsigned(&inner, usize::MAX as u64) {
                        Some(n) => {
                            self.align = Some((n as usize, val.clone()));
                        },
                        None => {
                            return Err(
                                AttributeError {
                                    problem: AttributeProblem::UsizeExpected,
                                    at: val.clone(),
                                },
                            );
                        },
                    }
                } else if text_is(&inner, "msb") || text_is(&inner, "lsb") {
                    self.bit_packing = Some((inner, val.clone()));
                } else {
                    return Err(
                        AttributeError {
                            problem: AttributeProblem::BitOrderExpected,
                            at: val.clone(),
                        },
                    );
                }
                Ok(())
            },
            AttributeItem::Tag(name) => Err(
                AttributeError { problem: AttributeProblem::UnknownFieldAttribute, at: name.clone() },
            ),
            AttributeItem::Other => Ok(()),
        }
    }

    /// Read the attributes of a type from the argument list of its `#[bincode(..)]` attribute
    /// (`None` where the type has none): each item in order, later ones overriding earlier
    /// ones, stopping at the first item refused.
    pub fn parse(bincode: Option<&Vec<AttributeItem>>) -> (r: Result<
        Option<ContainerAttributes>,
        AttributeError,
    >)
        requires
            bincode matches Some(items) ==> literals_well_formed(items@),
        ensures
            match bincode {
                None => r matches Ok(None),
                Some(items) => match container_fold(default_container(), items@) {
                    Ok(m) => r matches Ok(Some(a)) && a.model() == m,
                    Err((p, at)) => r matches Err(e) && e.problem == p && e.at@ == at,
                },
            },
    {
        let items = match bincode {
            Some(items) => items,
            None => return Ok(None),
        };
        let mut result = ContainerAttributes::default();
        let mut i: usize = 0;
        assert(items@.skip(0) =~= items@);
        while i < items.len()
            invariant
                bincode == Some(items),
                i <= items.len(),
                literals_well_formed(items@),
                container_fold(result.model(), items@.skip(i as int)) == container_fold(
                    default_container(),
                    items@,
                ),
            decreases items.len() - i,
        {
            proof {
                lemma_container_fold_step(result.model(), items@, i as int);
                assert(seq![items@[i as int]][0] == items@[i as int]);
            }
            match result.apply(&items[i]) {
                Ok(()) => {},
                Err(e) => return Err(e),
            }
            i = i + 1;
        }
        proof {
            assert(items@.skip(i as int) =~= Seq::<AttributeItem>::empty());
        }
        Ok(Some(result))
    }
}

impl Default for ContainerAttributes {
    fn default() -> (r: Self)
        ensures
            r.model() == default_container(),
    {
        ContainerAttributes {
            crate_name: String::from_str("::bincode_next"),
            bounds: None,
            decode_bounds: None,
            decode_context: None,
            borrow_decode_bounds: None,
            encode_bounds: None,
            endian: None,
            align: None,
            bit_packing: None,
        }
    }
}

/// The attributes of a field as the contracts see them.
pub struct FieldModel {
    pub with_serde: bool,
    pub bits: Option<u8>,
    pub static_size_skip: bool,
    pub static_size_custom: Option<Seq<char>>,
}

/// The attributes of a field: whether it goes through serde, how many bits it takes when bit
/// packing is on, and what `StaticSize` counts for it (nothing, or a size expression given as
/// text).
#[derive(Debug, Clone)]
pub struct FieldAttributes {
    pub with_serde: bool,
    pub bits: Option<u8>,
    pub static_size_skip: bool,
    pub static_size_custom: Option<String>,
}

/// The attributes of a field that has none.
pub open spec fn default_field() -> FieldModel {
    FieldModel { with_serde: false, bits: None, static_size_skip: false, static_size_custom: None }
}

/// What one item does to the attributes of a field read so far: an item of
/// `#[static_size(..)]` where `static_size` holds, else one of `#[bincode(..)]`.
pub open spec fn field_step(m: FieldModel, item: AttributeItem, static_size: bool) -> Result<
    FieldModel,
    ErrorModel,
> {
    if !static_size {
        match item {
            AttributeItem::Tag(name) => if name@ == "with_serde"@ {
                Ok(FieldModel { with_serde: true, ..m })
            } else {
                Err((AttributeProblem::UnknownFieldAttribute, name@))
            },
            AttributeItem::Property(key, val) => if key@ == "bits"@ {
                match unsigned_up_to(val@, u8::MAX as nat) {
                    Some(b) => if b == 0 || b > 64 {
                        Err((AttributeProblem::BitWidthExpected, val@))
                    } else {
                        Ok(FieldModel { bits: Some(b as u8), ..m })
                    },
                    None => Err((AttributeProblem::BitWidthExpected, val@)),
                }
            } else {
                Err((AttributeProblem::UnknownFieldAttribute, key@))
            },
            AttributeItem::Other => Ok(m),
        }
    } else {
        match item {
            AttributeItem::Tag(name) => if name@ == "skip"@ {
                Ok(FieldModel { static_size_skip: true, ..m })
            } else {
                Err((AttributeProblem::UnknownStaticSizeAttribute, name@))
            },
            AttributeItem::Property(key, val) => if key@ == "custom"@ {
                match quoted_inner(val@) {
                    Some(inner) => Ok(FieldModel { static_size_custom: Some(inner), ..m }),
                    None => Err((AttributeProblem::LiteralStrExpected, val@)),
                }
            } else {
                Err((AttributeProblem::UnknownStaticSizeAttribute, key@))
            },
            AttributeItem::Other => Ok(m),
        }
    }
}

/// The field attributes that `items` leave behind when read, in order, on top of `m`; or the
/// first refusal.
pub open spec fn field_fold(m: FieldModel, items: Seq<AttributeItem>, static_size: bool) -> Result<
    FieldModel,
    ErrorModel,
>
    decreases items.len(),
{
    if items.len() == 0 {
        Ok(m)
    } else {
        match field_step(m, items[0], static_size) {
            Ok(next) => field_fold(next, items.skip(1), static_size),
            Err(e) => Err(e),
        }
    }
}

/// The argument list that an optional attribute holds.
pub open spec fn items_of(list: Option<&Vec<AttributeItem>>) -> Option<Seq<AttributeItem>> {
    match list {
        Some(items) => Some(items@),
        None => None,
    }
}

/// The attributes of a field with the argument lists `bincode` of its `#[bincode(..)]` and
/// `static_size` of its `#[static_size(..)]` (`None` for one it does not have): the first list,
/// then the second, read as the fold reads them; `None` where the field has neither attribute.
pub open spec fn field_attributes(
    bincode: Option<Seq<AttributeItem>>,
    static_size: Option<Seq<AttributeItem>>,
) -> Result<Option<FieldModel>, ErrorModel> {
    let first = match bincode {
        Some(items) => field_fold(default_field(), items, false),
        None => Ok(default_field()),
    };
    match first {
        Err(e) => Err(e),
        Ok(m) => {
            let second = match static_size {
                Some(items) => field_fold(m, items, true),
                None => Ok(m),
            };
            match second {
                Err(e) => Err(e),
                Ok(m2) => if bincode is Some || static_size is Some {
                    Ok(Some(m2))
                } else {
                    Ok(None)
                },
            }
        },
    }
}

/// Unfolding the field fold one item further.
proof fn lemma_field_fold_step(m: FieldModel, items: Seq<AttributeItem>, i: int, static_size: bool)
    requires
        0 <= i < items.len(),
    ensures
        field_fold(m, items.skip(i), static_size) == match field_step(m, items[i], static_size) {
            Ok(next) => field_fold(next, items.skip(i + 1), static_size),
            Err(e) => Err(e),
        },
{
    assert(items.skip(i).skip(1) =~= items.skip(i + 1));
    assert(items.skip(i)[0] == items[i]);
}

impl FieldAttributes {
    /// The model of these attributes.
    pub open spec fn model(&self) -> FieldModel {
        FieldModel {
            with_serde: self.with_serde,
            bits: self.bits,
            static_size_skip: self.static_size_skip,
            static_size_custom: match self.static_size_custom {
                Some(c) => Some(c@),
                None => None,
            },
        }
    }

    /// Read one item on top of these attributes.
    fn apply(&mut self, item: &AttributeItem, static_size: bool) -> (r: Result<(), AttributeError>)
        requires
            literals_well_formed(seq![*item]),
        ensures
            match field_step(old(self).model(), *item, static_size) {
                Ok(next) => r is Ok && final(self).model() == next,
                Err((p, at)) => r matches Err(e) && e.problem == p && e.at@ == at,
            },
    {
        assert(seq![*item][0] == *item);
        if !static_size {
            match item {
                AttributeItem::Tag(name) => {
                    if text_is(name, "with_serde") {
                        self.with_serde = true;
                        Ok(())
                    } else {
                        Err(
                            AttributeError {
                                problem: AttributeProblem::UnknownFieldAttribute,
                                at: name.clone(),
                            },
                        )
                    }
                },
                AttributeItem::Property(key, val) => {
                    if !text_is(key, "bits") {
                        return Err(
                            AttributeError {
                                problem: AttributeProblem::UnknownFieldAttribute,
                                at: key.clone(),
                            },
                        );
                    }
                    match parse_unsigned(val, u8::MAX as u64) {
                        Some(b) if b != 0 && b <= 64 => {
                            self.bits = Some(b as u8);
                            Ok(())
                        },
                        _ => Err(
                            AttributeError {
                                problem: AttributeProblem::BitWidthExpected,
                                at: val.clone(),
                            },
                        ),
                    }
                },
                AttributeItem::Other => Ok(()),
            }
        } else {
            match item {
                AttributeItem::Tag(name) => {
                    if text_is(name, "skip") {
                        self.static_size_skip = true;
                        Ok(())
                    } else {
                        Err(
                            AttributeError {
                                problem: AttributeProblem::UnknownStaticSizeAttribute,
                                at: name.clone(),
                            },
                        )
                    }
                },
                AttributeItem::Property(key, val) => {
                    if !text_is(key, "custom") {
                        return Err(
                            AttributeError {
                                problem: AttributeProblem::UnknownStaticSizeAttribute,
                                at: key.clone(),
                            },
                        );
                    }
                    match quoted_text(val) {
                        Some(inner) => {
                            self.static_size_custom = Some(inner);
                            Ok(())
                        },
                        None => Err(
                            AttributeError {
                                problem: AttributeProblem::LiteralStrExpected,
                                at: val.clone(),
                            },
                        ),
                    }
                },
                AttributeItem::Other => Ok(()),
            }
        }
    }

    /// Read every item of `items` in order, stopping at the first refused.
    fn apply_all(&mut self, items: &Vec<AttributeItem>, static_size: bool) -> (r: Result<
        (),
        AttributeError,
    >)
        requires
            literals_well_formed(items@),
        ensures
            match field_fold(old(self).model(), items@, static_size) {
                Ok(m) => r is Ok && final(self).model() == m,
                Err((p, at)) => r matches Err(e) && e.problem == p && e.at@ == at,
            },
    {
        let ghost start = self.model();
        let mut i: usize = 0;
        assert(items@.skip(0) =~= items@);
        while i < items.len()
            invariant
                start == old(self).model(),
                i <= items.len(),
                literals_well_formed(items@),
                field_fold(self.model(), items@.skip(i as int), static_size) == field_fold(
                    start,
                    items@,
                    static_size,
                ),
            decreases items.len() - i,
        {
            proof {
                lemma_field_fold_step(self.model(), items@, i as int, static_size);
                assert(seq![items@[i as int]][0] == items@[i as int]);
            }
            match self.apply(&items[i], static_size) {
                Ok(()) => {},
                Err(e) => return Err(e),
            }
            i = i + 1;
        }
        proof {
            assert(items@.skip(i as int) =~= Seq::<AttributeItem>::empty());
        }
        Ok(())
    }

    /// Read the attributes of a field from the argument lists of its `#[bincode(..)]` and
    /// `#[static_size(..)]` attributes (`None` for one it does not have).
    pub fn parse(
        bincode: Option<&Vec<AttributeItem>>,
        static_size: Option<&Vec<AttributeItem>>,
    ) -> (r: Result<Option<FieldAttributes>, AttributeError>)
        requires
            bincode matches Some(items) ==> literals_well_formed(items@),
            static_size matches Some(items) ==> literals_well_formed(items@),
        ensures
            match field_attributes(items_of(bincode), items_of(static_size)) {
                Ok(Some(m)) => r matches Ok(Some(a)) && a.model() == m,
                Ok(None) => r matches Ok(None),
                Err((p, at)) => r matches Err(e) && e.problem == p && e.at@ == at,
            },
    {
        let mut result = FieldAttributes::default();
        let mut found = false;
        if let Some(items) = bincode {
            found = true;
            match result.apply_all(items, false) {
                Ok(()) => {},
                Err(e) => return Err(e),
            }
        }
        if let Some(items) = static_size {
            found = true;
            match result.apply_all(items, true) {
                Ok(()) => {},
                Err(e) => return Err(e),
            }
        }
        if found {
            Ok(Some(result))
        } else {
            Ok(None)
        }
    }
}

impl Default for FieldAttributes {
    fn default() -> (r: Self)
        ensures
            r.model() == default_field(),
    {
        FieldAttributes {
            with_serde: false,
            bits: None,
            static_size_skip: false,
            static_size_custom: None,
        }
    }
}

/// The `#[repr(..)]` of a type, as far as the derives care: `C`, `transparent`, or the integer
/// type of an enum's discriminant.
#[derive(Debug, Clone, Copy, PartialEq, Eq, Structural)]
pub struct ReprAttributes {
    pub is_c: bool,
    pub is_transparent: bool,
    pub is_u8: bool,
    pub is_u16: bool,
    pub is_u32: bool,
    pub is_u64: bool,
    pub is_i8: bool,
    pub is_i16: bool,
    pub is_i32: bool,
    pub is_i64: bool,
}

/// A `#[repr(..)]` that names nothing the derives know.
pub open spec fn no_repr() -> ReprAttributes {
    ReprAttributes {
        is_c: false,
        is_transparent: false,
        is_u8: false,
        is_u16: false,
        is_u32: false,
        is_u64: false,
        is_i8: false,
        is_i16: false,
        is_i32: false,
        is_i64: false,
    }
}

/// The repr with the tag `name` added, or `None` where the derives do not know the tag.
pub open spec fn repr_tag(m: ReprAttributes, name: Seq<char>) -> Option<ReprAttributes> {
    if name == "C"@ {
        Some(ReprAttributes { is_c: true, ..m })
    } else if name == "transparent"@ {
        Some(ReprAttributes { is_transparent: true, ..m })
    } else if name == "u8"@ {
        Some(ReprAttributes { is_u8: true, ..m })
    } else if name == "u16"@ {
        Some(ReprAttributes { is_u16: true, ..m })
    } else if name == "u32"@ {
        Some(ReprAttributes { is_u32: true, ..m })
    } else if name == "u64"@ {
        Some(ReprAttributes { is_u64: true, ..m })
    } else if name == "i8"@ {
        Some(ReprAttributes { is_i8: true, ..m })
    } else if name == "i16"@ {
        Some(ReprAttributes { is_i16: true, ..m })
    } else if name == "i32"@ {
        Some(ReprAttributes { is_i32: true, ..m })
    } else if name == "i64"@ {
        Some(ReprAttributes { is_i64: true, ..m })
    } else {
        None
    }
}

/// The repr that `items` set on top of `m`, and whether any of them was a tag the derives
/// know; other items are passed over.
pub open spec fn repr_fold(m: ReprAttributes, found: bool, items: Seq<AttributeItem>) -> (
    ReprAttributes,
    bool,
)
    decreases items.len(),
{
    if items.len() == 0 {
        (m, found)
    } else {
        match items[0] {
            AttributeItem::Tag(name) => match repr_tag(m, name@) {
                Some(next) => repr_fold(next, true, items.skip(1)),
                None => repr_fold(m, found, items.skip(1)),
            },
            _ => repr_fold(m, found, items.skip(1)),
        }
    }
}

impl ReprAttributes {
    /// Add the tag `name` where the derives know it, and say whether they do.
    fn add_tag(&mut self, name: &String) -> (known: bool)
        ensures
            match repr_tag(*old(self), name@) {
                Some(next) => known && *final(self) == next,
                None => !known && *final(self) == *old(self),
            },
    {
        if text_is(name, "C") {
            self.is_c = true;
        } else if text_is(name, "transparent") {
            self.is_transparent = true;
        } else if text_is(name, "u8") {
            self.is_u8 = true;
        } else if text_is(name, "u16") {
            self.is_u16 = true;
        } else if text_is(name, "u32") {
            self.is_u32 = true;
        } else if text_is(name, "u64") {
            self.is_u64 = true;
        } else if text_is(name, "i8") {
            self.is_i8 = true;
        } else if text_is(name, "i16") {
            self.is_i16 = true;
        } else if text_is(name, "i32") {
            self.is_i32 = true;
        } else if text_is(name, "i64") {
            self.is_i64 = true;
        } else {
            return false;
        }
        true
    }

    /// Read a type's `#[repr(..)]` from its argument list (`None` where the type has none):
    /// `Some` exactly where a tag the derives know is among the items.
    pub fn parse(repr: Option<&Vec<AttributeItem>>) -> (r: Option<ReprAttributes>)
        ensures
            match repr {
                None => r is None,
                Some(items) => {
                    let (m, found) = repr_fold(no_repr(), false, items@);
                    if found {
                        r == Some(m)
                    } else {
                        r is None
                    }
                },
            },
    {
        let items = match repr {
            Some(items) => items,
            None => return None,
        };
        let mut result = ReprAttributes {
            is_c: false,
            is_transparent: false,
            is_u8: false,
            is_u16: false,
            is_u32: false,
            is_u64: false,
            is_i8: false,
            is_i16: false,
            is_i32: false,
            is_i64: false,
        };
        let mut found = false;
        let mut i: usize = 0;
        assert(items@.skip(0) =~= items@);
        while i < items.len()
            invariant
                i <= items.len(),
                repr_fold(result, found, items@.skip(i as int)) == repr_fold(
                    no_repr(),
                    false,
                    items@,
                ),
            decreases items.len() - i,
        {
            proof {
                assert(items@.skip(i as int).skip(1) =~= items@.skip(i + 1));
                assert(items@.skip(i as int)[0] == items@[i as int]);
            }
            if let AttributeItem::Tag(name) = &items[i] {
                if result.add_tag(name) {
                    found = true;
                }
            }
            i = i + 1;
        }
        proof {
            assert(items@.skip(i as int) =~= Seq::<AttributeItem>::empty());
        }
        if found {
            Some(result)
        } else {
            None
        }
    }
}

} // verus!
