//! The `MAX_SIZE` expression that the `StaticSize` derive writes for a type: the sum of what
//! its fields may take, and for an enum, the largest variant behind the variant index.
use crate::derive_input::attribute::{FieldAttributes, FieldModel};
use vstd::prelude::*;
use vstd::string::StringExecFns;

verus! {

/// What one field adds to its type's size: nothing where it is skipped, its custom expression
/// where it has one, else the `MAX_SIZE` of its type.
pub open spec fn field_size_term(ty: Seq<char>, attrs: FieldModel, crate_name: Seq<char>) -> Option<
    Seq<char>,
> {
    if attrs.static_size_skip {
        None
    } else {
        match attrs.static_size_custom {
            Some(c) => Some(c),
            None => Some("<"@ + ty + " as "@ + crate_name + "::StaticSize>::MAX_SIZE"@),
        }
    }
}

/// The terms that `fields` (each its type's text and its attributes) add, in order.
pub open spec fn size_terms(fields: Seq<(String, FieldAttributes)>, crate_name: Seq<char>) -> Seq<
    Seq<char>,
>
    decreases fields.len(),
{
    if fields.len() == 0 {
        Seq::empty()
    } else {
        let prev = size_terms(fields.drop_last(), crate_name);
        match field_size_term(fields.last().0@, fields.last().1.model(), crate_name) {
            Some(t) => prev.push(t),
            None => prev,
        }
    }
}

/// `parts` with `sep` between each two.
pub open spec fn join(parts: Seq<Seq<char>>, sep: Seq<char>) -> Seq<char>
    decreases parts.len(),
{
    if parts.len() == 0 {
        Seq::empty()
    } else if parts.len() == 1 {
        parts[0]
    } else {
        join(parts.drop_last(), sep) + sep + parts.last()
    }
}

/// The sum of `terms` as an expression: `0` where there are none.
pub open spec fn sum_expr(terms: Seq<Seq<char>>) -> Seq<char> {
    if terms.len() == 0 {
        "0"@
    } else {
        join(terms, " + "@)
    }
}

/// The expression for the greater of `a` and `b` that a constant can hold.
pub open spec fn max_pair(a: Seq<char>, b: Seq<char>) -> Seq<char> {
    "{ const __A: usize = "@ + a + "; const __B: usize = "@ + b
        + "; if __A > __B { __A } else { __B } }"@
}

/// The greatest of `exprs`, folded from the left; `0` where there are none.
pub open spec fn max_expr(exprs: Seq<Seq<char>>) -> Seq<char>
    decreases exprs.len(),
{
    if exprs.len() == 0 {
        "0"@
    } else if exprs.len() == 1 {
        exprs[0]
    } else {
        max_pair(max_expr(exprs.drop_last()), exprs.last())
    }
}

/// The sum expression of each variant: its fields' sum, or `0` for a variant without fields.
pub open spec fn variant_sums(
    variants: Seq<Option<Vec<(String, FieldAttributes)>>>,
    crate_name: Seq<char>,
) -> Seq<Seq<char>> {
    Seq::new(
        variants.len(),
        |i: int|
            match variants[i] {
                Some(fields) => sum_expr(size_terms(fields@, crate_name)),
                None => "0"@,
            },
    )
}

/// The `MAX_SIZE` expression of a type: for an enum (`variants`), 5 bytes of variant index
/// plus its largest variant, or 5 alone without variants; for a struct (`fields`), the sum of
/// its fields; else 0.
pub open spec fn static_size_expr(
    fields: Option<Seq<(String, FieldAttributes)>>,
    variants: Option<Seq<Option<Vec<(String, FieldAttributes)>>>>,
    crate_name: Seq<char>,
) -> Seq<char> {
    match variants {
        Some(vs) => if vs.len() == 0 {
            "5"@
        } else {
            "5 + "@ + max_expr(variant_sums(vs, crate_name))
        },
        None => match fields {
            Some(fs) => sum_expr(size_terms(fs, crate_name)),
            None => "0"@,
        },
    }
}

/// The term of one field.
fn field_term(ty: &String, attrs: &FieldAttributes, crate_name: &String) -> (r: Option<String>)
    ensures
        match field_size_term(ty@, attrs.model(), crate_name@) {
            Some(t) => r matches Some(s) && s@ == t,
            None => r is None,
        },
{
    if attrs.static_size_skip {
        return None;
    }
    match &attrs.static_size_custom {
        Some(custom) => Some(custom.clone()),
        None => {
            let mut s = String::from_str("<");
            s.append(ty.as_str());
            s.append(" as ");
            s.append(crate_name.as_str());
            s.append("::StaticSize>::MAX_SIZE");
            Some(s)
        },
    }
}

/// The sum of what `fields` (each its type's text and its attributes) may take, as an
/// expression.
pub fn fields_sum_expr(fields: &Vec<(String, FieldAttributes)>, crate_name: &String) -> (r: String)
    ensures
        r@ == sum_expr(size_terms(fields@, crate_name@)),
{
    let mut out = String::new();
    let mut count: usize = 0;
    let mut i: usize = 0;
    assert(fields@.take(0) =~= Seq::<(String, FieldAttributes)>::empty());
    while i < fields.len()
        invariant
            i <= fields.len(),
            count <= i,
            count == size_terms(fields@.take(i as int), crate_name@).len(),
            out@ == join(size_terms(fields@.take(i as int), crate_name@), " + "@),
        decreases fields.len() - i,
    {
        let ghost prev = size_terms(fields@.take(i as int), crate_name@);
        proof {
            assert(fields@.take(i + 1).drop_last() =~= fields@.take(i as int));
            assert(fields@.take(i + 1).last() == fields@[i as int]);
        }
        let (ty, attrs) = &fields[i];
        match field_term(ty, attrs, crate_name) {
            Some(t) => {
                if count > 0 {
                    out.append(" + ");
                }
                out.append(t.as_str());
                proof {
                    let now = prev.push(t@);
                    assert(now.drop_last() =~= prev);
                    if count == 0 {
                        assert(out@ =~= t@);
                    }
                }
                count = count + 1;
            },
            None => {},
        }
        i = i + 1;
    }
    assert(fields@.take(i as int) =~= fields@);
    if count == 0 {
        String::from_str("0")
    } else {
        out
    }
}

/// The greatest of `exprs` as an expression that a constant can hold.
pub fn const_max_expr(exprs: &Vec<String>) -> (r: String)
    ensures
        r@ == max_expr(exprs@.map_values(|e: String| e@)),
{
    let ghost views = exprs@.map_values(|e: String| e@);
    if exprs.len() == 0 {
        return String::from_str("0");
    }
    let mut result = exprs[0].clone();
    let mut i: usize = 1;
    assert(views.take(1).len() == 1);
    while i < exprs.len()
        invariant
            1 <= i <= exprs.len(),
            views == exprs@.map_values(|e: String| e@),
            result@ == max_expr(views.take(i as int)),
        decreases exprs.len() - i,
    {
        proof {
            assert(views.take(i + 1).drop_last() =~= views.take(i as int));
            assert(views.take(i + 1).last() == exprs@[i as int]@);
        }
        let mut next = String::from_str("{ const __A: usize = ");
        next.append(result.as_str());
        next.append("; const __B: usize = ");
        next.append(exprs[i].as_str());
        next.append("; if __A > __B { __A } else { __B } }");
        result = next;
        i = i + 1;
    }
    assert(views.take(i as int) =~= views);
    result
}

/// The `MAX_SIZE` expression of a struct with `fields` or an enum with `variants` (each
/// variant's fields, `None` for a unit variant).
pub fn compute_static_size_expr(
    fields: Option<&Vec<(String, FieldAttributes)>>,
    variants: Option<&Vec<Option<Vec<(String, FieldAttributes)>>>>,
    crate_name: &String,
) -> (r: String)
    ensures
        r@ == static_size_expr(
            match fields {
                Some(f) => Some(f@),
                None => None,
            },
            match variants {
                Some(v) => Some(v@),
                None => None,
            },
            crate_name@,
        ),
{
    if let Some(variants) = variants {
        if variants.len() == 0 {
            return String::from_str("5");
        }
        let mut sums: Vec<String> = Vec::new();
        let mut i: usize = 0;
        while i < variants.len()
            invariant
                i <= variants.len(),
                sums.len() == i,
                forall|j: int|
                    0 <= j < i ==> (#[trigger] sums@[j])@ == variant_sums(variants@, crate_name@)[j],
            decreases variants.len() - i,
        {
            let sum = match &variants[i] {
                Some(vfields) => fields_sum_expr(vfields, crate_name),
                None => String::from_str("0"),
            };
            sums.push(sum);
            i = i + 1;
        }
        assert(sums@.map_values(|e: String| e@) =~= variant_sums(variants@, crate_name@));
        let max = const_max_expr(&sums);
        let mut out = String::from_str("5 + ");
        out.append(max.as_str());
        out
    } else if let Some(fields) = fields {
        fields_sum_expr(fields, crate_name)
    } else {
        String::from_str("0")
    }
}

} // verus!
