//! Classification of field types by the identifier of their last path segment.
use vstd::prelude::*;
use crate::model::TypeShape;
use crate::text::same_text;

verus! {

/// The type is a path without qualified self whose last segment is `name`.
pub open spec fn last_segment_is(ty: TypeShape, name: Seq<char>) -> bool {
    match ty {
        TypeShape::Path { has_qself, segments } =>
            !has_qself && segments@.len() > 0 && segments@.last()@ == name,
        _ => false,
    }
}

/// The type is a path without qualified self whose last segment satisfies `p`.
pub open spec fn last_segment_satisfies(ty: TypeShape, p: spec_fn(Seq<char>) -> bool) -> bool {
    match ty {
        TypeShape::Path { has_qself, segments } =>
            !has_qself && segments@.len() > 0 && p(segments@.last()@),
        _ => false,
    }
}

/// The names of Rust's primitive integer types.
pub open spec fn int_name(s: Seq<char>) -> bool {
    ||| s == "i8"@
    ||| s == "i16"@
    ||| s == "i32"@
    ||| s == "i64"@
    ||| s == "i128"@
    ||| s == "isize"@
    ||| s == "u8"@
    ||| s == "u16"@
    ||| s == "u32"@
    ||| s == "u64"@
    ||| s == "u128"@
    ||| s == "usize"@
}

/// The names of Rust's primitive float types.
pub open spec fn float_name(s: Seq<char>) -> bool {
    s == "f32"@ || s == "f64"@
}

/// The identifier of the last segment of an unqualified path type.
fn last_segment(ty: &TypeShape) -> (res: Option<&String>)
    ensures
        match *ty {
            TypeShape::Path { has_qself, segments } =>
                if !has_qself && segments@.len() > 0 {
                    res == Some(&segments@.last())
                } else {
                    res is None
                },
            _ => res is None,
        },
{
    match ty {
        TypeShape::Path { has_qself, segments } => {
            if !*has_qself && segments.len() > 0 {
                Some(&segments[segments.len() - 1])
            } else {
                None
            }
        },
        _ => None,
    }
}

/// Whether the type is `bool` (last path segment `bool`).
pub fn is_bool(ty: &TypeShape) -> (res: bool)
    ensures
        res == last_segment_is(*ty, "bool"@),
{
    match last_segment(ty) {
        Some(seg) => same_text(seg.as_str(), "bool"),
        None => false,
    }
}

/// Whether the type is `Vec<..>` (last path segment `Vec`).
pub fn is_vec(ty: &TypeShape) -> (res: bool)
    ensures
        res == last_segment_is(*ty, "Vec"@),
{
    match last_segment(ty) {
        Some(seg) => same_text(seg.as_str(), "Vec"),
        None => false,
    }
}

/// Whether the type is `String` (last path segment `String`).
pub fn is_string(ty: &TypeShape) -> (res: bool)
    ensures
        res == last_segment_is(*ty, "String"@),
{
    match last_segment(ty) {
        Some(seg) => same_text(seg.as_str(), "String"),
        None => false,
    }
}

/// Whether the type is `Option<..>` (last path segment `Option`).
pub fn is_option(ty: &TypeShape) -> (res: bool)
    ensures
        res == last_segment_is(*ty, "Option"@),
{
    match last_segment(ty) {
        Some(seg) => same_text(seg.as_str(), "Option"),
        None => false,
    }
}

/// Whether the type is a reference to `str`.
pub fn is_str_ref(ty: &TypeShape) -> (res: bool)
    ensures
        res == (match *ty {
            TypeShape::Reference { elem } => last_segment_is(*elem, "str"@),
            _ => false,
        }),
{
    match ty {
        TypeShape::Reference { elem } => {
            let inner: &TypeShape = &**elem;
            match last_segment(inner) {
                Some(seg) => same_text(seg.as_str(), "str"),
                None => false,
            }
        },
        _ => false,
    }
}

/// Whether the type is a primitive float (last path segment `f32` or `f64`).
pub fn is_float(ty: &TypeShape) -> (res: bool)
    ensures
        res == last_segment_satisfies(*ty, |s: Seq<char>| float_name(s)),
{
    match last_segment(ty) {
        Some(seg) => same_text(seg.as_str(), "f32") || same_text(seg.as_str(), "f64"),
        None => false,
    }
}

/// Whether the type is a primitive integer (last path segment one of `i8` ..
/// `isize`, `u8` .. `usize`).
pub fn is_int(ty: &TypeShape) -> (res: bool)
    ensures
        res == last_segment_satisfies(*ty, |s: Seq<char>| int_name(s)),
{
    match last_segment(ty) {
        Some(seg) => {
            let s = seg.as_str();
            same_text(s, "i8") || same_text(s, "i16") || same_text(s, "i32")
                || same_text(s, "i64") || same_text(s, "i128") || same_text(s, "isize")
                || same_text(s, "u8") || same_text(s, "u16") || same_text(s, "u32")
                || same_text(s, "u64") || same_text(s, "u128") || same_text(s, "usize")
        },
        None => false,
    }
}

} // verus!

verus! {

/// A field type falls into at most one of the classes `bool`, integer, float, `Vec`,
/// `String` and `Option`.
pub proof fn lemma_type_classes_disjoint(ty: TypeShape)
    ensures
        last_segment_is(ty, "bool"@) ==> !last_segment_satisfies(ty, |s: Seq<char>| int_name(s))
            && !last_segment_satisfies(ty, |s: Seq<char>| float_name(s)) && !last_segment_is(ty, "Vec"@)
            && !last_segment_is(ty, "String"@) && !last_segment_is(ty, "Option"@),
        last_segment_satisfies(ty, |s: Seq<char>| int_name(s)) ==> !last_segment_satisfies(ty, |s: Seq<char>| float_name(s))
            && !last_segment_is(ty, "Vec"@) && !last_segment_is(ty, "String"@) && !last_segment_is(ty, "Option"@),
        last_segment_satisfies(ty, |s: Seq<char>| float_name(s)) ==> !last_segment_is(ty, "Vec"@)
            && !last_segment_is(ty, "String"@) && !last_segment_is(ty, "Option"@),
        last_segment_is(ty, "Vec"@) ==> !last_segment_is(ty, "String"@) && !last_segment_is(ty, "Option"@),
        last_segment_is(ty, "String"@) ==> !last_segment_is(ty, "Option"@),
{
    reveal_strlit("bool");
    reveal_strlit("Vec");
    reveal_strlit("String");
    reveal_strlit("Option");
    reveal_strlit("f32");
    reveal_strlit("f64");
    reveal_strlit("i8");
    reveal_strlit("i16");
    reveal_strlit("i32");
    reveal_strlit("i64");
    reveal_strlit("i128");
    reveal_strlit("isize");
    reveal_strlit("u8");
    reveal_strlit("u16");
    reveal_strlit("u32");
    reveal_strlit("u64");
    reveal_strlit("u128");
    reveal_strlit("usize");
    match ty {
        TypeShape::Path { has_qself, segments } => {
            if segments@.len() > 0 {
                let s = segments@.last()@;
                if int_name(s) {
                    assert(s[0] == 'i' || s[0] == 'u');
                }
                if float_name(s) {
                    assert(s[0] == 'f');
                }
                if s == "bool"@ {
                    assert(s[0] == 'b');
                }
                if s == "Vec"@ {
                    assert(s[0] == 'V');
                }
                if s == "String"@ {
                    assert(s[0] == 'S');
                }
                if s == "Option"@ {
                    assert(s[0] == 'O');
                }
            }
        },
        _ => {},
    }
}

} // verus!
