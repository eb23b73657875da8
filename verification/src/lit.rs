//! Reading string literals out of attribute tokens, through `syn`.
use vstd::prelude::*;

verus! {

/// What `syn::parse_str::<syn::LitStr>` followed by `LitStr::value` gives for a
/// token text: the unescaped value when the whole text is one string literal.
pub uninterp spec fn lit_str_value(text: Seq<char>) -> Option<Seq<char>>;

/// What `syn::parse_str::<syn::Lit>` gives for a token text when the literal is a
/// `Lit::Str`: its unescaped value.
pub uninterp spec fn lit_as_str_value(text: Seq<char>) -> Option<Seq<char>>;

/// Calls `syn::parse_str::<syn::LitStr>` on the text and, when it parses, takes the
/// literal's `value()`; the result is named `lit_str_value` of the text.
#[verifier::external_body]
pub fn parse_lit_str(text: &str) -> (res: Option<String>)
    ensures
        match res {
            Some(v) => lit_str_value(text@) == Some(v@),
            None => lit_str_value(text@) is None,
        },
{
    match syn::parse_str::<syn::LitStr>(text) {
        Ok(lit) => Some(lit.value()),
        Err(_) => None,
    }
}

/// Calls `syn::parse_str::<syn::Lit>` on the text and, when it parses to a
/// `Lit::Str`, takes its `value()`; the result is named `lit_as_str_value` of the
/// text.
#[verifier::external_body]
pub fn parse_lit_as_str(text: &str) -> (res: Option<String>)
    ensures
        match res {
            Some(v) => lit_as_str_value(text@) == Some(v@),
            None => lit_as_str_value(text@) is None,
        },
{
    match syn::parse_str::<syn::Lit>(text) {
        Ok(syn::Lit::Str(lit)) => Some(lit.value()),
        Ok(_) => None,
        Err(_) => None,
    }
}

} // verus!
