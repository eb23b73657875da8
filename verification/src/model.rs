//! A plain model of the struct that a derive macro receives.
use vstd::prelude::*;

verus! {

/// The shape of a field's type, as far as the macros look into it.
pub enum TypeShape {
    /// A path type such as `Vec<u8>` or `std::string::String`: whether it has a
    /// qualified self (`<T as Trait>::Assoc`) and the identifiers of its segments.
    Path { has_qself: bool, segments: Vec<String> },
    /// A reference type `&T` or `&mut T`, with the referenced type.
    Reference { elem: Box<TypeShape> },
    /// Any other kind of type (tuples, arrays, slices, ...).
    Other,
}

/// One named field of the struct.
pub struct FieldDef {
    /// The field's identifier.
    pub name: String,
    /// The field's type.
    pub ty: TypeShape,
    /// The tokens given as `#[opt(sql = ...)]`, as source text, if any.
    pub sql: Option<String>,
    /// The tokens given as `#[opt(aes_secret_key = ...)]`, as source text, if any.
    pub aes_secret_key: Option<String>,
}

/// A struct with named fields.
pub struct StructDef {
    /// The struct's identifier.
    pub name: String,
    /// Its fields, in declaration order.
    pub fields: Vec<FieldDef>,
}

/// The names of a sequence of fields, in order.
pub open spec fn field_names(fields: Seq<FieldDef>) -> Seq<Seq<char>> {
    fields.map_values(|f: FieldDef| f.name@)
}

} // verus!
