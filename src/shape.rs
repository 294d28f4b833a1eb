//! The description of a subject type: its fields, variants, annotations and generics.

use vstd::prelude::*;

use crate::attrs::Attribute;

verus! {

/// One member of a record or positional shape.
pub struct Field {
    /// The field's name; absent for a positional field.
    pub ident: Option<String>,
    /// The field's declared type, as text.
    pub ty: String,
    pub attrs: Vec<Attribute>,
}

/// A flat field list.
pub enum Fields {
    /// A record: every field has a name.
    Named(Vec<Field>),
    /// A positional aggregate: fields are told apart by their position.
    Unnamed(Vec<Field>),
    /// No fields.
    Unit,
}

/// One arm of a sum type.
pub struct Variant {
    pub ident: String,
    pub attrs: Vec<Attribute>,
    pub fields: Fields,
}

/// The structural body of a subject type.
pub enum Data {
    /// A record, positional aggregate or unit.
    Struct(Fields),
    /// A sum of variants, in declaration order.
    Enum(Vec<Variant>),
    /// A union, which the generator does not model.
    Union(Vec<Field>),
}

/// One bound on a generic type parameter.
#[derive(Debug, PartialEq, Eq)]
pub enum TypeBound {
    /// A bound as the author wrote it, as text.
    Written(String),
    /// The transcoding capability itself.
    Transcodable,
}

/// One generic parameter of the subject type.
#[derive(Debug, PartialEq, Eq)]
pub enum GenericParam {
    Lifetime { name: String, outlives: Vec<String> },
    Type { name: String, bounds: Vec<TypeBound> },
    Const { name: String, ty: String },
}

/// The subject of generation.
pub struct DeriveInput {
    pub ident: String,
    pub attrs: Vec<Attribute>,
    pub generics: Vec<GenericParam>,
    /// The type's own where clause, as text with its `where`.
    pub where_clause: Option<String>,
    pub data: Data,
}

/// How the fields of a variant are bound in a dispatch arm.
#[derive(Clone, Copy, Debug, PartialEq, Eq, Structural)]
pub enum Style {
    /// Named fields.
    Struct,
    /// Many unnamed fields.
    Tuple,
    /// One unnamed field.
    Newtype,
    /// No fields.
    Unit,
}

pub open spec fn style_of(fields: Fields) -> Style {
    match fields {
        Fields::Named(_) => Style::Struct,
        Fields::Unnamed(v) => if v@.len() == 1 {
            Style::Newtype
        } else {
            Style::Tuple
        },
        Fields::Unit => Style::Unit,
    }
}

/// The binding style of a variant's fields.
pub fn get_style(variant: &Variant) -> (r: Style)
    ensures
        r == style_of(variant.fields),
{
    match &variant.fields {
        Fields::Named(_) => Style::Struct,
        Fields::Unnamed(v) => if v.len() == 1 {
            Style::Newtype
        } else {
            Style::Tuple
        },
        Fields::Unit => Style::Unit,
    }
}

/// Every field of a record carries a name.
pub open spec fn fields_wf(fields: Fields) -> bool {
    match fields {
        Fields::Named(v) => forall|i: int| 0 <= i < v@.len() ==> (#[trigger] v@[i]).ident is Some,
        _ => true,
    }
}

/// The field lists of the subject, and of each of its variants, are well formed.
pub open spec fn input_wf(input: DeriveInput) -> bool {
    match input.data {
        Data::Struct(f) => fields_wf(f),
        Data::Enum(vs) => forall|i: int| 0 <= i < vs@.len() ==> fields_wf(#[trigger] vs@[i].fields),
        Data::Union(_) => true,
    }
}

} // verus!
