//! Assembly of the whole implementation: the traversal plan, the generic
//! parameters with their resolved bounds, and the where clause.

use vstd::prelude::*;

use crate::attrs::{bound_clause, bound_clause_spec, BoundClause, ConfigError};
use crate::plan::{arms_spec, derive_enum, derive_struct, fields_plan, Arm, ArmView, Step};
use crate::shape::{input_wf, Data, DeriveInput, GenericParam, TypeBound};

verus! {

/// The body shared by entomb, exhume and extent.
#[derive(Debug)]
pub enum Traversal {
    /// A record, positional aggregate or unit: the fields of `self`, in order.
    Fields(Vec<Step>),
    /// A sum type: one arm per variant, in declaration order.
    Dispatch(Vec<Arm>),
}

/// The mathematical content of a traversal.
pub enum TraversalView {
    Fields(Seq<Step>),
    Dispatch(Seq<ArmView>),
}

impl View for Traversal {
    type V = TraversalView;

    open spec fn view(&self) -> TraversalView {
        match self {
            Traversal::Fields(s) => TraversalView::Fields(s@),
            Traversal::Dispatch(a) => TraversalView::Dispatch(a@.map_values(|x: Arm| x@)),
        }
    }
}

/// The traversal of a subject's body; a union is refused.
pub open spec fn traversal_spec(data: Data) -> Result<TraversalView, ConfigError> {
    match data {
        Data::Struct(f) => match fields_plan(f) {
            Ok(s) => Ok(TraversalView::Fields(s)),
            Err(e) => Err(e),
        },
        Data::Enum(vs) => match arms_spec(vs@) {
            Ok(a) => Ok(TraversalView::Dispatch(a)),
            Err(e) => Err(e),
        },
        Data::Union(_) => Err(ConfigError::UnsupportedShape),
    }
}

/// `q` is `p` with the transcoding capability added to its bounds where `p` is a
/// type parameter, and `p` itself otherwise.
pub open spec fn with_capability(p: GenericParam, q: GenericParam) -> bool {
    match p {
        GenericParam::Type { name, bounds } => {
            &&& q matches GenericParam::Type { name: n, bounds: b }
            &&& n == name
            &&& b@ == bounds@.push(TypeBound::Transcodable)
        },
        _ => q == p,
    }
}

/// `qs` is `ps` with the transcoding capability added to every type parameter.
pub open spec fn capability_added(ps: Seq<GenericParam>, qs: Seq<GenericParam>) -> bool {
    &&& qs.len() == ps.len()
    &&& forall|i: int| 0 <= i < ps.len() ==> with_capability(ps[i], #[trigger] qs[i])
}

/// Requires every type parameter to support the transcoding capability; lifetimes
/// and const parameters are kept as they are.
pub fn add_trait_bounds(generics: Vec<GenericParam>) -> (r: Vec<GenericParam>)
    ensures
        capability_added(generics@, r@),
{
    let ghost ps = generics@;
    let mut rest = generics;
    let mut out: Vec<GenericParam> = Vec::new();
    while rest.len() > 0
        invariant
            out@.len() + rest@.len() == ps.len(),
            rest@ == ps.skip(out@.len() as int),
            forall|i: int| 0 <= i < out@.len() ==> with_capability(ps[i], #[trigger] out@[i]),
        decreases rest@.len(),
    {
        let p = rest.remove(0);
        proof {
            assert(p == ps[out@.len() as int]);
            assert(rest@ =~= ps.skip(out@.len() as int + 1));
        }
        let q = match p {
            GenericParam::Type { name, bounds } => {
                let mut bounds = bounds;
                bounds.push(TypeBound::Transcodable);
                GenericParam::Type { name, bounds }
            },
            other => other,
        };
        out.push(q);
    }
    out
}

/// The generated implementation of the transcoding capability for one type.
#[derive(Debug)]
pub struct Implementation {
    pub ident: String,
    /// The generic parameters, with the bounds that the bound clause resolved to.
    pub generics: Vec<GenericParam>,
    pub where_clause: Option<String>,
    pub traversal: Traversal,
}

/// The first configuration error of a subject, if any: its body's before its own
/// annotations'.
pub open spec fn derive_error(input: DeriveInput) -> Option<ConfigError> {
    match traversal_spec(input.data) {
        Err(e) => Some(e),
        Ok(_) => match bound_clause_spec(input.attrs@) {
            Err(e) => Some(e),
            Ok(_) => None,
        },
    }
}

/// `imp` is the implementation generated for `input`.
pub open spec fn implementation_spec(input: DeriveInput, imp: Implementation) -> bool {
    &&& traversal_spec(input.data) == Ok::<TraversalView, ConfigError>(imp.traversal@)
    &&& imp.ident == input.ident
    &&& match bound_clause_spec(input.attrs@) {
        Ok(BoundClause::Default) => {
            &&& capability_added(input.generics@, imp.generics@)
            &&& imp.where_clause == input.where_clause
        },
        Ok(BoundClause::Omit) => {
            &&& imp.generics == input.generics
            &&& imp.where_clause == input.where_clause
        },
        Ok(BoundClause::Override(w)) => {
            &&& imp.generics == input.generics
            &&& imp.where_clause == Some(w)
        },
        Err(_) => false,
    }
}

/// Generates the implementation of the transcoding capability for `input`, or the
/// configuration error that prevents it.
pub fn derive_abomonation(input: DeriveInput) -> (r: Result<Implementation, ConfigError>)
    requires
        input_wf(input),
    ensures
        match r {
            Ok(imp) => derive_error(input) is None && implementation_spec(input, imp),
            Err(e) => derive_error(input) == Some(e),
        },
{
    let traversal = match &input.data {
        Data::Struct(f) => Traversal::Fields(derive_struct(f)?),
        Data::Enum(vs) => Traversal::Dispatch(derive_enum(vs)?),
        Data::Union(_) => {
            return Err(ConfigError::UnsupportedShape);
        },
    };
    let clause = bound_clause(&input.attrs)?;
    let DeriveInput { ident, attrs: _, generics, where_clause, data: _ } = input;
    let (generics, where_clause) = match clause {
        BoundClause::Default => (add_trait_bounds(generics), where_clause),
        BoundClause::Omit => (generics, where_clause),
        BoundClause::Override(w) => (generics, Some(w)),
    };
    Ok(Implementation { ident, generics, where_clause, traversal })
}

} // verus!
