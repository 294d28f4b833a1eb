//! The traversal plan shared by the three generated procedures.
//!
//! One plan drives entomb, exhume and extent alike, so the order in which
//! entomb writes fields is by construction the order in which exhume reads them.

use vstd::prelude::*;

use crate::attrs::{directive_spec, field_directive, has_path, skip, skip_path, ConfigError, Directive};
use crate::shape::{fields_wf, get_style, style_of, Field, Fields, Style, Variant};

verus! {

/// How a traversal step reaches its field: by name, or by position.
#[derive(Debug, PartialEq, Eq)]
pub enum Member {
    Named(String),
    Unnamed(usize),
}

/// One traversal step: transcode one field.
#[derive(Debug, PartialEq, Eq)]
pub struct Step {
    pub member: Member,
    /// The field's position in declaration order.
    pub position: usize,
    /// The type whose transcoder runs on the field's memory.
    pub transcoder: String,
    /// Whether `transcoder` is a substitute rather than the field's declared type,
    /// so that the field's memory must be reinterpreted as that type.
    pub substituted: bool,
}

pub open spec fn member_spec(named: bool, i: int, f: Field) -> Member {
    if named {
        Member::Named(f.ident->Some_0)
    } else {
        Member::Unnamed(i as usize)
    }
}

/// The step of the field `f` at position `i`: none for a skipped field.
pub open spec fn step_spec(named: bool, i: int, f: Field) -> Result<Option<Step>, ConfigError> {
    match directive_spec(f.attrs@) {
        Err(e) => Err(e),
        Ok(Directive::Skip) => Ok(None),
        Ok(Directive::Plain) => Ok(
            Some(
                Step {
                    member: member_spec(named, i, f),
                    position: i as usize,
                    transcoder: f.ty,
                    substituted: false,
                },
            ),
        ),
        Ok(Directive::Substitute(t)) => Ok(
            Some(
                Step {
                    member: member_spec(named, i, f),
                    position: i as usize,
                    transcoder: t,
                    substituted: true,
                },
            ),
        ),
    }
}

/// The steps of a field list: one per field that is not skipped, in declaration
/// order; or the error of the first field whose annotations are refused.
pub open spec fn steps_spec(fields: Seq<Field>, named: bool) -> Result<Seq<Step>, ConfigError>
    decreases fields.len(),
{
    if fields.len() == 0 {
        Ok(Seq::empty())
    } else {
        match steps_spec(fields.drop_last(), named) {
            Err(e) => Err(e),
            Ok(prev) => match step_spec(named, fields.len() - 1, fields.last()) {
                Err(e) => Err(e),
                Ok(None) => Ok(prev),
                Ok(Some(s)) => Ok(prev.push(s)),
            },
        }
    }
}

proof fn lemma_steps_err_prefix(fields: Seq<Field>, named: bool, k: int, e: ConfigError)
    requires
        0 <= k <= fields.len(),
        steps_spec(fields.take(k), named) == Err::<Seq<Step>, ConfigError>(e),
    ensures
        steps_spec(fields, named) == Err::<Seq<Step>, ConfigError>(e),
    decreases fields.len() - k,
{
    if k < fields.len() {
        assert(fields.take(k + 1).drop_last() =~= fields.take(k));
        lemma_steps_err_prefix(fields, named, k + 1, e);
    } else {
        assert(fields.take(k) =~= fields);
    }
}

fn copy_string_member(f: &Field) -> (r: Member)
    requires
        f.ident is Some,
    ensures
        r == Member::Named(f.ident->Some_0),
{
    match &f.ident {
        Some(s) => Member::Named(s.clone()),
        None => Member::Unnamed(0),
    }
}

/// The step of one field, or none where the field is skipped.
fn field_step(named: bool, i: usize, f: &Field) -> (r: Result<Option<Step>, ConfigError>)
    requires
        named ==> f.ident is Some,
    ensures
        r == step_spec(named, i as int, *f),
{
    let directive = field_directive(&f.attrs)?;
    let member = if named {
        copy_string_member(f)
    } else {
        Member::Unnamed(i)
    };
    match directive {
        Directive::Skip => Ok(None),
        Directive::Plain => Ok(
            Some(Step { member, position: i, transcoder: f.ty.clone(), substituted: false }),
        ),
        Directive::Substitute(t) => Ok(
            Some(Step { member, position: i, transcoder: t, substituted: true }),
        ),
    }
}

/// The steps of a field list; see [`steps_spec`].
fn field_steps(fields: &Vec<Field>, named: bool) -> (r: Result<Vec<Step>, ConfigError>)
    requires
        named ==> forall|i: int| 0 <= i < fields@.len() ==> (#[trigger] fields@[i]).ident is Some,
    ensures
        match r {
            Ok(steps) => steps_spec(fields@, named) == Ok::<Seq<Step>, ConfigError>(steps@),
            Err(e) => steps_spec(fields@, named) == Err::<Seq<Step>, ConfigError>(e),
        },
{
    let mut out: Vec<Step> = Vec::new();
    let mut i: usize = 0;
    while i < fields.len()
        invariant
            i <= fields.len(),
            named ==> forall|j: int| 0 <= j < fields@.len() ==> (#[trigger] fields@[j]).ident is Some,
            steps_spec(fields@.take(i as int), named) == Ok::<Seq<Step>, ConfigError>(out@),
        decreases fields.len() - i,
    {
        proof {
            assert(fields@.take(i as int + 1).drop_last() =~= fields@.take(i as int));
            assert(fields@.take(i as int + 1).last() == fields@[i as int]);
        }
        match field_step(named, i, &fields[i]) {
            Err(e) => {
                proof {
                    lemma_steps_err_prefix(fields@, named, i as int + 1, e);
                }
                return Err(e);
            },
            Ok(None) => {},
            Ok(Some(s)) => {
                out.push(s);
            },
        }
        i = i + 1;
    }
    proof {
        assert(fields@.take(fields@.len() as int) =~= fields@);
    }
    Ok(out)
}

/// The steps of a record's fields, each reached by its name.
pub fn derive_named_fields(fields: &Vec<Field>) -> (r: Result<Vec<Step>, ConfigError>)
    requires
        forall|i: int| 0 <= i < fields@.len() ==> (#[trigger] fields@[i]).ident is Some,
    ensures
        match r {
            Ok(steps) => steps_spec(fields@, true) == Ok::<Seq<Step>, ConfigError>(steps@),
            Err(e) => steps_spec(fields@, true) == Err::<Seq<Step>, ConfigError>(e),
        },
{
    field_steps(fields, true)
}

/// The steps of a positional aggregate's fields, each reached by its position.
pub fn derive_unnamed_fields(fields: &Vec<Field>) -> (r: Result<Vec<Step>, ConfigError>)
    ensures
        match r {
            Ok(steps) => steps_spec(fields@, false) == Ok::<Seq<Step>, ConfigError>(steps@),
            Err(e) => steps_spec(fields@, false) == Err::<Seq<Step>, ConfigError>(e),
        },
{
    field_steps(fields, false)
}

/// The steps of any flat field list.
pub open spec fn fields_plan(fields: Fields) -> Result<Seq<Step>, ConfigError> {
    match fields {
        Fields::Named(v) => steps_spec(v@, true),
        Fields::Unnamed(v) => steps_spec(v@, false),
        Fields::Unit => Ok(Seq::empty()),
    }
}

/// The steps of a record, positional aggregate or unit shape.
pub fn derive_struct(fields: &Fields) -> (r: Result<Vec<Step>, ConfigError>)
    requires
        crate::shape::fields_wf(*fields),
    ensures
        match r {
            Ok(steps) => fields_plan(*fields) == Ok::<Seq<Step>, ConfigError>(steps@),
            Err(e) => fields_plan(*fields) == Err::<Seq<Step>, ConfigError>(e),
        },
{
    match fields {
        Fields::Named(v) => derive_named_fields(v),
        Fields::Unnamed(v) => derive_unnamed_fields(v),
        Fields::Unit => Ok(Vec::new()),
    }
}

/// The fields that a dispatch arm binds, in declaration order: by name for named
/// fields, by position (bound as `__field0`, `__field1`, ..) for unnamed ones.
pub open spec fn bindings_spec(fields: Fields) -> Seq<Member> {
    match fields {
        Fields::Named(v) => Seq::new(v@.len(), |i: int| Member::Named(v@[i].ident->Some_0)),
        Fields::Unnamed(v) => Seq::new(v@.len(), |i: int| Member::Unnamed(i as usize)),
        Fields::Unit => Seq::empty(),
    }
}

fn bindings(fields: &Fields) -> (r: Vec<Member>)
    requires
        fields_wf(*fields),
    ensures
        r@ == bindings_spec(*fields),
{
    let mut out: Vec<Member> = Vec::new();
    match fields {
        Fields::Named(v) => {
            let mut i: usize = 0;
            while i < v.len()
                invariant
                    i <= v.len(),
                    forall|j: int| 0 <= j < v@.len() ==> (#[trigger] v@[j]).ident is Some,
                    out@.len() == i,
                    forall|j: int| 0 <= j < i ==> out@[j] == Member::Named(v@[j].ident->Some_0),
                decreases v.len() - i,
            {
                out.push(copy_string_member(&v[i]));
                i = i + 1;
            }
            assert(out@ =~= bindings_spec(*fields));
        },
        Fields::Unnamed(v) => {
            let mut i: usize = 0;
            while i < v.len()
                invariant
                    i <= v.len(),
                    out@.len() == i,
                    forall|j: int| 0 <= j < i ==> out@[j] == Member::Unnamed(j as usize),
                decreases v.len() - i,
            {
                out.push(Member::Unnamed(i));
                i = i + 1;
            }
            assert(out@ =~= bindings_spec(*fields));
        },
        Fields::Unit => {
            assert(out@ =~= bindings_spec(*fields));
        },
    }
    out
}

/// What a dispatch arm does once its pattern has matched.
#[derive(Debug)]
pub enum ArmBody {
    /// Traverse the bound fields.
    Steps(Vec<Step>),
    /// The variant is skipped: reaching it is an unrecoverable error.
    Unreachable,
}

/// One dispatch arm of a sum type. Entomb and extent bind the fields by shared
/// reference, exhume by mutable reference; both bind the same fields in the same order.
#[derive(Debug)]
pub struct Arm {
    pub variant: String,
    pub style: Style,
    pub bindings: Vec<Member>,
    pub body: ArmBody,
}

/// The mathematical content of an arm; `body` is `None` for a skipped variant.
pub struct ArmView {
    pub variant: String,
    pub style: Style,
    pub bindings: Seq<Member>,
    pub body: Option<Seq<Step>>,
}

impl View for Arm {
    type V = ArmView;

    open spec fn view(&self) -> ArmView {
        ArmView {
            variant: self.variant,
            style: self.style,
            bindings: self.bindings@,
            body: match self.body {
                ArmBody::Steps(s) => Some(s@),
                ArmBody::Unreachable => None,
            },
        }
    }
}

/// The arm of one variant: a skipped variant gets an arm that fails when reached,
/// and its fields are not looked at.
pub open spec fn arm_spec(v: Variant) -> Result<ArmView, ConfigError> {
    let head = ArmView {
        variant: v.ident,
        style: style_of(v.fields),
        bindings: bindings_spec(v.fields),
        body: None,
    };
    if has_path(v.attrs@, skip_path()) {
        Ok(head)
    } else {
        match fields_plan(v.fields) {
            Err(e) => Err(e),
            Ok(s) => Ok(ArmView { body: Some(s), ..head }),
        }
    }
}

/// The arms of a sum type: one per variant, in declaration order; or the error of
/// the first variant whose fields' annotations are refused.
pub open spec fn arms_spec(vs: Seq<Variant>) -> Result<Seq<ArmView>, ConfigError>
    decreases vs.len(),
{
    if vs.len() == 0 {
        Ok(Seq::empty())
    } else {
        match arms_spec(vs.drop_last()) {
            Err(e) => Err(e),
            Ok(prev) => match arm_spec(vs.last()) {
                Err(e) => Err(e),
                Ok(a) => Ok(prev.push(a)),
            },
        }
    }
}

proof fn lemma_arms_err_prefix(vs: Seq<Variant>, k: int, e: ConfigError)
    requires
        0 <= k <= vs.len(),
        arms_spec(vs.take(k)) == Err::<Seq<ArmView>, ConfigError>(e),
    ensures
        arms_spec(vs) == Err::<Seq<ArmView>, ConfigError>(e),
    decreases vs.len() - k,
{
    if k < vs.len() {
        assert(vs.take(k + 1).drop_last() =~= vs.take(k));
        lemma_arms_err_prefix(vs, k + 1, e);
    } else {
        assert(vs.take(k) =~= vs);
    }
}

/// The dispatch arm of one variant; see [`arm_spec`].
pub fn derive_variant(v: &Variant) -> (r: Result<Arm, ConfigError>)
    requires
        fields_wf(v.fields),
    ensures
        match r {
            Ok(a) => arm_spec(*v) == Ok::<ArmView, ConfigError>(a@),
            Err(e) => arm_spec(*v) == Err::<ArmView, ConfigError>(e),
        },
{
    let body = if skip(&v.attrs) {
        ArmBody::Unreachable
    } else {
        ArmBody::Steps(derive_struct(&v.fields)?)
    };
    let arm = Arm {
        variant: v.ident.clone(),
        style: get_style(v),
        bindings: bindings(&v.fields),
        body,
    };
    proof {
        if !has_path(v.attrs@, skip_path()) {
            assert(arm_spec(*v) == Ok::<ArmView, ConfigError>(arm@));
        }
    }
    Ok(arm)
}

/// The dispatch arms of a sum type; see [`arms_spec`].
pub fn derive_enum(variants: &Vec<Variant>) -> (r: Result<Vec<Arm>, ConfigError>)
    requires
        forall|i: int| 0 <= i < variants@.len() ==> fields_wf(#[trigger] variants@[i].fields),
    ensures
        match r {
            Ok(arms) => arms_spec(variants@) == Ok::<Seq<ArmView>, ConfigError>(
                arms@.map_values(|a: Arm| a@),
            ),
            Err(e) => arms_spec(variants@) == Err::<Seq<ArmView>, ConfigError>(e),
        },
{
    let mut out: Vec<Arm> = Vec::new();
    let mut i: usize = 0;
    proof {
        assert(variants@.take(0) =~= Seq::<Variant>::empty());
        assert(out@.map_values(|a: Arm| a@) =~= Seq::<ArmView>::empty());
    }
    while i < variants.len()
        invariant
            i <= variants.len(),
            forall|j: int| 0 <= j < variants@.len() ==> fields_wf(#[trigger] variants@[j].fields),
            arms_spec(variants@.take(i as int)) == Ok::<Seq<ArmView>, ConfigError>(
                out@.map_values(|a: Arm| a@),
            ),
        decreases variants.len() - i,
    {
        proof {
            assert(variants@.take(i as int + 1).drop_last() =~= variants@.take(i as int));
            assert(variants@.take(i as int + 1).last() == variants@[i as int]);
        }
        match derive_variant(&variants[i]) {
            Err(e) => {
                proof {
                    lemma_arms_err_prefix(variants@, i as int + 1, e);
                }
                return Err(e);
            },
            Ok(a) => {
                let ghost before = out@;
                out.push(a);
                proof {
                    assert(out@.map_values(|a: Arm| a@) =~= before.map_values(|a: Arm| a@).push(
                        a@,
                    ));
                }
            },
        }
        i = i + 1;
    }
    proof {
        assert(variants@.take(variants@.len() as int) =~= variants@);
    }
    Ok(out)
}

} // verus!
