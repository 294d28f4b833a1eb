//! Recognition of the annotations that steer generation.

use vstd::prelude::*;

verus! {

/// One raw annotation on a type, a variant or a field: its path (`abomonation_skip`)
/// and, where it has a parenthesised argument list, the text between the parentheses.
pub struct Attribute {
    pub path: String,
    pub args: Option<String>,
}

/// A generation-time error: the author's intent cannot be honoured.
#[derive(Clone, Copy, Debug, PartialEq, Eq, Structural)]
pub enum ConfigError {
    /// The subject is a shape that the generator does not model (a union).
    UnsupportedShape,
    /// An `abomonate_with` annotation whose argument is missing or is not a type.
    MalformedSubstitute,
    /// Two or more `abomonate_with` annotations on one field.
    DuplicateSubstitute,
    /// A field that is both skipped and given a substitute transcoder.
    SkippedSubstitute,
    /// An `abomonation_bounds` annotation whose argument is missing or is not a where clause.
    MalformedBounds,
    /// Two or more `abomonation_bounds` annotations on one type.
    DuplicateBounds,
    /// A type with both `abomonation_bounds` and `abomonation_omit_bounds`.
    BoundsWithOmit,
}

pub open spec fn skip_path() -> Seq<char> {
    "abomonation_skip"@
}

/// Whether some annotation in `attrs` has the path `name`.
pub open spec fn has_path(attrs: Seq<Attribute>, name: Seq<char>) -> bool {
    exists|i: int| 0 <= i < attrs.len() && #[trigger] attrs[i].path@ == name
}

fn is_path(a: &Attribute, name: &str) -> (r: bool)
    ensures
        r == (a.path@ == name@),
{
    a.path == name.to_owned()
}

fn any_path(attrs: &Vec<Attribute>, name: &str) -> (r: bool)
    ensures
        r == has_path(attrs@, name@),
{
    let mut i: usize = 0;
    while i < attrs.len()
        invariant
            i <= attrs.len(),
            forall|j: int| 0 <= j < i ==> attrs@[j].path@ != name@,
        decreases attrs.len() - i,
    {
        if is_path(&attrs[i], name) {
            return true;
        }
        i = i + 1;
    }
    false
}

/// Whether the annotations mark their item as skipped (`abomonation_skip`).
pub fn skip(attrs: &Vec<Attribute>) -> (r: bool)
    ensures
        r == has_path(attrs@, skip_path()),
{
    any_path(attrs, "abomonation_skip")
}

pub open spec fn omit_bounds_path() -> Seq<char> {
    "abomonation_omit_bounds"@
}

pub open spec fn with_path() -> Seq<char> {
    "abomonate_with"@
}

pub open spec fn bounds_path() -> Seq<char> {
    "abomonation_bounds"@
}

/// Whether the annotations ask for no generated bound clause (`abomonation_omit_bounds`).
pub fn omit_bounds(attrs: &Vec<Attribute>) -> (r: bool)
    ensures
        r == has_path(attrs@, omit_bounds_path()),
{
    any_path(attrs, "abomonation_omit_bounds")
}

/// Whether `s` is the text of one Rust type, as syn parses it.
pub uninterp spec fn type_syntax(s: Seq<char>) -> bool;

/// Whether `s` is the text of one where clause (with its `where`), as syn parses it.
pub uninterp spec fn where_clause_syntax(s: Seq<char>) -> bool;

/// Relies on `syn::parse_str::<syn::Type>`: it succeeds exactly when the whole text
/// is one type, and its outcome depends on the text alone.
#[verifier::external_body]
fn parses_as_type(s: &str) -> (r: bool)
    ensures
        r == type_syntax(s@),
{
    syn::parse_str::<syn::Type>(s).is_ok()
}

/// Relies on `syn::parse_str::<syn::WhereClause>`: it succeeds exactly when the whole
/// text is one where clause, and its outcome depends on the text alone.
#[verifier::external_body]
fn parses_as_where_clause(s: &str) -> (r: bool)
    ensures
        r == where_clause_syntax(s@),
{
    syn::parse_str::<syn::WhereClause>(s).is_ok()
}

/// What the argument of a directive must be.
#[derive(Clone, Copy, Debug, PartialEq, Eq, Structural)]
pub enum ArgKind {
    /// A type (the substitute of `abomonate_with`).
    Type,
    /// A where clause (the override of `abomonation_bounds`).
    WhereClause,
}

/// Whether `arg` is present and parses as `kind` demands.
pub open spec fn accepts(kind: ArgKind, arg: Option<String>) -> bool {
    match arg {
        None => false,
        Some(s) => match kind {
            ArgKind::Type => type_syntax(s@),
            ArgKind::WhereClause => where_clause_syntax(s@),
        },
    }
}

/// Picks the argument list of an annotation that has the path `name`.
pub open spec fn arg_if(name: Seq<char>) -> spec_fn(Attribute) -> Option<Option<String>> {
    |a: Attribute|
        if a.path@ == name {
            Some(a.args)
        } else {
            None
        }
}

/// The arguments of the annotations with the path `name`, in their order.
pub open spec fn args_of(attrs: Seq<Attribute>, name: Seq<char>) -> Seq<Option<String>> {
    attrs.filter_map(arg_if(name))
}

/// What a directive that may be given at most once resolves to: an error if one of its
/// arguments is malformed, else an error if it is given more than once, else its one
/// argument, if any.
pub open spec fn single_arg_spec(
    attrs: Seq<Attribute>,
    name: Seq<char>,
    kind: ArgKind,
    malformed: ConfigError,
    duplicate: ConfigError,
) -> Result<Option<String>, ConfigError> {
    let found = args_of(attrs, name);
    if exists|j: int| 0 <= j < found.len() && !accepts(kind, #[trigger] found[j]) {
        Err(malformed)
    } else if found.len() > 1 {
        Err(duplicate)
    } else if found.len() == 0 {
        Ok(None)
    } else {
        Ok(found[0])
    }
}

fn accepts_arg(kind: ArgKind, arg: &Option<String>) -> (r: bool)
    ensures
        r == accepts(kind, *arg),
{
    match arg {
        None => false,
        Some(s) => match kind {
            ArgKind::Type => parses_as_type(s.as_str()),
            ArgKind::WhereClause => parses_as_where_clause(s.as_str()),
        },
    }
}

fn copy_arg(arg: &Option<String>) -> (r: Option<String>)
    ensures
        r == *arg,
{
    match arg {
        None => None,
        Some(s) => Some(s.clone()),
    }
}

/// One occurrence of a directive: its argument, and whether that argument parses as
/// the directive demands.
pub struct Candidate {
    pub arg: Option<String>,
    pub parses: bool,
}

/// What a directive given by `cands`, in order, resolves to: an error if one of them
/// does not parse, else an error if there is more than one, else the argument of the
/// one, if any.
pub open spec fn pick_spec(
    cands: Seq<Candidate>,
    malformed: ConfigError,
    duplicate: ConfigError,
) -> Result<Option<String>, ConfigError> {
    if exists|j: int| 0 <= j < cands.len() && !(#[trigger] cands[j]).parses {
        Err(malformed)
    } else if cands.len() > 1 {
        Err(duplicate)
    } else if cands.len() == 0 {
        Ok(None)
    } else {
        Ok(cands[0].arg)
    }
}

/// Decides a directive that may be given at most once from its occurrences; see
/// [`pick_spec`].
pub fn pick_single(
    cands: Vec<Candidate>,
    malformed: ConfigError,
    duplicate: ConfigError,
) -> (r: Result<Option<String>, ConfigError>)
    ensures
        r == pick_spec(cands@, malformed, duplicate),
{
    let mut i: usize = 0;
    while i < cands.len()
        invariant
            i <= cands.len(),
            forall|j: int| 0 <= j < i ==> (#[trigger] cands@[j]).parses,
        decreases cands.len() - i,
    {
        if !cands[i].parses {
            return Err(malformed);
        }
        i = i + 1;
    }
    if cands.len() > 1 {
        Err(duplicate)
    } else if cands.len() == 0 {
        Ok(None)
    } else {
        let mut cands = cands;
        let c = cands.remove(0);
        Ok(c.arg)
    }
}

/// Resolves a directive that may be given at most once; see [`single_arg_spec`].
pub fn single_arg(
    attrs: &Vec<Attribute>,
    name: &str,
    kind: ArgKind,
    malformed: ConfigError,
    duplicate: ConfigError,
) -> (r: Result<Option<String>, ConfigError>)
    ensures
        r == single_arg_spec(attrs@, name@, kind, malformed, duplicate),
{
    let ghost f = arg_if(name@);
    let mut found: Vec<Candidate> = Vec::new();
    let mut i: usize = 0;
    while i < attrs.len()
        invariant
            i <= attrs.len(),
            f == arg_if(name@),
            found@.len() == attrs@.take(i as int).filter_map(f).len(),
            forall|j: int|
                0 <= j < found@.len() ==> (#[trigger] found@[j]).arg == attrs@.take(i as int).filter_map(
                    f,
                )[j] && found@[j].parses == accepts(kind, found@[j].arg),
        decreases attrs.len() - i,
    {
        proof {
            attrs@.lemma_filter_map_take_succ(f, i as int);
        }
        if is_path(&attrs[i], name) {
            let arg = copy_arg(&attrs[i].args);
            let parses = accepts_arg(kind, &arg);
            found.push(Candidate { arg, parses });
        }
        i = i + 1;
    }
    proof {
        assert(attrs@.take(attrs@.len() as int) =~= attrs@);
        let args = args_of(attrs@, name@);
        if exists|j: int| 0 <= j < args.len() && !accepts(kind, #[trigger] args[j]) {
            let j = choose|j: int| 0 <= j < args.len() && !accepts(kind, #[trigger] args[j]);
            assert(!found@[j].parses);
        }
        if exists|j: int| 0 <= j < found@.len() && !(#[trigger] found@[j]).parses {
            let j = choose|j: int| 0 <= j < found@.len() && !(#[trigger] found@[j]).parses;
            assert(!accepts(kind, args[j]));
        }
    }
    pick_single(found, malformed, duplicate)
}

/// The substitute type of a field (`abomonate_with(T)`), if it names one.
pub fn with(attrs: &Vec<Attribute>) -> (r: Result<Option<String>, ConfigError>)
    ensures
        r == single_arg_spec(
            attrs@,
            with_path(),
            ArgKind::Type,
            ConfigError::MalformedSubstitute,
            ConfigError::DuplicateSubstitute,
        ),
{
    single_arg(
        attrs,
        "abomonate_with",
        ArgKind::Type,
        ConfigError::MalformedSubstitute,
        ConfigError::DuplicateSubstitute,
    )
}

/// The where clause that replaces the generated bounds (`abomonation_bounds(where ..)`),
/// if the type gives one.
pub fn bounds(attrs: &Vec<Attribute>) -> (r: Result<Option<String>, ConfigError>)
    ensures
        r == single_arg_spec(
            attrs@,
            bounds_path(),
            ArgKind::WhereClause,
            ConfigError::MalformedBounds,
            ConfigError::DuplicateBounds,
        ),
{
    single_arg(
        attrs,
        "abomonation_bounds",
        ArgKind::WhereClause,
        ConfigError::MalformedBounds,
        ConfigError::DuplicateBounds,
    )
}

/// How one field takes part in the three procedures.
#[derive(Debug, PartialEq, Eq)]
pub enum Directive {
    /// Transcoded with its own declared type.
    Plain,
    /// Left out of all three procedures.
    Skip,
    /// Transcoded as if it were of the named type.
    Substitute(String),
}

/// The directive that a field's annotations resolve to.
pub open spec fn directive_spec(attrs: Seq<Attribute>) -> Result<Directive, ConfigError> {
    match single_arg_spec(
        attrs,
        with_path(),
        ArgKind::Type,
        ConfigError::MalformedSubstitute,
        ConfigError::DuplicateSubstitute,
    ) {
        Err(e) => Err(e),
        Ok(Some(t)) => if has_path(attrs, skip_path()) {
            Err(ConfigError::SkippedSubstitute)
        } else {
            Ok(Directive::Substitute(t))
        },
        Ok(None) => if has_path(attrs, skip_path()) {
            Ok(Directive::Skip)
        } else {
            Ok(Directive::Plain)
        },
    }
}

/// Resolves a field's annotations: a substitute type, a skip, or neither. Skip and
/// substitute together are refused, as are two substitutes or a malformed one.
pub fn field_directive(attrs: &Vec<Attribute>) -> (r: Result<Directive, ConfigError>)
    ensures
        r == directive_spec(attrs@),
{
    let substitute = with(attrs)?;
    let skipped = skip(attrs);
    match substitute {
        Some(t) => if skipped {
            Err(ConfigError::SkippedSubstitute)
        } else {
            Ok(Directive::Substitute(t))
        },
        None => if skipped {
            Ok(Directive::Skip)
        } else {
            Ok(Directive::Plain)
        },
    }
}

/// The bound clause of the generated implementation.
#[derive(Debug, PartialEq, Eq)]
pub enum BoundClause {
    /// Every type parameter is required to be transcodable.
    Default,
    /// The author's where clause replaces the generated one.
    Override(String),
    /// No bound is added.
    Omit,
}

/// The bound clause that a type's annotations resolve to.
pub open spec fn bound_clause_spec(attrs: Seq<Attribute>) -> Result<BoundClause, ConfigError> {
    match single_arg_spec(
        attrs,
        bounds_path(),
        ArgKind::WhereClause,
        ConfigError::MalformedBounds,
        ConfigError::DuplicateBounds,
    ) {
        Err(e) => Err(e),
        Ok(Some(w)) => if has_path(attrs, omit_bounds_path()) {
            Err(ConfigError::BoundsWithOmit)
        } else {
            Ok(BoundClause::Override(w))
        },
        Ok(None) => if has_path(attrs, omit_bounds_path()) {
            Ok(BoundClause::Omit)
        } else {
            Ok(BoundClause::Default)
        },
    }
}

/// Resolves a type's annotations to exactly one of default, override and omit; an
/// override together with omit is refused, as are two overrides or a malformed one.
pub fn bound_clause(attrs: &Vec<Attribute>) -> (r: Result<BoundClause, ConfigError>)
    ensures
        r == bound_clause_spec(attrs@),
{
    let written = bounds(attrs)?;
    let omitted = omit_bounds(attrs);
    match written {
        Some(w) => if omitted {
            Err(ConfigError::BoundsWithOmit)
        } else {
            Ok(BoundClause::Override(w))
        },
        None => if omitted {
            Ok(BoundClause::Omit)
        } else {
            Ok(BoundClause::Default)
        },
    }
}

} // verus!
