//! What the generated procedures do, stated over an abstract transcoder.
//!
//! A value is modelled by its variant tag and the sequence of its field values in
//! declaration order. What a type's own transcoder does is left open: `enc` is what
//! it writes for a value, `dec` what it makes of an in-place image and the bytes
//! that follow, and `ext` the extent that it reports. The proofs below show what
//! the plan adds on top: given transcoders that round-trip field by field, the
//! generated procedures round-trip the whole value.

use vstd::prelude::*;

use crate::attrs::{bound_clause_spec, directive_spec, has_path, skip_path, BoundClause, ConfigError, Directive};
use crate::emit::{derive_error, implementation_spec, traversal_spec, Implementation, TraversalView};
use crate::plan::{arm_spec, arms_spec, bindings_spec, fields_plan, step_spec, steps_spec, ArmView, Step};
use crate::shape::{input_wf, style_of, Data, DeriveInput, Field, Fields, GenericParam, TypeBound, Variant};

verus! {

/// Each transcoder reads back exactly what it wrote, leaving what follows.
pub open spec fn codec_round_trips<V>(
    enc: spec_fn(Seq<char>, V) -> Seq<u8>,
    dec: spec_fn(Seq<char>, V, Seq<u8>) -> Option<(V, Seq<u8>)>,
) -> bool {
    forall|t: Seq<char>, v: V, rest: Seq<u8>| #[trigger] dec(t, v, enc(t, v) + rest) == Some((v, rest))
}

/// Each transcoder reports as its extent the number of bytes that it writes.
pub open spec fn extent_measures<V>(
    enc: spec_fn(Seq<char>, V) -> Seq<u8>,
    ext: spec_fn(Seq<char>, V) -> nat,
) -> bool {
    forall|t: Seq<char>, v: V| (#[trigger] enc(t, v)).len() == ext(t, v)
}

/// The bytes that entomb writes for the steps, in their order.
pub open spec fn entomb_steps<V>(
    steps: Seq<Step>,
    vals: Seq<V>,
    enc: spec_fn(Seq<char>, V) -> Seq<u8>,
) -> Seq<u8>
    decreases steps.len(),
{
    if steps.len() == 0 {
        Seq::empty()
    } else {
        let s = steps.last();
        entomb_steps(steps.drop_last(), vals, enc) + enc(s.transcoder@, vals[s.position as int])
    }
}

/// Exhume over the steps, in their order: each step repairs its field in place and
/// consumes a prefix of the remaining bytes; the first failure fails the whole.
pub open spec fn exhume_steps<V>(
    steps: Seq<Step>,
    image: Seq<V>,
    bytes: Seq<u8>,
    dec: spec_fn(Seq<char>, V, Seq<u8>) -> Option<(V, Seq<u8>)>,
) -> Option<(Seq<V>, Seq<u8>)>
    decreases steps.len(),
{
    if steps.len() == 0 {
        Some((image, bytes))
    } else {
        match exhume_steps(steps.drop_last(), image, bytes, dec) {
            None => None,
            Some((img, rest)) => {
                let s = steps.last();
                match dec(s.transcoder@, img[s.position as int], rest) {
                    None => None,
                    Some((v, left)) => Some((img.update(s.position as int, v), left)),
                }
            },
        }
    }
}

/// The extent that the generated extent procedure sums over the steps.
pub open spec fn extent_steps<V>(
    steps: Seq<Step>,
    vals: Seq<V>,
    ext: spec_fn(Seq<char>, V) -> nat,
) -> nat
    decreases steps.len(),
{
    if steps.len() == 0 {
        0
    } else {
        let s = steps.last();
        extent_steps(steps.drop_last(), vals, ext) + ext(s.transcoder@, vals[s.position as int])
    }
}

/// Every step reaches a field among the first `n`.
pub open spec fn positions_below(steps: Seq<Step>, n: int) -> bool {
    forall|k: int| 0 <= k < steps.len() ==> (#[trigger] steps[k]).position < n
}

proof fn lemma_steps_round_trip<V>(
    steps: Seq<Step>,
    vals: Seq<V>,
    rest: Seq<u8>,
    enc: spec_fn(Seq<char>, V) -> Seq<u8>,
    dec: spec_fn(Seq<char>, V, Seq<u8>) -> Option<(V, Seq<u8>)>,
)
    requires
        codec_round_trips(enc, dec),
        positions_below(steps, vals.len() as int),
    ensures
        exhume_steps(steps, vals, entomb_steps(steps, vals, enc) + rest, dec) == Some((vals, rest)),
    decreases steps.len(),
{
    if steps.len() > 0 {
        let s = steps.last();
        let p = s.position as int;
        let pre = steps.drop_last();
        let w = enc(s.transcoder@, vals[p]);
        assert(steps[steps.len() - 1] == s);
        assert(entomb_steps(steps, vals, enc) + rest =~= entomb_steps(pre, vals, enc) + (w + rest));
        assert(positions_below(pre, vals.len() as int)) by {
            assert forall|k: int| 0 <= k < pre.len() implies (#[trigger] pre[k]).position < vals.len() by {
                assert(pre[k] == steps[k]);
            }
        }
        lemma_steps_round_trip(pre, vals, w + rest, enc, dec);
        assert(dec(s.transcoder@, vals[p], w + rest) == Some((vals[p], rest)));
        assert(vals.update(p, vals[p]) =~= vals);
    }
}

proof fn lemma_steps_extent<V>(
    steps: Seq<Step>,
    vals: Seq<V>,
    enc: spec_fn(Seq<char>, V) -> Seq<u8>,
    ext: spec_fn(Seq<char>, V) -> nat,
)
    requires
        extent_measures(enc, ext),
    ensures
        entomb_steps(steps, vals, enc).len() == extent_steps(steps, vals, ext),
    decreases steps.len(),
{
    if steps.len() > 0 {
        let s = steps.last();
        lemma_steps_extent(steps.drop_last(), vals, enc, ext);
        assert(enc(s.transcoder@, vals[s.position as int]).len() == ext(
            s.transcoder@,
            vals[s.position as int],
        ));
    }
}

/// The field is left out of all three procedures.
pub open spec fn is_skipped(f: Field) -> bool {
    directive_spec(f.attrs@) matches Ok(Directive::Skip)
}

/// The fields of a flat field list, in declaration order.
pub open spec fn field_list(f: Fields) -> Seq<Field> {
    match f {
        Fields::Named(v) => v@,
        Fields::Unnamed(v) => v@,
        Fields::Unit => Seq::empty(),
    }
}

/// The steps visit fields in ascending declaration order, each with the step of
/// that field, and every field that is not skipped is visited.
pub open spec fn follows_declaration(steps: Seq<Step>, fields: Seq<Field>, named: bool) -> bool {
    &&& positions_below(steps, fields.len() as int)
    &&& forall|j: int, k: int|
        0 <= j < k < steps.len() ==> (#[trigger] steps[j]).position < (#[trigger] steps[k]).position
    &&& forall|k: int|
        0 <= k < steps.len() ==> step_spec(named, (#[trigger] steps[k]).position as int, fields[steps[k].position as int])
            == Ok::<Option<Step>, ConfigError>(Some(steps[k]))
    &&& forall|p: int|
        0 <= p < fields.len() && !is_skipped(#[trigger] fields[p]) ==> exists|k: int|
            0 <= k < steps.len() && (#[trigger] steps[k]).position == p
}

proof fn lemma_steps_follow(fields: Seq<Field>, named: bool)
    requires
        steps_spec(fields, named) is Ok,
        fields.len() <= usize::MAX,
    ensures
        follows_declaration(steps_spec(fields, named)->Ok_0, fields, named),
    decreases fields.len(),
{
    if fields.len() > 0 {
        let n = fields.len() as int;
        let pre = fields.drop_last();
        lemma_steps_follow(pre, named);
        let prev = steps_spec(pre, named)->Ok_0;
        let steps = steps_spec(fields, named)->Ok_0;
        assert(fields.last() == fields[n - 1]);
        assert forall|p: int| 0 <= p < n - 1 implies #[trigger] fields[p] == pre[p] by {}
        match step_spec(named, n - 1, fields.last()) {
            Ok(None) => {
                assert(steps == prev);
                assert(is_skipped(fields[n - 1]));
                assert forall|p: int| 0 <= p < fields.len() && !is_skipped(#[trigger] fields[p]) implies exists|k: int|
                    0 <= k < steps.len() && (#[trigger] steps[k]).position == p by {
                    assert(pre[p] == fields[p]);
                }
            },
            Ok(Some(s)) => {
                assert(steps == prev.push(s));
                assert(s.position as int == n - 1);
                assert forall|k: int| 0 <= k < prev.len() implies #[trigger] steps[k] == prev[k] by {}
                assert(steps[prev.len() as int] == s);
                assert forall|p: int| 0 <= p < fields.len() && !is_skipped(#[trigger] fields[p]) implies exists|k: int|
                    0 <= k < steps.len() && (#[trigger] steps[k]).position == p by {
                    if p == n - 1 {
                        assert(steps[prev.len() as int].position == p);
                    } else {
                        assert(pre[p] == fields[p]);
                        let k = choose|k: int| 0 <= k < prev.len() && (#[trigger] prev[k]).position == p;
                        assert(steps[k].position == p);
                    }
                }
                assert forall|k: int| 0 <= k < steps.len() implies step_spec(
                    named,
                    (#[trigger] steps[k]).position as int,
                    fields[steps[k].position as int],
                ) == Ok::<Option<Step>, ConfigError>(Some(steps[k])) by {
                    if k < prev.len() {
                        assert(prev[k].position < n - 1);
                    }
                }
                assert forall|j: int, k: int| 0 <= j < k < steps.len() implies (#[trigger] steps[j]).position
                    < (#[trigger] steps[k]).position by {
                    assert(prev.len() > j ==> prev[j].position < n - 1);
                }
            },
            Err(_) => {},
        }
    }
}

/// The order in which entomb writes the fields is their declaration order, and
/// exhume, which runs the same steps, consumes them in that order: step `k` handles
/// the `k`-th field that is not skipped, with the transcoder that its annotations
/// choose.
pub proof fn lemma_declaration_order(f: Fields)
    requires
        fields_plan(f) is Ok,
    ensures
        follows_declaration(fields_plan(f)->Ok_0, field_list(f), f is Named),
{
    match f {
        Fields::Named(v) => {
            assert(v@.len() == v.len());
            lemma_steps_follow(v@, true);
        },
        Fields::Unnamed(v) => {
            assert(v@.len() == v.len());
            lemma_steps_follow(v@, false);
        },
        Fields::Unit => {},
    }
}


/// The bytes that entomb writes for the value with variant `tag` (ignored for a
/// non-sum) and fields `vals`; none where the variant is skipped, whose arm fails.
pub open spec fn entomb_traversal<V>(
    t: TraversalView,
    tag: int,
    vals: Seq<V>,
    enc: spec_fn(Seq<char>, V) -> Seq<u8>,
) -> Option<Seq<u8>> {
    match t {
        TraversalView::Fields(s) => Some(entomb_steps(s, vals, enc)),
        TraversalView::Dispatch(arms) => if 0 <= tag < arms.len() {
            match arms[tag].body {
                Some(s) => Some(entomb_steps(s, vals, enc)),
                None => None,
            }
        } else {
            None
        },
    }
}

/// Exhume over an in-place image whose variant is `tag` and whose fields are
/// `image`: the repaired tag and fields and the unconsumed bytes, or none on failure.
pub open spec fn exhume_traversal<V>(
    t: TraversalView,
    tag: int,
    image: Seq<V>,
    bytes: Seq<u8>,
    dec: spec_fn(Seq<char>, V, Seq<u8>) -> Option<(V, Seq<u8>)>,
) -> Option<(int, Seq<V>, Seq<u8>)> {
    let run = |s: Seq<Step>|
        match exhume_steps(s, image, bytes, dec) {
            Some((img, rest)) => Some((tag, img, rest)),
            None => None,
        };
    match t {
        TraversalView::Fields(s) => run(s),
        TraversalView::Dispatch(arms) => if 0 <= tag < arms.len() {
            match arms[tag].body {
                Some(s) => run(s),
                None => None,
            }
        } else {
            None
        },
    }
}

/// The extent that the generated extent procedure reports; none where the variant
/// is skipped, whose arm fails.
pub open spec fn extent_traversal<V>(
    t: TraversalView,
    tag: int,
    vals: Seq<V>,
    ext: spec_fn(Seq<char>, V) -> nat,
) -> Option<nat> {
    match t {
        TraversalView::Fields(s) => Some(extent_steps(s, vals, ext)),
        TraversalView::Dispatch(arms) => if 0 <= tag < arms.len() {
            match arms[tag].body {
                Some(s) => Some(extent_steps(s, vals, ext)),
                None => None,
            }
        } else {
            None
        },
    }
}

/// A value of the subject: one field value per declared field of the struct, or of
/// the variant `tag`, which is not skipped.
pub open spec fn value_of_shape<V>(data: Data, tag: int, vals: Seq<V>) -> bool {
    match data {
        Data::Struct(f) => vals.len() == field_list(f).len(),
        Data::Enum(vs) => {
            &&& 0 <= tag < vs@.len()
            &&& vals.len() == field_list(vs@[tag].fields).len()
            &&& !has_path(vs@[tag].attrs@, skip_path())
        },
        Data::Union(_) => false,
    }
}

proof fn lemma_arms_each(vs: Seq<Variant>)
    requires
        arms_spec(vs) is Ok,
    ensures
        arms_spec(vs)->Ok_0.len() == vs.len(),
        forall|i: int|
            0 <= i < vs.len() ==> arm_spec(#[trigger] vs[i]) == Ok::<ArmView, ConfigError>(
                arms_spec(vs)->Ok_0[i],
            ),
    decreases vs.len(),
{
    if vs.len() > 0 {
        let pre = vs.drop_last();
        lemma_arms_each(pre);
        assert forall|i: int| 0 <= i < vs.len() implies arm_spec(#[trigger] vs[i]) == Ok::<ArmView, ConfigError>(
            arms_spec(vs)->Ok_0[i],
        ) by {
            if i < vs.len() - 1 {
                assert(vs[i] == pre[i]);
            }
        }
    }
}

/// Serializing a value and rehydrating the bytes in place gives back the same
/// variant and field values and leaves exactly the bytes that followed; the bytes
/// consumed are as many as the extent reports. This holds for every shape the
/// generator accepts, provided each field's transcoder round-trips on its own.
pub proof fn lemma_round_trip<V>(
    input: DeriveInput,
    tag: int,
    vals: Seq<V>,
    rest: Seq<u8>,
    enc: spec_fn(Seq<char>, V) -> Seq<u8>,
    dec: spec_fn(Seq<char>, V, Seq<u8>) -> Option<(V, Seq<u8>)>,
    ext: spec_fn(Seq<char>, V) -> nat,
)
    requires
        input_wf(input),
        derive_error(input) is None,
        value_of_shape(input.data, tag, vals),
        codec_round_trips(enc, dec),
        extent_measures(enc, ext),
    ensures
        ({
            let t = traversal_spec(input.data)->Ok_0;
            &&& entomb_traversal(t, tag, vals, enc) is Some
            &&& exhume_traversal(t, tag, vals, entomb_traversal(t, tag, vals, enc)->Some_0 + rest, dec)
                == Some((tag, vals, rest))
            &&& extent_traversal(t, tag, vals, ext) == Some(
                entomb_traversal(t, tag, vals, enc)->Some_0.len(),
            )
        }),
{
    match input.data {
        Data::Struct(f) => {
            lemma_declaration_order(f);
            let s = fields_plan(f)->Ok_0;
            lemma_steps_round_trip(s, vals, rest, enc, dec);
            lemma_steps_extent(s, vals, enc, ext);
        },
        Data::Enum(vs) => {
            lemma_arms_each(vs@);
            let v = vs@[tag];
            lemma_declaration_order(v.fields);
            let s = fields_plan(v.fields)->Ok_0;
            lemma_steps_round_trip(s, vals, rest, enc, dec);
            lemma_steps_extent(s, vals, enc, ext);
        },
        Data::Union(_) => {},
    }
}

proof fn lemma_steps_ignore<V>(
    steps: Seq<Step>,
    p: int,
    vals: Seq<V>,
    w: V,
    image: Seq<V>,
    bytes: Seq<u8>,
    enc: spec_fn(Seq<char>, V) -> Seq<u8>,
    dec: spec_fn(Seq<char>, V, Seq<u8>) -> Option<(V, Seq<u8>)>,
    ext: spec_fn(Seq<char>, V) -> nat,
)
    requires
        0 <= p < vals.len(),
        vals.len() == image.len(),
        positions_below(steps, image.len() as int),
        forall|k: int| 0 <= k < steps.len() ==> (#[trigger] steps[k]).position != p,
    ensures
        entomb_steps(steps, vals.update(p, w), enc) == entomb_steps(steps, vals, enc),
        extent_steps(steps, vals.update(p, w), ext) == extent_steps(steps, vals, ext),
        exhume_steps(steps, image, bytes, dec) matches Some((img, _)) ==> img.len() == image.len()
            && (0 <= p < image.len() ==> img[p] == image[p]),
    decreases steps.len(),
{
    if steps.len() > 0 {
        let pre = steps.drop_last();
        assert(steps.last() == steps[steps.len() - 1]);
        assert forall|k: int| 0 <= k < pre.len() implies (#[trigger] pre[k]).position != p
            && pre[k].position < image.len() by {
            assert(pre[k] == steps[k]);
        }
        lemma_steps_ignore(pre, p, vals, w, image, bytes, enc, dec, ext);
        let q = steps.last().position as int;
        assert(vals.update(p, w)[q] == vals[q]);
    }
}

/// A skipped field is absent from all three procedures: no step reaches it, the
/// bytes written and the extent do not depend on its value, and exhume leaves its
/// in-place image as it found it, so that no value of its type is ever built.
pub proof fn lemma_skipped_field<V>(
    f: Fields,
    p: int,
    vals: Seq<V>,
    w: V,
    image: Seq<V>,
    bytes: Seq<u8>,
    enc: spec_fn(Seq<char>, V) -> Seq<u8>,
    dec: spec_fn(Seq<char>, V, Seq<u8>) -> Option<(V, Seq<u8>)>,
    ext: spec_fn(Seq<char>, V) -> nat,
)
    requires
        fields_plan(f) is Ok,
        0 <= p < field_list(f).len(),
        is_skipped(field_list(f)[p]),
        vals.len() == field_list(f).len(),
        image.len() == field_list(f).len(),
    ensures
        ({
            let s = fields_plan(f)->Ok_0;
            &&& forall|k: int| 0 <= k < s.len() ==> (#[trigger] s[k]).position != p
            &&& entomb_steps(s, vals.update(p, w), enc) == entomb_steps(s, vals, enc)
            &&& extent_steps(s, vals.update(p, w), ext) == extent_steps(s, vals, ext)
            &&& exhume_steps(s, image, bytes, dec) matches Some((img, _)) ==> img[p] == image[p]
        }),
{
    lemma_declaration_order(f);
    let s = fields_plan(f)->Ok_0;
    let fl = field_list(f);
    assert forall|k: int| 0 <= k < s.len() implies (#[trigger] s[k]).position != p by {
        if s[k].position == p {
            assert(step_spec(f is Named, p, fl[p]) == Ok::<Option<Step>, ConfigError>(None));
        }
    }
    lemma_steps_ignore(s, p, vals, w, image, bytes, enc, dec, ext);
}

/// A field with a substitute transcoder is handled by the substitute type: its step
/// names the substitute and marks the field's memory for reinterpretation, so the
/// bytes written for it are the substitute's.
pub proof fn lemma_substitute(f: Fields, p: int, t: String)
    requires
        fields_plan(f) is Ok,
        0 <= p < field_list(f).len(),
        directive_spec(field_list(f)[p].attrs@) == Ok::<Directive, ConfigError>(Directive::Substitute(t)),
    ensures
        exists|k: int|
            0 <= k < fields_plan(f)->Ok_0.len() && (#[trigger] fields_plan(f)->Ok_0[k]).position == p
                && fields_plan(f)->Ok_0[k].transcoder == t && fields_plan(f)->Ok_0[k].substituted,
{
    lemma_declaration_order(f);
    let s = fields_plan(f)->Ok_0;
    let fl = field_list(f);
    assert(!is_skipped(fl[p]));
    let k = choose|k: int| 0 <= k < s.len() && (#[trigger] s[k]).position == p;
    assert(step_spec(f is Named, p, fl[p]) == Ok::<Option<Step>, ConfigError>(Some(s[k])));
}

/// A sum type with N variants gets exactly N dispatch arms, in declaration order, each
/// naming its variant and binding that variant's fields; an arm has a body exactly
/// when its variant is not skipped.
pub proof fn lemma_dispatch(input: DeriveInput)
    requires
        derive_error(input) is None,
        input.data is Enum,
    ensures
        ({
            let vs = input.data->Enum_0@;
            &&& traversal_spec(input.data)->Ok_0 matches TraversalView::Dispatch(arms)
            &&& arms.len() == vs.len()
            &&& forall|i: int| 0 <= i < vs.len() ==> {
                &&& (#[trigger] arms[i]).variant == vs[i].ident
                &&& arms[i].style == style_of(vs[i].fields)
                &&& arms[i].bindings == bindings_spec(vs[i].fields)
                &&& (arms[i].body is None <==> has_path(vs[i].attrs@, skip_path()))
            }
        }),
{
    let vs = input.data->Enum_0@;
    lemma_arms_each(vs);
    let arms = arms_spec(vs)->Ok_0;
    assert forall|i: int| 0 <= i < vs.len() implies {
        &&& (#[trigger] arms[i]).variant == vs[i].ident
        &&& arms[i].style == style_of(vs[i].fields)
        &&& arms[i].bindings == bindings_spec(vs[i].fields)
        &&& (arms[i].body is None <==> has_path(vs[i].attrs@, skip_path()))
    } by {
        assert(arm_spec(vs[i]) == Ok::<ArmView, ConfigError>(arms[i]));
    }
}

/// The arm of a skipped variant fails in all three procedures.
pub proof fn lemma_skipped_variant<V>(
    input: DeriveInput,
    tag: int,
    vals: Seq<V>,
    bytes: Seq<u8>,
    enc: spec_fn(Seq<char>, V) -> Seq<u8>,
    dec: spec_fn(Seq<char>, V, Seq<u8>) -> Option<(V, Seq<u8>)>,
    ext: spec_fn(Seq<char>, V) -> nat,
)
    requires
        derive_error(input) is None,
        input.data is Enum,
        0 <= tag < input.data->Enum_0@.len(),
        has_path(input.data->Enum_0@[tag].attrs@, skip_path()),
    ensures
        ({
            let t = traversal_spec(input.data)->Ok_0;
            &&& entomb_traversal(t, tag, vals, enc) is None
            &&& exhume_traversal(t, tag, vals, bytes, dec) is None
            &&& extent_traversal(t, tag, vals, ext) is None
        }),
{
    lemma_dispatch(input);
}

/// A type parameter that carries the transcoding capability among its bounds.
pub open spec fn requires_capability(q: GenericParam) -> bool {
    q matches GenericParam::Type { bounds, .. } && bounds@.contains(TypeBound::Transcodable)
}

/// With the default bound clause, every type parameter of the implementation is
/// required to be transcodable; with bounds omitted, the parameters and the where
/// clause stay exactly as the type declares them.
pub proof fn lemma_bound_propagation(input: DeriveInput, imp: Implementation)
    requires
        implementation_spec(input, imp),
    ensures
        bound_clause_spec(input.attrs@) == Ok::<BoundClause, ConfigError>(BoundClause::Default) ==> {
            &&& imp.generics@.len() == input.generics@.len()
            &&& forall|i: int|
                0 <= i < input.generics@.len() && (#[trigger] input.generics@[i]) is Type
                    ==> requires_capability(imp.generics@[i])
        },
        bound_clause_spec(input.attrs@) == Ok::<BoundClause, ConfigError>(BoundClause::Omit) ==> {
            &&& imp.generics == input.generics
            &&& imp.where_clause == input.where_clause
        },
{
    if bound_clause_spec(input.attrs@) == Ok::<BoundClause, ConfigError>(BoundClause::Default) {
        assert forall|i: int|
            0 <= i < input.generics@.len() && (#[trigger] input.generics@[i]) is Type
                implies requires_capability(imp.generics@[i]) by {
            let q = imp.generics@[i];
            assert(crate::emit::with_capability(input.generics@[i], q));
            if let GenericParam::Type { bounds, .. } = q {
                assert(bounds@[bounds@.len() - 1] == TypeBound::Transcodable);
            }
        }
    }
}

} // verus!
