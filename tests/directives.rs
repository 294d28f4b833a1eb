use abomonation_derive::attrs::{
    pick_single, Candidate, bound_clause, bounds, field_directive, omit_bounds, skip, with, Attribute, BoundClause, ConfigError, Directive,
};
use abomonation_derive::emit::{add_trait_bounds, derive_abomonation, Traversal};
use abomonation_derive::plan::{derive_named_fields, derive_unnamed_fields, Member, Step};
use abomonation_derive::shape::{get_style, Data, DeriveInput, Field, Fields, GenericParam, Style, TypeBound, Variant};

fn attr(path: &str, args: Option<&str>) -> Attribute {
    Attribute { path: path.to_string(), args: args.map(|a| a.to_string()) }
}

fn field(name: &str, ty: &str, attrs: Vec<Attribute>) -> Field {
    Field { ident: Some(name.to_string()), ty: ty.to_string(), attrs }
}

fn subject(attrs: Vec<Attribute>, generics: Vec<GenericParam>, data: Data) -> DeriveInput {
    DeriveInput {
        ident: "S".to_string(),
        attrs,
        generics,
        where_clause: Some("where T: Clone".to_string()),
        data,
    }
}

fn type_param(name: &str) -> GenericParam {
    GenericParam::Type { name: name.to_string(), bounds: vec![] }
}

#[test]
fn skip_and_omit_bounds_recognize_their_paths() {
    assert!(skip(&vec![attr("doc", Some("x")), attr("abomonation_skip", None)]));
    assert!(!skip(&vec![attr("abomonation_skipped", None)]));
    assert!(!skip(&vec![]));
    assert!(omit_bounds(&vec![attr("abomonation_omit_bounds", None)]));
    assert!(!omit_bounds(&vec![attr("abomonation_skip", None)]));
}

#[test]
fn with_reads_one_substitute_type() {
    assert_eq!(with(&vec![]), Ok(None));
    assert_eq!(with(&vec![attr("serde", Some("rename = \"x\""))]), Ok(None));
    assert_eq!(
        with(&vec![attr("abomonate_with", Some("Vec<u8>"))]),
        Ok(Some("Vec<u8>".to_string()))
    );
}

#[test]
fn with_refuses_two_substitutes() {
    let attrs = vec![attr("abomonate_with", Some("u8")), attr("abomonate_with", Some("u16"))];
    assert_eq!(with(&attrs), Err(ConfigError::DuplicateSubstitute));
}

#[test]
fn with_refuses_what_is_not_a_type() {
    assert_eq!(with(&vec![attr("abomonate_with", Some("1 +"))]), Err(ConfigError::MalformedSubstitute));
    assert_eq!(with(&vec![attr("abomonate_with", None)]), Err(ConfigError::MalformedSubstitute));
    let attrs = vec![attr("abomonate_with", Some("u8")), attr("abomonate_with", Some("u8 u8"))];
    assert_eq!(with(&attrs), Err(ConfigError::MalformedSubstitute));
}

#[test]
fn bounds_reads_one_where_clause() {
    assert_eq!(bounds(&vec![]), Ok(None));
    assert_eq!(
        bounds(&vec![attr("abomonation_bounds", Some("where T: Clone"))]),
        Ok(Some("where T: Clone".to_string()))
    );
    assert_eq!(
        bounds(&vec![attr("abomonation_bounds", Some("T: Clone"))]),
        Err(ConfigError::MalformedBounds)
    );
    let two = vec![attr("abomonation_bounds", Some("where T: Clone")), attr("abomonation_bounds", Some("where U: Copy"))];
    assert_eq!(bounds(&two), Err(ConfigError::DuplicateBounds));
}

#[test]
fn field_directive_resolves_each_kind() {
    assert_eq!(field_directive(&vec![attr("doc", None)]), Ok(Directive::Plain));
    assert_eq!(field_directive(&vec![attr("abomonation_skip", None)]), Ok(Directive::Skip));
    assert_eq!(
        field_directive(&vec![attr("abomonate_with", Some("u64"))]),
        Ok(Directive::Substitute("u64".to_string()))
    );
    assert_eq!(
        field_directive(&vec![attr("abomonation_skip", None), attr("abomonate_with", Some("u64"))]),
        Err(ConfigError::SkippedSubstitute)
    );
}

#[test]
fn bound_clause_resolves_each_kind() {
    assert_eq!(bound_clause(&vec![]), Ok(BoundClause::Default));
    assert_eq!(bound_clause(&vec![attr("abomonation_omit_bounds", None)]), Ok(BoundClause::Omit));
    assert_eq!(
        bound_clause(&vec![attr("abomonation_bounds", Some("where T: Copy"))]),
        Ok(BoundClause::Override("where T: Copy".to_string()))
    );
    assert_eq!(
        bound_clause(&vec![attr("abomonation_bounds", Some("where T: Copy")), attr("abomonation_omit_bounds", None)]),
        Err(ConfigError::BoundsWithOmit)
    );
}

#[test]
fn skipped_field_has_no_step() {
    let fields = vec![
        field("a", "u8", vec![]),
        field("b", "Rc<u8>", vec![attr("abomonation_skip", None)]),
        field("c", "u16", vec![]),
    ];
    let steps = derive_named_fields(&fields).unwrap();
    assert_eq!(
        steps,
        vec![
            Step { member: Member::Named("a".to_string()), position: 0, transcoder: "u8".to_string(), substituted: false },
            Step { member: Member::Named("c".to_string()), position: 2, transcoder: "u16".to_string(), substituted: false },
        ]
    );
}

#[test]
fn substitute_replaces_the_declared_type() {
    let fields = vec![
        Field { ident: None, ty: "Wrapper".to_string(), attrs: vec![attr("abomonate_with", Some("Vec<u32>"))] },
        Field { ident: None, ty: "u8".to_string(), attrs: vec![] },
    ];
    let steps = derive_unnamed_fields(&fields).unwrap();
    assert_eq!(steps[0].transcoder, "Vec<u32>");
    assert!(steps[0].substituted);
    assert_eq!(steps[0].member, Member::Unnamed(0));
    assert_eq!(steps[1].transcoder, "u8");
    assert!(!steps[1].substituted);
}

#[test]
fn first_refused_field_decides_the_error() {
    let fields = vec![
        field("a", "u8", vec![attr("abomonate_with", Some("u8")), attr("abomonate_with", Some("u8"))]),
        field("b", "u8", vec![attr("abomonate_with", Some("!"))]),
    ];
    assert_eq!(derive_named_fields(&fields), Err(ConfigError::DuplicateSubstitute));
}

#[test]
fn default_bounds_require_the_capability() {
    let generics = vec![
        GenericParam::Lifetime { name: "'a".to_string(), outlives: vec![] },
        GenericParam::Type { name: "T".to_string(), bounds: vec![TypeBound::Written("Clone".to_string())] },
        GenericParam::Const { name: "N".to_string(), ty: "usize".to_string() },
    ];
    let out = add_trait_bounds(generics);
    assert_eq!(
        out,
        vec![
            GenericParam::Lifetime { name: "'a".to_string(), outlives: vec![] },
            GenericParam::Type {
                name: "T".to_string(),
                bounds: vec![TypeBound::Written("Clone".to_string()), TypeBound::Transcodable],
            },
            GenericParam::Const { name: "N".to_string(), ty: "usize".to_string() },
        ]
    );
}

#[test]
fn omitted_bounds_keep_the_generics() {
    let imp = derive_abomonation(subject(
        vec![attr("abomonation_omit_bounds", None)],
        vec![type_param("T")],
        Data::Struct(Fields::Unit),
    ))
    .unwrap();
    assert_eq!(imp.generics, vec![type_param("T")]);
    assert_eq!(imp.where_clause, Some("where T: Clone".to_string()));
}

#[test]
fn override_replaces_the_where_clause() {
    let imp = derive_abomonation(subject(
        vec![attr("abomonation_bounds", Some("where T: Copy"))],
        vec![type_param("T")],
        Data::Struct(Fields::Unit),
    ))
    .unwrap();
    assert_eq!(imp.generics, vec![type_param("T")]);
    assert_eq!(imp.where_clause, Some("where T: Copy".to_string()));
}

#[test]
fn default_keeps_the_where_clause_and_adds_bounds() {
    let imp = derive_abomonation(subject(vec![], vec![type_param("T")], Data::Struct(Fields::Unit))).unwrap();
    assert_eq!(
        imp.generics,
        vec![GenericParam::Type { name: "T".to_string(), bounds: vec![TypeBound::Transcodable] }]
    );
    assert_eq!(imp.where_clause, Some("where T: Clone".to_string()));
    assert!(matches!(imp.traversal, Traversal::Fields(ref s) if s.is_empty()));
}

#[test]
fn union_is_refused() {
    let r = derive_abomonation(subject(vec![], vec![], Data::Union(vec![field("a", "u8", vec![])])));
    assert_eq!(r.unwrap_err(), ConfigError::UnsupportedShape);
}

#[test]
fn body_errors_come_before_type_errors() {
    let data = Data::Struct(Fields::Named(vec![field("a", "u8", vec![attr("abomonate_with", None)])]));
    let r = derive_abomonation(subject(
        vec![attr("abomonation_bounds", Some("where")), attr("abomonation_omit_bounds", None)],
        vec![],
        data,
    ));
    assert_eq!(r.unwrap_err(), ConfigError::MalformedSubstitute);
    let r = derive_abomonation(subject(
        vec![attr("abomonation_bounds", Some("where T: Copy")), attr("abomonation_omit_bounds", None)],
        vec![],
        Data::Struct(Fields::Unit),
    ));
    assert_eq!(r.unwrap_err(), ConfigError::BoundsWithOmit);
}

#[test]
fn skipped_variant_fields_are_not_examined() {
    let hidden = Variant {
        ident: "Hidden".to_string(),
        attrs: vec![attr("abomonation_skip", None)],
        fields: Fields::Unnamed(vec![Field {
            ident: None,
            ty: "u8".to_string(),
            attrs: vec![attr("abomonate_with", Some("1 +"))],
        }]),
    };
    assert!(derive_abomonation(subject(vec![], vec![], Data::Enum(vec![hidden]))).is_ok());
}

#[test]
fn style_follows_the_field_list() {
    let v = |fields: Fields| Variant { ident: "V".to_string(), attrs: vec![], fields };
    assert_eq!(get_style(&v(Fields::Unit)), Style::Unit);
    assert_eq!(get_style(&v(Fields::Named(vec![]))), Style::Struct);
    assert_eq!(get_style(&v(Fields::Unnamed(vec![Field { ident: None, ty: "u8".to_string(), attrs: vec![] }]))), Style::Newtype);
    assert_eq!(get_style(&v(Fields::Unnamed(vec![]))), Style::Tuple);
}

#[test]
fn pick_single_decides_on_given_parse_outcomes() {
    let c = |arg: Option<&str>, parses: bool| Candidate { arg: arg.map(|a| a.to_string()), parses };
    let (m, d) = (ConfigError::MalformedBounds, ConfigError::DuplicateBounds);
    assert_eq!(pick_single(vec![], m, d), Ok(None));
    assert_eq!(pick_single(vec![c(Some("x"), true)], m, d), Ok(Some("x".to_string())));
    assert_eq!(pick_single(vec![c(Some("x"), true), c(Some("y"), true)], m, d), Err(d));
    assert_eq!(pick_single(vec![c(Some("x"), true), c(None, false)], m, d), Err(m));
}
