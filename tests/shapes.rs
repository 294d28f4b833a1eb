use abomonation_derive::attrs::Attribute;
use abomonation_derive::emit::{derive_abomonation, Implementation, Traversal};
use abomonation_derive::plan::{Arm, ArmBody, Member, Step};
use abomonation_derive::shape::{Data, DeriveInput, Field, Fields, GenericParam, Style, TypeBound, Variant};

fn named(name: &str, ty: &str) -> Field {
    Field { ident: Some(name.to_string()), ty: ty.to_string(), attrs: vec![] }
}

fn unnamed(ty: &str) -> Field {
    Field { ident: None, ty: ty.to_string(), attrs: vec![] }
}

fn input(ident: &str, data: Data) -> DeriveInput {
    DeriveInput { ident: ident.to_string(), attrs: vec![], generics: vec![], where_clause: None, data }
}

fn variant(ident: &str, fields: Fields) -> Variant {
    Variant { ident: ident.to_string(), attrs: vec![], fields }
}

fn plain(member: Member, position: usize, ty: &str) -> Step {
    Step { member, position, transcoder: ty.to_string(), substituted: false }
}

fn field_steps(imp: &Implementation) -> &Vec<Step> {
    match &imp.traversal {
        Traversal::Fields(steps) => steps,
        Traversal::Dispatch(_) => panic!("expected a field traversal"),
    }
}

fn arms(imp: &Implementation) -> &Vec<Arm> {
    match &imp.traversal {
        Traversal::Dispatch(arms) => arms,
        Traversal::Fields(_) => panic!("expected a dispatch"),
    }
}

fn arm_steps(arm: &Arm) -> &Vec<Step> {
    match &arm.body {
        ArmBody::Steps(steps) => steps,
        ArmBody::Unreachable => panic!("expected steps"),
    }
}

fn check_struct() {
    let subject = input(
        "Struct",
        Data::Struct(Fields::Named(vec![named("a", "String"), named("b", "u64"), named("c", "Vec<u8>")])),
    );
    let imp = derive_abomonation(subject).unwrap();
    assert!(imp.ident == "Struct");
    assert!(imp.generics.is_empty());
    assert!(imp.where_clause.is_none());
    assert_eq!(
        field_steps(&imp),
        &vec![
            plain(Member::Named("a".to_string()), 0, "String"),
            plain(Member::Named("b".to_string()), 1, "u64"),
            plain(Member::Named("c".to_string()), 2, "Vec<u8>"),
        ]
    );
}

fn check_empty_struct() {
    let imp = derive_abomonation(input("EmptyStruct", Data::Struct(Fields::Unit))).unwrap();
    assert!(imp.ident == "EmptyStruct");
    assert!(field_steps(&imp).is_empty());
}

fn check_tuple_struct() {
    let subject = input(
        "TupleStruct",
        Data::Struct(Fields::Unnamed(vec![unnamed("String"), unnamed("u64"), unnamed("Vec<u8>")])),
    );
    let imp = derive_abomonation(subject).unwrap();
    assert_eq!(
        field_steps(&imp),
        &vec![
            plain(Member::Unnamed(0), 0, "String"),
            plain(Member::Unnamed(1), 1, "u64"),
            plain(Member::Unnamed(2), 2, "Vec<u8>"),
        ]
    );
}

#[test]
fn test_generic_struct() {
    let written = |name: &str| GenericParam::Type {
        name: name.to_string(),
        bounds: vec![TypeBound::Written("::abomonation::Abomonation".to_string())],
    };
    let mut subject = input(
        "GenericStruct",
        Data::Struct(Fields::Unnamed(vec![unnamed("T"), unnamed("u64"), unnamed("U")])),
    );
    subject.generics = vec![written("T"), written("U")];
    let imp = derive_abomonation(subject).unwrap();
    let bounded = |name: &str| GenericParam::Type {
        name: name.to_string(),
        bounds: vec![
            TypeBound::Written("::abomonation::Abomonation".to_string()),
            TypeBound::Transcodable,
        ],
    };
    assert_eq!(imp.generics, vec![bounded("T"), bounded("U")]);
    assert_eq!(
        field_steps(&imp),
        &vec![
            plain(Member::Unnamed(0), 0, "T"),
            plain(Member::Unnamed(1), 1, "u64"),
            plain(Member::Unnamed(2), 2, "U"),
        ]
    );
}

#[test]
fn test_basic_enum() {
    let subject = input(
        "BasicEnum",
        Data::Enum(vec![
            variant("Apples", Fields::Unit),
            variant("Pears", Fields::Unit),
            variant("Chicken", Fields::Unit),
        ]),
    );
    let imp = derive_abomonation(subject).unwrap();
    let arms = arms(&imp);
    assert_eq!(arms.len(), 3);
    let names: Vec<&str> = arms.iter().map(|a| a.variant.as_str()).collect();
    assert_eq!(names, vec!["Apples", "Pears", "Chicken"]);
    for arm in arms {
        assert_eq!(arm.style, Style::Unit);
        assert!(arm.bindings.is_empty());
        assert!(arm_steps(arm).is_empty());
    }
}

#[test]
fn test_data_enum() {
    let subject = input(
        "DataEnum",
        Data::Enum(vec![
            variant("A", Fields::Unnamed(vec![unnamed("String"), unnamed("u64"), unnamed("Vec<u8>")])),
            variant("B", Fields::Unit),
            variant("C", Fields::Unnamed(vec![unnamed("String"), unnamed("String"), unnamed("String")])),
        ]),
    );
    let imp = derive_abomonation(subject).unwrap();
    let arms = arms(&imp);
    assert_eq!(arms.len(), 3);
    assert!(arms[0].variant == "A");
    assert_eq!(arms[0].style, Style::Tuple);
    assert_eq!(arms[0].bindings, vec![Member::Unnamed(0), Member::Unnamed(1), Member::Unnamed(2)]);
    assert_eq!(
        arm_steps(&arms[0]),
        &vec![
            plain(Member::Unnamed(0), 0, "String"),
            plain(Member::Unnamed(1), 1, "u64"),
            plain(Member::Unnamed(2), 2, "Vec<u8>"),
        ]
    );
    assert!(arms[1].variant == "B");
    assert_eq!(arms[1].style, Style::Unit);
    assert!(arm_steps(&arms[1]).is_empty());
    assert!(arms[2].variant == "C");
    assert_eq!(arm_steps(&arms[2]).len(), 3);
}

#[test]
fn record_variant_binds_its_field_names() {
    let subject = input(
        "Shape",
        Data::Enum(vec![
            variant("Point", Fields::Named(vec![named("x", "u32"), named("y", "u32")])),
            variant("Wrapped", Fields::Unnamed(vec![unnamed("u8")])),
        ]),
    );
    let imp = derive_abomonation(subject).unwrap();
    let arms = arms(&imp);
    assert_eq!(arms[0].style, Style::Struct);
    assert_eq!(arms[0].bindings, vec![Member::Named("x".to_string()), Member::Named("y".to_string())]);
    assert_eq!(
        arm_steps(&arms[0]),
        &vec![plain(Member::Named("x".to_string()), 0, "u32"), plain(Member::Named("y".to_string()), 1, "u32")]
    );
    assert_eq!(arms[1].style, Style::Newtype);
    assert_eq!(arms[1].bindings, vec![Member::Unnamed(0)]);
}

#[test]
fn declaration_order_decides_the_layout() {
    let forward = derive_abomonation(input(
        "R",
        Data::Struct(Fields::Named(vec![named("a", "u8"), named("b", "u64")])),
    ))
    .unwrap();
    let backward = derive_abomonation(input(
        "R",
        Data::Struct(Fields::Named(vec![named("b", "u64"), named("a", "u8")])),
    ))
    .unwrap();
    assert_eq!(field_steps(&forward)[0].member, Member::Named("a".to_string()));
    assert_eq!(field_steps(&backward)[0].member, Member::Named("b".to_string()));
    assert_ne!(field_steps(&forward), field_steps(&backward));
}

#[test]
fn skipped_variant_gets_a_failing_arm() {
    let mut hidden = variant("Hidden", Fields::Unnamed(vec![unnamed("Rc<u8>")]));
    hidden.attrs = vec![Attribute { path: "abomonation_skip".to_string(), args: None }];
    let imp = derive_abomonation(input("E", Data::Enum(vec![variant("Shown", Fields::Unit), hidden]))).unwrap();
    let arms = arms(&imp);
    assert_eq!(arms.len(), 2);
    assert!(matches!(arms[1].body, ArmBody::Unreachable));
    assert_eq!(arms[1].bindings, vec![Member::Unnamed(0)]);
    assert!(matches!(arms[0].body, ArmBody::Steps(_)));
}

#[test]
fn lib_test_struct() {
    check_struct();
}

#[test]
fn test_test_struct() {
    check_struct();
}

#[test]
fn lib_test_empty_struct() {
    check_empty_struct();
}

#[test]
fn test_test_empty_struct() {
    check_empty_struct();
}

#[test]
fn lib_test_tuple_struct() {
    check_tuple_struct();
}

#[test]
fn test_test_tuple_struct() {
    check_tuple_struct();
}
