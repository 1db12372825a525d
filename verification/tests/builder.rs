use proc_workshop::builder::{
    build_result, classify_fields, Action, BuildStep, BuilderField, DeriveData, FieldAttr,
    FieldKind, FieldTy, FieldsOutcome, GenericArg, Param, SegArgs, Slot,
};
use proc_workshop::tokens::Token;

fn plain(name: &str, ty: &str) -> BuilderField {
    BuilderField { name: name.to_string(), ty: FieldTy::Path(ty.to_string(), SegArgs::NoArgs), attrs: vec![] }
}

fn each(name: &str, key: &str, method: &str) -> BuilderField {
    BuilderField {
        name: name.to_string(),
        ty: FieldTy::Path("Vec".to_string(), SegArgs::Angle(GenericArg::Type)),
        attrs: vec![FieldAttr::List(vec![
            Token::Ident(key.to_string(), 0),
            Token::Punct('=', false, 0),
            Token::Literal(format!("\"{}\"", method), 0),
        ])],
    }
}

fn command() -> Vec<BuilderField> {
    vec![
        plain("executable", "String"),
        each("args", "each", "arg"),
        each("env", "each", "env"),
        BuilderField {
            name: "current_dir".to_string(),
            ty: FieldTy::Path("Option".to_string(), SegArgs::Angle(GenericArg::Type)),
            attrs: vec![],
        },
    ]
}

#[test]
fn builder_for_command() {
    let plan = proc_workshop::builder::derive(&"Command".to_string(), &DeriveData::NamedStruct(command())).unwrap().ok().unwrap();
    assert_eq!(plan.builder_name, "CommandBuilder");
    assert_eq!(plan.slots, vec![Slot::OptionOfField, Slot::VecOfInner, Slot::VecOfInner, Slot::OptionOfInner]);
    let methods: Vec<(usize, String, Param, Action)> =
        plan.methods.iter().map(|m| (m.field, m.name.clone(), m.param, m.action)).collect();
    assert_eq!(
        methods,
        vec![
            (0, "executable".to_string(), Param::FieldType, Action::SetSome),
            (1, "arg".to_string(), Param::Inner, Action::Push),
            (1, "args".to_string(), Param::VecOfInner, Action::Assign),
            (2, "env".to_string(), Param::Inner, Action::Push),
            (3, "current_dir".to_string(), Param::Inner, Action::SetSome),
        ]
    );
    match &plan.steps[0] {
        BuildStep::Required(m) => assert_eq!(m, "executable wasn't initialized!"),
        BuildStep::Cloned => panic!("executable must be required"),
    }
    assert!(matches!(plan.steps[1], BuildStep::Cloned));
    assert!(matches!(plan.steps[3], BuildStep::Cloned));
}

#[test]
fn build_fails_on_first_unset_required_field() {
    let steps = vec![
        BuildStep::Required("a wasn't initialized!".to_string()),
        BuildStep::Cloned,
        BuildStep::Required("c wasn't initialized!".to_string()),
    ];
    assert_eq!(build_result(&steps, &vec![true, false, true]), Ok(()));
    assert_eq!(build_result(&steps, &vec![false, false, false]), Err("a wasn't initialized!".to_string()));
    assert_eq!(build_result(&steps, &vec![true, false, false]), Err("c wasn't initialized!".to_string()));
}

#[test]
fn wrong_attribute_is_an_error() {
    let fields = vec![plain("executable", "String"), each("args", "eac", "arg")];
    assert!(matches!(proc_workshop::builder::derive(&"Command".to_string(), &DeriveData::NamedStruct(fields)), Some(Err(1))));
}

#[test]
fn panicking_inputs() {
    assert!(proc_workshop::builder::derive(&"E".to_string(), &DeriveData::Other).is_none());
    let bad_literal = BuilderField {
        name: "args".to_string(),
        ty: FieldTy::Path("Vec".to_string(), SegArgs::Angle(GenericArg::Type)),
        attrs: vec![FieldAttr::List(vec![
            Token::Ident("each".to_string(), 0),
            Token::Punct('=', false, 0),
            Token::Literal("r\"arg\"".to_string(), 0),
        ])],
    };
    assert!(proc_workshop::builder::derive(&"C".to_string(), &DeriveData::NamedStruct(vec![bad_literal])).is_none());
    let not_path = BuilderField { name: "f".to_string(), ty: FieldTy::NotPath, attrs: vec![] };
    assert!(matches!(classify_fields(&vec![plain("a", "u8"), not_path]), FieldsOutcome::Panic(1)));
    // an error before a panicking field decides
    let fields = vec![each("a", "x", "y"), BuilderField { name: "f".to_string(), ty: FieldTy::NotPath, attrs: vec![] }];
    assert!(matches!(classify_fields(&fields), FieldsOutcome::Error(0)));
}

#[test]
fn method_named_as_field() {
    let plan = proc_workshop::builder::derive(&"S".to_string(), &DeriveData::NamedStruct(vec![each("env", "each", "env")])).unwrap().ok().unwrap();
    assert_eq!(plan.methods.len(), 1);
    assert_eq!(plan.methods[0].name, "env");
    match classify_fields(&vec![each("env", "each", "env")]) {
        FieldsOutcome::Kinds(k) => assert!(matches!(&k[0], FieldKind::Each(s) if s == "env")),
        _ => panic!("field refused"),
    }
}
