use proc_workshop::debug::{
    derive_impl, get_uses_of_generics, DebugAttr, DebugError, DebugField, FieldFmt, GenArgModel,
    GenericParamModel, GenericsError, SegArgsModel, Segment, TypeModel,
};

fn path(text: &str, segs: Vec<(&str, SegArgsModel)>) -> TypeModel {
    TypeModel::Path(
        text.to_string(),
        segs.into_iter().map(|(i, a)| Segment { ident: i.to_string(), args: a }).collect(),
    )
}

fn field(name: &str, attr: Option<DebugAttr>, ty: TypeModel) -> DebugField {
    DebugField { name: name.to_string(), attr, ty }
}

#[test]
fn fields_with_and_without_format() {
    let fields = vec![
        field("name", None, path("String", vec![("String", SegArgsModel::NoArgs)])),
        field("bitmask", Some(DebugAttr::NameValueStr("0b{:08b}".to_string())), path("u8", vec![("u8", SegArgsModel::NoArgs)])),
    ];
    let plan = derive_impl(&"Field".to_string(), &fields, &vec![]).unwrap();
    assert_eq!(plan.name, "Field");
    assert!(matches!(plan.formats[0], FieldFmt::Plain));
    assert!(matches!(&plan.formats[1], FieldFmt::Format(s) if s == "0b{:08b}"));
    assert!(plan.bounds.is_empty());
}

#[test]
fn bounds_for_generic_fields() {
    let t = GenericParamModel::Type("T".to_string());
    let fields = vec![
        field("value", None, path("T", vec![("T", SegArgsModel::NoArgs)])),
        field(
            "next",
            None,
            path(
                "Option < Box < T > >",
                vec![("Option", SegArgsModel::Angle(vec![GenArgModel::Type(path(
                    "Box < T >",
                    vec![("Box", SegArgsModel::Angle(vec![GenArgModel::Type(path("T", vec![("T", SegArgsModel::NoArgs)]))]))],
                ))]))],
            ),
        ),
        field("marker", None, path("PhantomData < U >", vec![("PhantomData", SegArgsModel::Angle(vec![]))])),
        field("assoc", None, path("T :: Value", vec![("T", SegArgsModel::NoArgs), ("Value", SegArgsModel::NoArgs)])),
        field("pair", None, TypeModel::Tuple(vec![path("T", vec![("T", SegArgsModel::NoArgs)]), TypeModel::Other])),
    ];
    let plan = derive_impl(&"Node".to_string(), &fields, &vec![GenericParamModel::Lifetime, t]).unwrap();
    assert_eq!(plan.bounds, vec!["T".to_string(), "PhantomData < U >".to_string(), "T :: Value".to_string()]);
}

#[test]
fn generics_errors() {
    let fields = vec![field("x", None, path("u8", vec![("u8", SegArgsModel::NoArgs)]))];
    assert_eq!(
        derive_impl(&"S".to_string(), &fields, &vec![GenericParamModel::Const]).err(),
        Some(DebugError::Generics(GenericsError::ConstParam))
    );
    let fn_field = vec![field("f", None, path("Fn (T) -> T", vec![("Fn", SegArgsModel::Parenthesized)]))];
    assert_eq!(get_uses_of_generics(&vec![], &fn_field), Err(GenericsError::Parenthesized));
    let assoc = vec![field(
        "i",
        None,
        path("Box < dyn Iterator < Item = T > >", vec![("Box", SegArgsModel::Angle(vec![GenArgModel::Unsupported]))]),
    )];
    assert_eq!(get_uses_of_generics(&vec![], &assoc), Err(GenericsError::UnsupportedArg));
}

#[test]
fn attribute_errors() {
    let fields = vec![
        field("a", None, TypeModel::Other),
        field("b", Some(DebugAttr::NotNameValue), TypeModel::Other),
        field("c", Some(DebugAttr::NameValueLit), TypeModel::Other),
    ];
    assert_eq!(derive_impl(&"S".to_string(), &fields, &vec![]).err(), Some(DebugError::ExpectedNameValue(1)));
    let fields = vec![field("c", Some(DebugAttr::NameValueExpr), TypeModel::Other)];
    assert_eq!(
        derive_impl(&"S".to_string(), &fields, &vec![GenericParamModel::Const]).err(),
        Some(DebugError::ExpectedStrLit(0))
    );
}
