use graphql_dynamic::enum_type::{Enum, EnumItem};
use graphql_dynamic::field::{Field, FieldValue};
use graphql_dynamic::input_value::InputValue;
use graphql_dynamic::object::Object;
use graphql_dynamic::named_map::NamedMap;
use graphql_dynamic::registry::{Deprecation, MetaField, MetaType, Registry};
use graphql_dynamic::schema::{check_schema, SchemaBuilder};
use graphql_dynamic::schema_error::SchemaError;
use graphql_dynamic::type_ref::{is_valid_name, TypeRef};
use graphql_dynamic::value::{Error, Value};

fn meta_field(name: &str, ty: &str) -> MetaField {
    MetaField {
        name: name.to_string(),
        description: None,
        args: NamedMap::new(),
        ty: ty.to_string(),
        deprecation: Deprecation::NoDeprecated,
    }
}

fn object(name: &str, fields: Vec<(&str, &str)>, implements: Vec<&str>) -> MetaType {
    let mut map = NamedMap::new();
    for (f, t) in fields {
        map.insert(f.to_string(), meta_field(f, t));
    }
    MetaType::Object {
        name: name.to_string(),
        description: None,
        fields: map,
        implements: implements.into_iter().map(|s| s.to_string()).collect(),
        inaccessible: false,
        tags: vec![],
    }
}

fn interface(name: &str, fields: Vec<(&str, &str)>, possible: Vec<&str>) -> MetaType {
    let mut map = NamedMap::new();
    for (f, t) in fields {
        map.insert(f.to_string(), meta_field(f, t));
    }
    MetaType::Interface {
        name: name.to_string(),
        description: None,
        fields: map,
        possible_types: possible.into_iter().map(|s| s.to_string()).collect(),
        inaccessible: false,
        tags: vec![],
    }
}

fn scalar(name: &str) -> MetaType {
    MetaType::Scalar { name: name.to_string(), description: None, inaccessible: false, tags: vec![] }
}

#[test]
fn type_ref_formats_in_graphql_syntax() {
    let t = TypeRef::named("Foo").non_null().list().non_null();
    assert_eq!(t.to_text(), "[Foo!]!");
    assert_eq!(TypeRef::named_list("Int").to_text(), "[Int]");
    assert_eq!(TypeRef::named_nn("Int").to_text(), "Int!");
    assert_eq!(t.base_type(), "Foo");
    assert!(t.is_non_null());
}

#[test]
fn type_ref_parse_round_trip() {
    for text in ["Foo", "Foo!", "[Foo]", "[Foo!]!", "[[Int]!]", "_x9"] {
        let t = TypeRef::parse(text).unwrap();
        assert_eq!(t.to_text(), text);
    }
}

#[test]
fn type_ref_parse_rejects_malformed_text() {
    for text in ["", "[Foo", "Foo]", "!", "[]", "9a", "a b", "[Foo]]"] {
        assert!(TypeRef::parse(text).is_none(), "{}", text);
    }
    assert!(is_valid_name("_a1"));
    assert!(!is_valid_name("1a"));
}

#[test]
fn named_map_keeps_first_insertion_order_and_last_value() {
    let mut m: NamedMap<u32> = NamedMap::new();
    m.insert("b".to_string(), 1);
    m.insert("a".to_string(), 2);
    m.insert("b".to_string(), 3);
    assert_eq!(m.len(), 2);
    assert_eq!(m.key_at(0), "b");
    assert_eq!(*m.value_at(0), 3);
    assert_eq!(m.key_at(1), "a");
    assert_eq!(m.get("a"), Some(&2));
    assert_eq!(m.get("c"), None);
    assert!(m.contains_key("b"));
}

#[test]
fn enum_register_keeps_item_order() {
    let e = Enum::new("MyEnum")
        .description("letters")
        .item(EnumItem::new("B"))
        .item(EnumItem::new("A").description("first"))
        .item(EnumItem::new("C"));
    assert_eq!(e.name(), "MyEnum");
    assert_eq!(e.type_ref().to_text(), "MyEnum");
    let mut registry = Registry::new("Query");
    assert!(e.register(&mut registry).is_ok());
    match registry.get_type("MyEnum").unwrap() {
        MetaType::Enum { name, description, enum_values, .. } => {
            assert_eq!(name, "MyEnum");
            assert_eq!(description.as_deref(), Some("letters"));
            let keys: Vec<&str> = (0..enum_values.len()).map(|i| enum_values.key_at(i).as_str()).collect();
            assert_eq!(keys, vec!["B", "A", "C"]);
            assert_eq!(enum_values.get("A").unwrap().description.as_deref(), Some("first"));
        },
        other => panic!("not an enum: {:?}", other),
    }
}

#[test]
fn enum_item_added_twice_is_replaced_in_place() {
    let e = Enum::new("E").item(EnumItem::new("X")).item(EnumItem::new("Y")).item(EnumItem::new("X").description("again"));
    assert_eq!(e.enum_values.len(), 2);
    assert_eq!(e.enum_values.key_at(0), "X");
    assert_eq!(e.enum_values.value_at(0).description.as_deref(), Some("again"));
}

#[test]
fn input_value_registered_form() {
    let v = InputValue::new("input", TypeRef::named("Int").non_null().list())
        .description("numbers")
        .default_value(Value::List(vec![Value::Int(-42), Value::Int(7)]));
    let m = v.to_meta_input_value();
    assert_eq!(m.name, "input");
    assert_eq!(m.description.as_deref(), Some("numbers"));
    assert_eq!(m.ty, "[Int!]");
    assert_eq!(m.default_value.as_deref(), Some("[-42, 7]"));
    assert!(!m.is_secret);
    let plain = InputValue::new("x", TypeRef::named("String")).to_meta_input_value();
    assert_eq!(plain.default_value, None);
}

#[test]
fn value_text_forms() {
    assert_eq!(Value::Null.to_text(), "null");
    assert_eq!(Value::Boolean(true).to_text(), "true");
    assert_eq!(Value::Boolean(false).to_text(), "false");
    assert_eq!(Value::Int(0).to_text(), "0");
    assert_eq!(Value::Int(i64::MIN).to_text(), "-9223372036854775808");
    assert_eq!(Value::Int(1234).to_text(), "1234");
    assert_eq!(Value::Float("1.5".to_string()).to_text(), "1.5");
    assert_eq!(Value::String("a\"b\\c\n".to_string()).to_text(), "\"a\\\"b\\\\c\\n\"");
    assert_eq!(Value::Enum("RED".to_string()).to_text(), "RED");
    assert_eq!(Value::Variable("v".to_string()).to_text(), "$v");
    let obj = Value::Object(vec![
        ("a".to_string(), Value::Int(1)),
        ("b".to_string(), Value::List(vec![])),
    ]);
    assert_eq!(obj.to_text(), "{a: 1, b: []}");
}

#[test]
fn field_value_accessors() {
    let v: FieldValue<'_, u32> = FieldValue::value(Value::Int(3));
    assert!(matches!(v.as_value(), Some(Value::Int(3))));
    assert!(matches!(v.try_to_value(), Ok(Value::Int(3))));
    assert!(v.as_list().is_none());
    assert_eq!(v.try_to_list().unwrap_err().message, "internal: not a list");
    assert!(v.downcast_ref().is_none());
    assert_eq!(v.try_downcast_ref("u32").unwrap_err().message, "internal: not type \"u32\"");

    let l: FieldValue<'_, u32> = FieldValue::list(vec![FieldValue::null(), FieldValue::owned_any(5)]);
    assert!(l.as_value().is_none());
    assert_eq!(l.try_to_value().unwrap_err().message, "internal: not a Value");
    assert_eq!(l.as_list().unwrap().len(), 2);
    assert_eq!(l.try_to_list().unwrap()[1].downcast_ref(), Some(&5));

    let x = 9u32;
    let b: FieldValue<'_, u32> = FieldValue::borrowed_any(&x);
    assert_eq!(b.try_downcast_ref("u32").ok(), Some(&9));
    let w: FieldValue<'_, u32> = FieldValue::with_type(FieldValue::owned_any(1), "MyObj");
    match w {
        FieldValue::WithType { ty, value } => {
            assert_eq!(ty, "MyObj");
            assert_eq!(value.downcast_ref(), Some(&1));
        },
        _ => panic!("expected a typed value"),
    }
    assert!(FieldValue::<u32>::none().is_none());
    assert_eq!(Error::new("boom").message, "boom");
}

#[test]
fn field_builder_adds_arguments_in_order() {
    let f = Field::new("value2", TypeRef::named("MyEnum"), 7u8)
        .description("echo")
        .argument(InputValue::new("input", TypeRef::named("MyEnum")))
        .argument(InputValue::new("other", TypeRef::named("Int")));
    assert_eq!(f.name, "value2");
    assert_eq!(f.description.as_deref(), Some("echo"));
    assert_eq!(f.arguments.len(), 2);
    assert_eq!(f.arguments.key_at(0), "input");
    assert_eq!(f.arguments.key_at(1), "other");
    assert_eq!(f.resolver_fn, 7u8);
    assert_eq!(f.ty.to_text(), "MyEnum");
}

#[test]
fn finish_accepts_a_closed_schema() {
    let reg = SchemaBuilder::build("Query", None, None)
        .register(interface("Node", vec![("id", "Int!")], vec!["Item"]))
        .register(object("Item", vec![("id", "Int!"), ("n", "[Int]")], vec!["Node"]))
        .register(object("Query", vec![("item", "Item"), ("a", "Int")], vec![]))
        .register_enum(Enum::new("MyEnum").item(EnumItem::new("A")))
        .finish()
        .unwrap();
    assert_eq!(reg.types.len(), 9);
    assert!(check_schema(&reg).is_ok());
}

#[test]
fn finish_reports_duplicate_type() {
    let r = SchemaBuilder::build("Query", None, None)
        .register(object("Query", vec![], vec![]))
        .register(scalar("Query"))
        .finish();
    assert!(matches!(r, Err(SchemaError::DuplicateType { name }) if name == "Query"));
}

#[test]
fn finish_reports_missing_root() {
    let r = SchemaBuilder::build("Query", Some("Mutation"), None)
        .register(object("Query", vec![], vec![]))
        .finish();
    assert!(matches!(r, Err(SchemaError::MissingRootType { which }) if which == "mutation"));
    let r = SchemaBuilder::build("Query", None, None).register(scalar("Query")).finish();
    assert!(matches!(r, Err(SchemaError::MissingRootType { which }) if which == "query"));
}

#[test]
fn finish_reports_unknown_type() {
    let r = SchemaBuilder::build("Query", None, None)
        .register(object("Query", vec![("a", "[Missing!]")], vec![]))
        .finish();
    assert!(matches!(r, Err(SchemaError::UnknownType { name, referenced_from }) if name == "[Missing!]" && referenced_from == "Query"));
}

#[test]
fn finish_reports_missing_interface_field() {
    let r = SchemaBuilder::build("Query", None, None)
        .register(interface("Node", vec![("id", "Int!"), ("name", "Int")], vec![]))
        .register(object("Query", vec![("id", "Int!")], vec!["Node"]))
        .finish();
    assert!(matches!(r, Err(SchemaError::InvalidImplementation { object, interface, .. }) if object == "Query" && interface == "Node"));
}

#[test]
fn finish_reports_interface_field_of_another_type() {
    let r = SchemaBuilder::build("Query", None, None)
        .register(interface("Node", vec![("id", "Int!")], vec![]))
        .register(object("Query", vec![("id", "Int")], vec!["Node"]))
        .finish();
    assert!(matches!(r, Err(SchemaError::InvalidImplementation { .. })));
}

#[test]
fn finish_reports_union_member_that_is_not_an_object() {
    let r = SchemaBuilder::build("Query", None, None)
        .register(object("Query", vec![], vec![]))
        .register(MetaType::Union {
            name: "U".to_string(),
            description: None,
            possible_types: vec!["Query".to_string(), "Int".to_string()],
            inaccessible: false,
            tags: vec![],
        })
        .finish();
    assert!(matches!(r, Err(SchemaError::InvalidUnionMember { union_name, member, .. }) if union_name == "U" && member == "Int"));
}

#[test]
fn field_value_from_conversions() {
    let v: FieldValue<'_, u32> = Value::Int(4).into();
    assert!(matches!(v.as_value(), Some(Value::Int(4))));
    let n: FieldValue<'_, u32> = ().into();
    assert!(matches!(n.as_value(), Some(Value::Null)));
}

#[test]
fn field_registered_form_keeps_argument_order() {
    let f = Field::new("value2", TypeRef::named("MyEnum").non_null(), ())
        .argument(InputValue::new("b", TypeRef::named("Int")).default_value(Value::Int(5)))
        .argument(InputValue::new("a", TypeRef::named("MyEnum")));
    let m = f.to_meta_field();
    assert_eq!(m.name, "value2");
    assert_eq!(m.ty, "MyEnum!");
    assert_eq!(m.args.len(), 2);
    assert_eq!(m.args.key_at(0), "b");
    assert_eq!(m.args.value_at(0).default_value.as_deref(), Some("5"));
    assert_eq!(m.args.key_at(1), "a");
    assert!(matches!(m.deprecation, Deprecation::NoDeprecated));
}

#[test]
fn object_builder_registers_fields_in_order() {
    let o = Object::new("Query")
        .description("root")
        .field(Field::new("value", TypeRef::named("MyEnum"), 1u8))
        .field(Field::new("value2", TypeRef::named("MyEnum"), 2u8).argument(InputValue::new("input", TypeRef::named("MyEnum"))))
        .field(Field::new("errValue", TypeRef::named("MyEnum"), 3u8))
        .implement("Node")
        .implement("Node");
    assert_eq!(o.implements, vec!["Node".to_string()]);
    assert_eq!(o.name(), "Query");
    assert_eq!(o.type_ref().to_text(), "Query");
    let mut registry = Registry::new("Query");
    assert!(o.register(&mut registry).is_ok());
    match registry.get_type("Query").unwrap() {
        MetaType::Object { fields, implements, description, .. } => {
            let keys: Vec<&str> = (0..fields.len()).map(|i| fields.key_at(i).as_str()).collect();
            assert_eq!(keys, vec!["value", "value2", "errValue"]);
            assert_eq!(fields.get("value2").unwrap().args.key_at(0), "input");
            assert_eq!(implements, &vec!["Node".to_string()]);
            assert_eq!(description.as_deref(), Some("root"));
        },
        other => panic!("not an object: {:?}", other),
    }
}

#[test]
fn enum_schema_builds_and_rejects_unknown_enum() {
    let query = || {
        Object::new("Query")
            .field(Field::new("value", TypeRef::named("MyEnum"), 0u8))
            .field(Field::new("value2", TypeRef::named("MyEnum"), 0u8).argument(InputValue::new("input", TypeRef::named("MyEnum"))))
            .field(Field::new("errValue", TypeRef::named("MyEnum"), 0u8))
    };
    let ok = SchemaBuilder::build("Query", None, None)
        .register_enum(Enum::new("MyEnum").item(EnumItem::new("A")).item(EnumItem::new("B")))
        .register_object(query())
        .finish();
    assert!(ok.is_ok());
    let missing = SchemaBuilder::build("Query", None, None).register_object(query()).finish();
    assert!(matches!(missing, Err(SchemaError::UnknownType { name, .. }) if name == "MyEnum"));
    let twice = SchemaBuilder::build("Query", None, None)
        .register_object(query())
        .register_enum(Enum::new("Query"))
        .finish();
    assert!(matches!(twice, Err(SchemaError::DuplicateType { name }) if name == "Query"));
}

#[test]
fn implementation_may_narrow_field_types() {
    let r = SchemaBuilder::build("Query", None, None)
        .register(interface("Node", vec![("next", "Node"), ("all", "[Node]"), ("n", "Int")], vec!["Item"]))
        .register(object("Item", vec![("next", "Item!"), ("all", "[Item!]!"), ("n", "Int!")], vec!["Node"]))
        .register(object("Query", vec![("item", "Item")], vec![]))
        .finish();
    assert!(r.is_ok());
    let r = SchemaBuilder::build("Query", None, None)
        .register(interface("Node", vec![("n", "Int")], vec![]))
        .register(object("Query", vec![("n", "[Int]")], vec!["Node"]))
        .finish();
    assert!(matches!(r, Err(SchemaError::InvalidImplementation { .. })));
}

#[test]
fn doubled_non_null_is_rejected() {
    assert!(TypeRef::parse("Int!!").is_none());
    assert!(TypeRef::parse("[Int!]!").is_some());
    let doubled = TypeRef::named("Int").non_null().non_null();
    assert_eq!(doubled.to_text(), "Int!!");
    let r = SchemaBuilder::build("Query", None, None)
        .register(object("Query", vec![("a", "Int!!")], vec![]))
        .finish();
    assert!(matches!(r, Err(SchemaError::UnknownType { name, referenced_from }) if name == "Int!!" && referenced_from == "Query"));
}

#[test]
fn interface_possible_type_must_list_the_interface() {
    let r = SchemaBuilder::build("Query", None, None)
        .register(interface("Node", vec![("id", "Int")], vec!["Query"]))
        .register(object("Query", vec![("id", "Int")], vec![]))
        .finish();
    assert!(matches!(r, Err(SchemaError::InvalidImplementation { object, interface, .. }) if object == "Query" && interface == "Node"));
}

#[test]
fn unknown_implemented_interface_is_named() {
    let r = SchemaBuilder::build("Query", None, None)
        .register(object("Query", vec![], vec!["Ghost"]))
        .finish();
    assert!(matches!(r, Err(SchemaError::UnknownType { name, referenced_from }) if name == "Ghost" && referenced_from == "Query"));
}

#[test]
fn build_registers_the_builtin_scalars() {
    let reg = SchemaBuilder::build("Query", None, None).register(object("Query", vec![("a", "Int")], vec![])).finish().unwrap();
    let names: Vec<&str> = (0..reg.types.len()).map(|i| reg.types.key_at(i).as_str()).collect();
    assert_eq!(names, vec!["Int", "Float", "String", "Boolean", "ID", "Query"]);
    assert_eq!(reg.directives.len(), 0);
    let dup = SchemaBuilder::build("Query", None, None).register(object("Query", vec![], vec![])).register(scalar("Int")).finish();
    assert!(matches!(dup, Err(SchemaError::DuplicateType { name }) if name == "Int"));
}

#[test]
fn field_value_from_a_list() {
    let l: FieldValue<'_, u32> = vec![FieldValue::null(), FieldValue::value(Value::Int(1))].into();
    assert_eq!(l.as_list().unwrap().len(), 2);
}
