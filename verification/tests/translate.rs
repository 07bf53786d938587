use dap_codegen::error::{Failure, Problem};
use dap_codegen::ir::{Enum, Field, Object, ProtocolType, Type};
use dap_codegen::json::{find_member, Json, Member};
use dap_codegen::translate::{
    generate_protocol_types, is_any, is_enum_of, is_excluded, translate_all_of, translate_object,
    translate_type,
};

const ANY: &str = r#"{"type":["array","boolean","integer","null","number","object","string"]}"#;

fn definitions(text: &str) -> Vec<Member> {
    match Json::parse(text).unwrap() {
        Json::Object(mut members) => match members.remove(0).value {
            Json::Object(defs) => defs,
            other => panic!("definitions are {:?}", other),
        },
        other => panic!("document is {:?}", other),
    }
}

fn translate(defs_text: &str, node_text: &str) -> Result<Type, Failure> {
    let defs = definitions(&format!(r#"{{"definitions":{}}}"#, defs_text));
    let node = Json::parse(node_text).unwrap();
    translate_type(&defs, &node, &Vec::new())
}

fn reference(name: &str) -> Type {
    Type::Reference(name.to_string())
}

fn field(name: &str, ty: Type, required: bool) -> Field {
    Field { doc: None, name: name.to_string(), ty, required }
}

#[test]
fn parse_keeps_the_order_of_members() {
    let doc = Json::parse(r#"{"b":1,"a":[true,null,"x"],"c":{"z":2.5,"y":-3}}"#).unwrap();
    let Json::Object(members) = doc else { panic!() };
    let keys: Vec<&str> = members.iter().map(|m| m.key.as_str()).collect();
    assert_eq!(keys, ["b", "a", "c"]);
    assert!(matches!(&members[0].value, Json::Number(n) if n == "1"));
    let Json::Array(items) = &members[1].value else { panic!() };
    assert!(matches!(items[0], Json::Bool(true)));
    assert!(matches!(items[1], Json::Null));
    assert!(matches!(&items[2], Json::String(s) if s == "x"));
    let Json::Object(inner) = &members[2].value else { panic!() };
    assert_eq!(inner[0].key, "z");
    assert!(matches!(&inner[0].value, Json::Number(n) if n == "2.5"));
    assert!(matches!(&inner[1].value, Json::Number(n) if n == "-3"));
}

#[test]
fn parse_rejects_what_is_not_json() {
    assert_eq!(Json::parse("{\"a\":").unwrap_err(), Failure::Syntax);
    assert_eq!(Json::parse("").unwrap_err(), Failure::Syntax);
}

#[test]
fn get_finds_members_of_objects_only() {
    let doc = Json::parse(r#"{"a":1,"b":"x"}"#).unwrap();
    assert!(matches!(doc.get("b"), Some(Json::String(s)) if s == "x"));
    assert!(doc.get("c").is_none());
    assert!(Json::parse("[1]").unwrap().get("a").is_none());
    assert_eq!(doc.get("b").unwrap().as_str(), Some("x"));
    assert!(doc.get("a").unwrap().as_str().is_none());
    assert!(doc.as_array().is_none());
    assert_eq!(doc.as_object().unwrap().len(), 2);
    assert_eq!(find_member(doc.as_object().unwrap(), "b"), Some(1));
    assert_eq!(find_member(doc.as_object().unwrap(), "z"), None);
}

#[test]
fn all_seven_kinds_are_untyped() {
    assert_eq!(translate("{}", ANY), Ok(Type::Any));
    assert!(is_any(&Json::parse(ANY).unwrap()));
}

#[test]
fn the_order_of_the_kinds_matters() {
    let shuffled =
        r#"{"type":["boolean","array","integer","null","number","object","string"]}"#;
    assert!(!is_any(&Json::parse(shuffled).unwrap()));
    assert_eq!(translate("{}", shuffled), Err(Failure::MissingType));
}

#[test]
fn kinds_are_compared_one_by_one() {
    let node = Json::parse(r#"{"type":["string","null"]}"#).unwrap();
    assert!(is_enum_of(&node, ["string", "null"]));
    assert!(!is_enum_of(&node, ["null", "string"]));
    assert!(!is_enum_of(&node, ["string"]));
    assert!(!is_enum_of(&node, ["string", "null", "x"]));
    assert!(!is_enum_of(&Json::parse(r#"{"type":"string"}"#).unwrap(), ["string"]));
    assert!(!is_enum_of(&Json::parse(r#"{"type":["string",1]}"#).unwrap(), ["string", "null"]));
}

#[test]
fn string_or_null_is_an_optional_string() {
    assert_eq!(
        translate("{}", r#"{"type":["string","null"]}"#),
        Ok(Type::Optional(Box::new(reference("String"))))
    );
}

#[test]
fn integer_or_string_is_a_module_id() {
    assert_eq!(translate("{}", r#"{"type":["integer","string"]}"#), Ok(reference("ModuleId")));
}

#[test]
fn a_ref_is_a_reference_without_the_prefix() {
    assert_eq!(translate("{}", r##"{"$ref":"#/definitions/Source"}"##), Ok(reference("Source")));
}

#[test]
fn a_ref_wins_over_the_type_keyword() {
    assert_eq!(
        translate("{}", r##"{"type":"string","$ref":"#/definitions/Source"}"##),
        Ok(reference("Source"))
    );
}

#[test]
fn a_ref_needs_the_local_prefix() {
    assert_eq!(translate("{}", r#"{"$ref":"Source"}"#), Err(Failure::BadReference));
    assert_eq!(translate("{}", r#"{"$ref":7}"#), Err(Failure::BadReference));
}

#[test]
fn scalars_are_references_to_fixed_types() {
    assert_eq!(translate("{}", r#"{"type":"integer"}"#), Ok(reference("u64")));
    assert_eq!(translate("{}", r#"{"type":"number"}"#), Ok(reference("u64")));
    assert_eq!(translate("{}", r#"{"type":"boolean"}"#), Ok(reference("bool")));
    assert_eq!(translate("{}", r#"{"type":"string"}"#), Ok(reference("String")));
}

#[test]
fn an_unknown_kind_is_a_reference_of_that_name() {
    assert_eq!(translate("{}", r#"{"type":"Checksum"}"#), Ok(reference("Checksum")));
}

#[test]
fn a_node_without_type_matches_no_rule() {
    assert_eq!(translate("{}", r#"{"description":"x"}"#), Err(Failure::MissingType));
    assert_eq!(translate("{}", r#"{"type":["string"]}"#), Err(Failure::MissingType));
    assert_eq!(translate("{}", r#"{"type":1}"#), Err(Failure::MissingType));
    assert_eq!(translate("{}", "3"), Err(Failure::MissingType));
}

#[test]
fn enum_is_exhaustive_and_open_enum_is_not() {
    let closed = translate(
        "{}",
        r#"{"type":"string","description":"A color.","enum":["red","green"],"enumDescriptions":["Red.","Green."]}"#,
    );
    assert_eq!(
        closed,
        Ok(Type::Enum(Enum {
            doc: Some("A color.".to_string()),
            variants: vec!["red".to_string(), "green".to_string()],
            exhaustive: true,
            variant_descriptions: Some(vec!["Red.".to_string(), "Green.".to_string()]),
        }))
    );
    let open = translate("{}", r#"{"type":"string","_enum":["a","b"]}"#);
    assert_eq!(
        open,
        Ok(Type::Enum(Enum {
            doc: None,
            variants: vec!["a".to_string(), "b".to_string()],
            exhaustive: false,
            variant_descriptions: None,
        }))
    );
}

#[test]
fn enum_wins_over_open_enum() {
    let both = translate("{}", r#"{"type":"string","_enum":["a"],"enum":["b"]}"#);
    let Ok(Type::Enum(e)) = both else { panic!() };
    assert!(e.exhaustive);
    assert_eq!(e.variants, ["b"]);
}

#[test]
fn keywords_of_the_wrong_type_are_rejected() {
    assert_eq!(translate("{}", r#"{"type":"string","description":1}"#), Err(Failure::BadKeyword));
    assert_eq!(translate("{}", r#"{"type":"string","enum":"a"}"#), Err(Failure::BadKeyword));
    assert_eq!(translate("{}", r#"{"type":"string","enum":["a",1]}"#), Err(Failure::BadKeyword));
    assert_eq!(translate("{}", r#"{"type":"string","_enum":{}}"#), Err(Failure::BadKeyword));
    assert_eq!(
        translate("{}", r#"{"type":"string","enumDescriptions":[1]}"#),
        Err(Failure::BadKeyword)
    );
    assert_eq!(translate("{}", r#"{"type":"object","required":"a"}"#), Err(Failure::BadKeyword));
    assert_eq!(translate("{}", r#"{"type":"object","properties":[]}"#), Err(Failure::BadKeyword));
    assert_eq!(
        translate("{}", r#"{"type":"object","properties":{},"description":[]}"#),
        Err(Failure::BadKeyword)
    );
    assert_eq!(
        translate("{}", r#"{"type":"object","properties":{"a":{"type":"string","description":0}}}"#),
        Err(Failure::BadKeyword)
    );
    assert_eq!(translate("{}", r#"{"type":"array"}"#), Err(Failure::BadKeyword));
}

#[test]
fn a_free_form_object_is_untyped() {
    assert_eq!(
        translate("{}", r#"{"type":"object","additionalProperties":{"type":"string"}}"#),
        Ok(Type::Any)
    );
}

#[test]
fn an_object_with_properties_is_a_record() {
    let t = translate(
        "{}",
        r##"{"type":"object","description":"A thing.","additionalProperties":true,
            "properties":{"name":{"type":"string","description":"Its name."},
                          "size":{"type":"integer"},
                          "source":{"$ref":"#/definitions/Source"}},
            "required":["source","name"]}"##,
    );
    assert_eq!(
        t,
        Ok(Type::Object(Object {
            doc: Some("A thing.".to_string()),
            fields: vec![
                Field {
                    doc: Some("Its name.".to_string()),
                    name: "name".to_string(),
                    ty: reference("String"),
                    required: true,
                },
                field("size", reference("u64"), false),
                field("source", reference("Source"), true),
            ],
        }))
    );
}

#[test]
fn an_object_without_properties_is_an_empty_record() {
    assert_eq!(
        translate("{}", r#"{"type":"object"}"#),
        Ok(Type::Object(Object { doc: None, fields: vec![] }))
    );
}

#[test]
fn an_array_is_a_list_of_its_items() {
    assert_eq!(
        translate("{}", r#"{"type":"array","items":{"type":"array","items":{"type":"boolean"}}}"#),
        Ok(Type::List(Box::new(Type::List(Box::new(reference("bool"))))))
    );
    assert_eq!(
        translate("{}", &format!(r#"{{"type":"array","items":{}}}"#, ANY)),
        Ok(Type::List(Box::new(Type::Any)))
    );
}

#[test]
fn all_of_merges_its_members_in_order() {
    let defs = r##"{"Base":{"type":"object","description":"Base.","properties":{
                       "seq":{"type":"integer"},"type":{"type":"string"}},"required":["seq","type"]}}"##;
    let t = translate(
        defs,
        r##"{"allOf":[{"$ref":"#/definitions/Base"},
                      {"type":"object","properties":{"type":{"type":"string","enum":["request"]},
                                                     "command":{"type":"string"}},
                       "required":["command"]}]}"##,
    );
    let Ok(Type::Object(o)) = t else { panic!("{:?}", t) };
    assert_eq!(o.doc, Some("Base.".to_string()));
    let names: Vec<&str> = o.fields.iter().map(|f| f.name.as_str()).collect();
    assert_eq!(names, ["seq", "type", "command"]);
    assert!(o.fields[0].required);
    assert!(matches!(&o.fields[1].ty, Type::Enum(e) if e.variants == ["request"]));
    assert!(!o.fields[1].required);
    assert!(o.fields[2].required);
}

#[test]
fn the_later_member_of_an_all_of_wins() {
    let t = translate(
        "{}",
        r#"{"allOf":[{"type":"object","description":"First.","properties":{"x":{"type":"integer"},"y":{"type":"boolean"}},"required":["x"]},
                     {"type":"object","properties":{"x":{"type":"string"}}}]}"#,
    );
    assert_eq!(
        t,
        Ok(Type::Object(Object {
            doc: Some("First.".to_string()),
            fields: vec![field("x", reference("String"), false), field("y", reference("bool"), false)],
        }))
    );
}

#[test]
fn the_description_of_the_last_member_that_has_one_wins() {
    let t = translate(
        "{}",
        r#"{"allOf":[{"type":"object","description":"First."},
                     {"type":"object","description":"Second."},
                     {"type":"object"}]}"#,
    );
    assert_eq!(t, Ok(Type::Object(Object { doc: Some("Second.".to_string()), fields: vec![] })));
}

#[test]
fn an_all_of_admits_no_sibling_keys() {
    assert_eq!(
        translate("{}", r#"{"allOf":[],"description":"x"}"#),
        Err(Failure::AllOfSiblings)
    );
    assert_eq!(translate("{}", r#"{"allOf":{}}"#), Err(Failure::BadKeyword));
    assert_eq!(
        translate("{}", r#"{"allOf":[]}"#),
        Ok(Type::Object(Object { doc: None, fields: vec![] }))
    );
}

#[test]
fn the_members_of_an_all_of_are_objects() {
    assert_eq!(translate("{}", r#"{"allOf":[{"type":"string"}]}"#), Err(Failure::NotAnObject));
    assert_eq!(translate("{}", r#"{"allOf":[{}]}"#), Err(Failure::NotAnObject));
    assert_eq!(
        translate(r#"{"S":{"type":"string"}}"#, r##"{"allOf":[{"$ref":"#/definitions/S"}]}"##),
        Err(Failure::NotAnObject)
    );
}

#[test]
fn a_ref_in_an_all_of_names_a_definition() {
    assert_eq!(
        translate("{}", r##"{"allOf":[{"$ref":"#/definitions/Missing"}]}"##),
        Err(Failure::UnknownReference)
    );
    assert_eq!(translate("{}", r#"{"allOf":[{"$ref":"Missing"}]}"#), Err(Failure::BadReference));
}

#[test]
fn a_cycle_of_all_of_references_is_rejected() {
    let defs = r##"{"A":{"allOf":[{"$ref":"#/definitions/B"}]},
                   "B":{"allOf":[{"type":"object"},{"$ref":"#/definitions/A"}]}}"##;
    assert_eq!(
        translate(defs, r##"{"allOf":[{"$ref":"#/definitions/A"}]}"##),
        Err(Failure::CyclicReference)
    );
    let own = r##"{"A":{"allOf":[{"$ref":"#/definitions/A"}]}}"##;
    let doc = Json::parse(&format!(r#"{{"definitions":{}}}"#, own)).unwrap();
    assert_eq!(
        generate_protocol_types(&doc),
        Err(Problem { definition: "A".to_string(), failure: Failure::CyclicReference })
    );
}

#[test]
fn a_definition_may_be_merged_twice() {
    let defs = r##"{"Base":{"type":"object","properties":{"a":{"type":"integer"}}},
                   "Left":{"allOf":[{"$ref":"#/definitions/Base"}]},
                   "Right":{"allOf":[{"$ref":"#/definitions/Base"}]}}"##;
    let t = translate(
        defs,
        r##"{"allOf":[{"$ref":"#/definitions/Left"},{"$ref":"#/definitions/Right"}]}"##,
    );
    assert_eq!(
        t,
        Ok(Type::Object(Object { doc: None, fields: vec![field("a", reference("u64"), false)] }))
    );
}

#[test]
fn translate_object_asks_for_an_object() {
    let defs = Vec::new();
    let path = Vec::new();
    let node = Json::parse(r#"{"type":"string"}"#).unwrap();
    assert_eq!(translate_object(&defs, &node, &path), Err(Failure::NotAnObject));
    let node = Json::parse(r#"{"allOf":[{"type":"object","properties":{"a":{"type":"boolean"}}}]}"#)
        .unwrap();
    assert_eq!(
        translate_all_of(&defs, &node, &path),
        Ok(Object { doc: None, fields: vec![field("a", reference("bool"), false)] })
    );
}

#[test]
fn definitions_are_translated_in_document_order() {
    let doc = Json::parse(
        r##"{"definitions":{"Zed":{"type":"string","enum":["z"]},
                            "Request":{"type":"object"},
                            "Alpha":{"type":"object","properties":{"z":{"$ref":"#/definitions/Zed"}}}}}"##,
    )
    .unwrap();
    let types = generate_protocol_types(&doc).unwrap();
    assert_eq!(
        types,
        vec![
            ProtocolType {
                name: "Zed".to_string(),
                ty: Type::Enum(Enum {
                    doc: None,
                    variants: vec!["z".to_string()],
                    exhaustive: true,
                    variant_descriptions: None,
                }),
            },
            ProtocolType {
                name: "Alpha".to_string(),
                ty: Type::Object(Object { doc: None, fields: vec![field("z", reference("Zed"), false)] }),
            },
        ]
    );
}

#[test]
fn the_envelope_types_are_excluded() {
    for name in [
        "ProtocolMessage",
        "Request",
        "Event",
        "Response",
        "ErrorResponse",
        "RestartArguments",
        "LaunchRequestArguments",
        "AttachRequestArguments",
    ] {
        assert!(is_excluded(name), "{}", name);
    }
    assert!(!is_excluded("Source"));
    assert!(!is_excluded("request"));
    let doc = Json::parse(r#"{"definitions":{"Event":{"no":"schema"},"Response":3}}"#).unwrap();
    assert_eq!(generate_protocol_types(&doc), Ok(vec![]));
}

#[test]
fn a_document_needs_definitions() {
    assert_eq!(
        generate_protocol_types(&Json::parse("{}").unwrap()),
        Err(Problem { definition: String::new(), failure: Failure::NoDefinitions })
    );
    assert_eq!(
        generate_protocol_types(&Json::parse(r#"{"definitions":[]}"#).unwrap()),
        Err(Problem::of_document(Failure::NoDefinitions))
    );
}

#[test]
fn a_repeated_key_keeps_its_place_and_takes_the_last_value() {
    let doc = Json::parse(r#"{"a":1,"b":2,"a":3}"#).unwrap();
    let Json::Object(members) = doc else { panic!() };
    let keys: Vec<&str> = members.iter().map(|m| m.key.as_str()).collect();
    assert_eq!(keys, ["a", "b"]);
    assert!(matches!(&members[0].value, Json::Number(n) if n == "3"));
}

#[test]
fn accessors_give_the_shape_and_its_description() {
    let e = Type::Enum(Enum {
        doc: Some("E.".to_string()),
        variants: vec!["only".to_string()],
        exhaustive: true,
        variant_descriptions: None,
    });
    assert_eq!(e.as_enum().single_value(), "only");
    assert_eq!(e.doc(), Some("E.".to_string()));
    let o = Type::Object(Object {
        doc: Some("O.".to_string()),
        fields: vec![field("a", Type::Any, true), field("b", reference("u64"), false)],
    });
    assert_eq!(o.doc(), Some("O.".to_string()));
    assert_eq!(o.as_object().find_field("b"), Some(&field("b", reference("u64"), false)));
    assert_eq!(o.as_object().find_field("c"), None);
    assert_eq!(Type::Any.doc(), None);
    assert_eq!(reference("X").doc(), None);
    assert_eq!(Type::List(Box::new(e.clone())).doc(), None);
    assert_eq!(Type::reference("X"), reference("X"));
    assert_eq!(o.clone(), o);
}

#[test]
fn the_first_definition_that_fails_is_named() {
    let doc = Json::parse(
        r#"{"definitions":{"Fine":{"type":"object"},"Request":{"broken":true},
                           "Odd":{"type":"array"},"Worse":{}}}"#,
    )
    .unwrap();
    assert_eq!(generate_protocol_types(&doc), Err(Problem::at("Odd", Failure::BadKeyword)));
}

#[test]
fn an_enum_lists_a_value() {
    assert_eq!(translate("{}", r#"{"type":"string","enum":[]}"#), Err(Failure::EmptyEnum));
    assert_eq!(translate("{}", r#"{"type":"string","_enum":[]}"#), Err(Failure::EmptyEnum));
    assert_eq!(
        translate("{}", r#"{"type":"string","enum":["a"],"_enum":[]}"#).map(|t| t.as_enum().variants.len()),
        Ok(1)
    );
}
