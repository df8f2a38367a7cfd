use beff_core::api::{
    parse_pattern_params, trim_description_comments, BffFileName, Diagnostic,
    DiagnosticInformation, HeaderOrCookie, Loc, MethodKind, ParameterIn, WasmDiagnostic,
    WasmDiagnosticInformation,
};
use beff_core::api::{
    extract_items_from_array, is_type_simple, keyword_to_json_schema,
    operation_parameter_in_path_or_query_or_body, unmatched_path_params, FunctionParameterIn,
    KeywordKind,
};
use beff_core::codec::DecodeError;
use beff_core::open_api::Definition;
use beff_core::schema::{Json, JsonSchema};
use beff_core::text::{string_of, with_number};

#[test]
fn method_names_and_lengths() {
    let all = [
        (MethodKind::Get, "get"),
        (MethodKind::Post, "post"),
        (MethodKind::Put, "put"),
        (MethodKind::Delete, "delete"),
        (MethodKind::Patch, "patch"),
        (MethodKind::Options, "options"),
        (MethodKind::Use, "use"),
    ];
    for (m, name) in all {
        assert_eq!(m.text(), name);
        assert_eq!(m.text_len(), name.len());
    }
}

#[test]
fn parameter_places() {
    assert_eq!(ParameterIn::Query.text(), "query");
    assert_eq!(ParameterIn::Header.text(), "header");
    assert_eq!(ParameterIn::Path.text(), "path");
    assert_eq!(HeaderOrCookie::Header.text(), "header");
    assert_eq!(HeaderOrCookie::Cookie.text(), "cookie");
}

#[test]
fn pattern_params() {
    assert_eq!(parse_pattern_params("/users/{id}"), vec!["id".to_string()]);
    assert_eq!(
        parse_pattern_params("/a/{b}/c/{d}"),
        vec!["b".to_string(), "d".to_string()]
    );
    assert!(parse_pattern_params("/plain/path").is_empty());
    assert!(parse_pattern_params("").is_empty());
    assert_eq!(parse_pattern_params("x}"), vec!["x".to_string()]);
}

#[test]
fn description_trimming() {
    assert_eq!(trim_description_comments("hello  * \n".to_string()), "hello");
    assert_eq!(trim_description_comments("a * b **".to_string()), "a * b");
    assert_eq!(trim_description_comments("".to_string()), "");
    assert_eq!(trim_description_comments(" *\t".to_string()), "");
    assert_eq!(trim_description_comments("keep".to_string()), "keep");
}

#[test]
fn file_names() {
    let f = BffFileName::new("src/router.ts".to_string());
    assert_eq!(f.as_str(), "src/router.ts");
    assert_eq!(f.text(), "src/router.ts".to_string());
    assert_eq!(f.clone(), f);
}

#[test]
fn text_building() {
    assert_eq!(string_of(&vec!['a', 'b', 'c']), "abc");
    assert_eq!(string_of(&vec![]), "");
    assert_eq!(with_number("t_", 0), "t_0");
    assert_eq!(with_number("t_", 1207), "t_1207");
    assert_eq!(with_number("", u64::MAX), u64::MAX.to_string());
}

#[test]
fn integers_as_json_numbers() {
    assert_eq!(Json::parse_int(123), Json::Number("123".into()));
    assert_eq!(Json::parse_int(0), Json::Number("0".into()));
    assert_eq!(Json::parse_int(-45), Json::Number("-45".into()));
    assert_eq!(
        Json::parse_int(i64::MIN),
        Json::Number(i64::MIN.to_string())
    );
}

#[test]
fn diagnostics_are_flattened() {
    let known = DiagnosticInformation::KnownFile {
        message: "bad type".into(),
        file_name: "a.ts".into(),
        loc_lo: Loc { line: 1, col: 2 },
        loc_hi: Loc { line: 3, col: 4 },
    };
    let unknown = DiagnosticInformation::UnknownFile {
        message: "lost".into(),
        current_file: "b.ts".into(),
    };
    let w = WasmDiagnostic::from_diagnostics(vec![
        Diagnostic {
            cause: known,
            related_information: Some(vec![unknown]),
            message: "first".into(),
        },
        Diagnostic {
            cause: DiagnosticInformation::UnknownFile {
                message: "m".into(),
                current_file: "c.ts".into(),
            },
            related_information: None,
            message: "second".into(),
        },
    ]);
    assert_eq!(w.diagnostics.len(), 2);
    match &w.diagnostics[0].cause {
        WasmDiagnosticInformation::KnownFile {
            message,
            file_name,
            line_lo,
            col_lo,
            line_hi,
            col_hi,
        } => {
            assert_eq!(message, "bad type");
            assert_eq!(file_name, "a.ts");
            assert_eq!((*line_lo, *col_lo, *line_hi, *col_hi), (1, 2, 3, 4));
        }
        _ => panic!("expected a known file"),
    }
    let related = w.diagnostics[0].related_information.as_ref().unwrap();
    assert_eq!(related.len(), 1);
    assert!(matches!(
        &related[0],
        WasmDiagnosticInformation::UnknownFile { current_file, .. } if current_file == "b.ts"
    ));
    assert_eq!(w.diagnostics[1].message, "second");
    assert!(w.diagnostics[1].related_information.is_none());
}

#[test]
fn schema_documents() {
    let doc = JsonSchema::Ref("User".into()).to_json();
    assert_eq!(
        doc,
        Json::Object(vec![(
            "$ref".into(),
            Json::String("#/components/schemas/User".into())
        )])
    );
    let doc = JsonSchema::any_of(vec![
        JsonSchema::Const(Json::String("a".into())),
        JsonSchema::Const(Json::String("b".into())),
    ])
    .to_json();
    assert_eq!(
        doc,
        Json::Object(vec![(
            "enum".into(),
            Json::Array(vec![Json::String("a".into()), Json::String("b".into())])
        )])
    );
    let doc = JsonSchema::Tuple {
        prefix_items: vec![JsonSchema::Null],
        items: None,
    }
    .to_json();
    assert_eq!(
        doc,
        Json::Object(vec![
            ("type".into(), Json::String("array".into())),
            (
                "prefixItems".into(),
                Json::Array(vec![Json::Object(vec![(
                    "type".into(),
                    Json::String("null".into())
                )])])
            ),
            ("minItems".into(), Json::Number("1".into())),
            ("maxItems".into(), Json::Number("1".into())),
        ])
    );
}

#[test]
fn schema_decoding_errors() {
    assert_eq!(
        JsonSchema::from_json(&Json::Null).err(),
        Some(DecodeError::NotASchema)
    );
    assert_eq!(
        JsonSchema::from_json(&Json::Object(vec![(
            "type".into(),
            Json::String("bogus".into())
        )]))
        .err(),
        Some(DecodeError::NotASchema)
    );
    assert_eq!(
        JsonSchema::from_json(&Json::Object(vec![("$ref".into(), Json::Bool(true))])).err(),
        Some(DecodeError::BadKeyword("$ref".into()))
    );
    assert_eq!(
        JsonSchema::from_json(&Json::Object(vec![(
            "$ref".into(),
            Json::String("#/elsewhere/X".into())
        )]))
        .err(),
        Some(DecodeError::BadKeyword("$ref".into()))
    );
    assert_eq!(
        JsonSchema::from_json(&Json::Object(vec![("anyOf".into(), Json::Null)])).err(),
        Some(DecodeError::BadKeyword("anyOf".into()))
    );
    assert_eq!(
        JsonSchema::from_json(&Json::Object(vec![])).unwrap(),
        JsonSchema::Any
    );
}

#[test]
fn parameter_locations() {
    let components = vec![
        Definition {
            name: "Id".into(),
            schema: JsonSchema::any_of(vec![JsonSchema::String, JsonSchema::Number]),
        },
        Definition {
            name: "Body".into(),
            schema: JsonSchema::object(vec![("a".into(), JsonSchema::String.required())]),
        },
        Definition {
            name: "Loop".into(),
            schema: JsonSchema::Ref("Loop".into()),
        },
    ];
    let params = vec!["id".to_string()];
    let at = |name: &str, s: JsonSchema| {
        operation_parameter_in_path_or_query_or_body(name, &params, &s, &components)
    };
    assert_eq!(at("id", JsonSchema::Ref("Id".into())), Some(FunctionParameterIn::Path));
    assert_eq!(
        at("id", JsonSchema::Ref("Body".into())),
        Some(FunctionParameterIn::InvalidComplexPathParameter)
    );
    assert_eq!(at("q", JsonSchema::Boolean), Some(FunctionParameterIn::Query));
    assert_eq!(at("b", JsonSchema::Array(Box::new(JsonSchema::Null))), Some(FunctionParameterIn::Body));
    assert_eq!(at("x", JsonSchema::Ref("Missing".into())), None);
    assert_eq!(at("x", JsonSchema::Ref("Loop".into())), None);
    assert_eq!(
        is_type_simple(
            &JsonSchema::any_of(vec![JsonSchema::Any, JsonSchema::Ref("Missing".into())]),
            &components,
            8
        ),
        Some(false)
    );
    assert_eq!(is_type_simple(&JsonSchema::Error, &components, 1), Some(true));
    assert_eq!(is_type_simple(&JsonSchema::Null, &components, 0), Some(true));
    assert_eq!(is_type_simple(&JsonSchema::Ref("Id".into()), &components, 0), None);
    assert_eq!(is_type_simple(&JsonSchema::Ref("Id".into()), &components, 1), Some(true));
}

#[test]
fn method_names_are_recognized() {
    assert_eq!(MethodKind::from_name("get"), Some(MethodKind::Get));
    assert_eq!(MethodKind::from_name("options"), Some(MethodKind::Options));
    assert_eq!(MethodKind::from_name("use"), Some(MethodKind::Use));
    assert_eq!(MethodKind::from_name("GET"), None);
    assert_eq!(MethodKind::from_name("head"), None);
    assert_eq!(MethodKind::from_name(""), None);
}

#[test]
fn unconsumed_path_parameters() {
    let params = vec!["id".to_string(), "slug".to_string(), "id2".to_string()];
    let names = vec!["slug".to_string(), "body".to_string()];
    assert_eq!(
        unmatched_path_params(&params, &names),
        vec!["id".to_string(), "id2".to_string()]
    );
    assert!(unmatched_path_params(&vec![], &names).is_empty());
    assert_eq!(unmatched_path_params(&params, &vec![]), params);
}

#[test]
fn keyword_schemas() {
    assert_eq!(keyword_to_json_schema(KeywordKind::Undefined), Some(JsonSchema::Null));
    assert_eq!(keyword_to_json_schema(KeywordKind::Null), Some(JsonSchema::Null));
    assert_eq!(keyword_to_json_schema(KeywordKind::Unknown), Some(JsonSchema::Any));
    assert_eq!(keyword_to_json_schema(KeywordKind::Object), Some(JsonSchema::Any));
    assert_eq!(keyword_to_json_schema(KeywordKind::Number), Some(JsonSchema::Number));
    assert_eq!(keyword_to_json_schema(KeywordKind::Boolean), Some(JsonSchema::Boolean));
    assert_eq!(keyword_to_json_schema(KeywordKind::String), Some(JsonSchema::String));
    assert_eq!(keyword_to_json_schema(KeywordKind::BigInt), None);
    assert_eq!(keyword_to_json_schema(KeywordKind::Void), None);
    assert_eq!(keyword_to_json_schema(KeywordKind::Never), None);
}

#[test]
fn array_items_are_extracted() {
    assert_eq!(
        extract_items_from_array(JsonSchema::Array(Box::new(JsonSchema::Number))),
        JsonSchema::Number
    );
    assert_eq!(extract_items_from_array(JsonSchema::String), JsonSchema::String);
}

#[test]
fn object_fields_keep_one_entry_per_name() {
    let o = JsonSchema::object(vec![
        ("a".into(), JsonSchema::String.required()),
        ("b".into(), JsonSchema::Number.required()),
        ("a".into(), JsonSchema::Boolean.optional()),
    ]);
    assert_eq!(
        o,
        JsonSchema::Object(vec![
            ("a".into(), JsonSchema::Boolean.optional()),
            ("b".into(), JsonSchema::Number.required()),
        ])
    );
}

#[test]
fn json_objects_keep_one_entry_per_key() {
    let o = Json::object(vec![
        ("k".into(), Json::Null),
        ("m".into(), Json::Bool(true)),
        ("k".into(), Json::Bool(false)),
    ]);
    assert_eq!(
        o,
        Json::Object(vec![
            ("k".into(), Json::Bool(false)),
            ("m".into(), Json::Bool(true)),
        ])
    );
}
