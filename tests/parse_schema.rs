use beff_core::schema::{Json, JsonSchema};

fn to_serde(j: &Json) -> serde_json::Value {
    match j {
        Json::Null => serde_json::Value::Null,
        Json::Bool(b) => serde_json::Value::Bool(*b),
        Json::Number(n) => serde_json::Value::Number(n.parse::<serde_json::Number>().unwrap()),
        Json::String(s) => serde_json::Value::String(s.clone()),
        Json::Array(items) => serde_json::Value::Array(items.iter().map(to_serde).collect()),
        Json::Object(entries) => serde_json::Value::Object(
            entries
                .iter()
                .map(|(k, v)| (k.clone(), to_serde(v)))
                .collect::<serde_json::Map<_, _>>(),
        ),
    }
}

fn from_serde(v: &serde_json::Value) -> Json {
    match v {
        serde_json::Value::Null => Json::Null,
        serde_json::Value::Bool(b) => Json::Bool(*b),
        serde_json::Value::Number(n) => Json::Number(n.to_string()),
        serde_json::Value::String(s) => Json::String(s.clone()),
        serde_json::Value::Array(items) => Json::Array(items.iter().map(from_serde).collect()),
        serde_json::Value::Object(entries) => Json::Object(
            entries
                .iter()
                .map(|(k, v)| (k.clone(), from_serde(v)))
                .collect(),
        ),
    }
}

#[test]
fn it_works() {
    let schemas = vec![
        JsonSchema::Null,
        JsonSchema::Boolean,
        JsonSchema::String,
        JsonSchema::StringWithFormat("password".into()),
        JsonSchema::Number,
        JsonSchema::Any,
        JsonSchema::object(vec![]),
        JsonSchema::object(vec![
            ("foo".into(), JsonSchema::String.optional()),
            ("bar".into(), JsonSchema::Number.required()),
            (
                "baz".into(),
                JsonSchema::object(vec![
                    ("foo".into(), JsonSchema::String.optional()),
                    ("bar".into(), JsonSchema::Number.required()),
                    ("baz".into(), JsonSchema::Number.required()),
                ])
                .required(),
            ),
        ]),
        JsonSchema::Array(Box::new(JsonSchema::Number)),
        JsonSchema::Tuple {
            prefix_items: vec![],
            items: None,
        },
        JsonSchema::Tuple {
            prefix_items: vec![
                JsonSchema::Array(Box::new(JsonSchema::Number)),
                JsonSchema::object(vec![
                    ("foo".into(), JsonSchema::String.optional()),
                    ("bar".into(), JsonSchema::Number.required()),
                    ("baz".into(), JsonSchema::Number.required()),
                ]),
            ],
            items: None,
        },
        JsonSchema::Tuple {
            prefix_items: vec![
                JsonSchema::Array(Box::new(JsonSchema::Number)),
                JsonSchema::object(vec![
                    ("foo".into(), JsonSchema::String.optional()),
                    ("bar".into(), JsonSchema::Number.required()),
                    ("baz".into(), JsonSchema::Number.required()),
                ]),
            ],
            items: Some(Box::new(JsonSchema::object(vec![
                ("foo".into(), JsonSchema::String.optional()),
                ("bar".into(), JsonSchema::Number.required()),
                ("baz".into(), JsonSchema::Number.required()),
            ]))),
        },
        JsonSchema::Ref("abc".into()),
        JsonSchema::OpenApiResponseRef("def".into()),
        JsonSchema::any_of(vec![]),
        JsonSchema::any_of(vec![JsonSchema::String, JsonSchema::Number]),
        JsonSchema::any_of(vec![
            JsonSchema::Const(Json::Bool(false)),
            JsonSchema::Const(Json::Bool(true)),
        ]),
        JsonSchema::all_of(vec![]),
        JsonSchema::all_of(vec![JsonSchema::String, JsonSchema::Number]),
        JsonSchema::Const(Json::String("abc".into())),
        JsonSchema::Const(Json::parse_int(123)),
    ];
    for schema in schemas {
        let json = schema.clone().to_json();
        let str = serde_json::to_string_pretty(&to_serde(&json)).unwrap();
        let from_str = serde_json::from_str::<serde_json::Value>(&str).unwrap();
        let from_serde = from_serde(&from_str);
        let from_json = JsonSchema::from_json(&from_serde).unwrap();
        assert_eq!(schema, from_json,);
    }
}
