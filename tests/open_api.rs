use beff_core::api::{Info, ParameterIn};
use beff_core::open_api::{
    error_response_schema, ApiPath, Definition, JsonRequestBody, OpenApi, OperationObject,
    ParameterObject,
};
use beff_core::schema::{Json, JsonSchema, Optionality};

fn text(s: &str) -> Json {
    Json::String(s.into())
}

fn get(j: &Json, k: &str) -> Json {
    match j {
        Json::Object(e) => e.iter().find(|(n, _)| n == k).unwrap().1.clone(),
        _ => panic!("not an object"),
    }
}

fn keys(j: &Json) -> Vec<String> {
    match j {
        Json::Object(e) => e.iter().map(|(k, _)| k.clone()).collect(),
        _ => panic!("not an object"),
    }
}

#[test]
fn info_defaults() {
    let j = Info {
        title: None,
        description: None,
        version: None,
    }
    .to_json();
    assert_eq!(
        j,
        Json::Object(vec![
            ("title".into(), text("No title")),
            ("version".into(), text("0.0.0")),
        ])
    );
    let j = Info {
        title: Some("API".into()),
        description: Some("d".into()),
        version: Some("1.2.3".into()),
    }
    .to_json();
    assert_eq!(keys(&j), vec!["description", "title", "version"]);
    assert_eq!(get(&j, "version"), text("1.2.3"));
}

#[test]
fn parameter_document() {
    let j = ParameterObject {
        name: "id".into(),
        in_: ParameterIn::Path,
        description: None,
        required: true,
        schema: JsonSchema::String,
    }
    .to_json();
    assert_eq!(keys(&j), vec!["name", "in", "required", "schema"]);
    assert_eq!(get(&j, "in"), text("path"));
    assert_eq!(get(&j, "required"), Json::Bool(true));
    assert_eq!(
        get(&j, "schema"),
        Json::Object(vec![("type".into(), text("string"))])
    );
}

#[test]
fn operation_document() {
    let op = OperationObject {
        summary: Some("s".into()),
        description: None,
        parameters: vec![ParameterObject {
            name: "q".into(),
            in_: ParameterIn::Query,
            description: Some("a query".into()),
            required: false,
            schema: JsonSchema::Number,
        }],
        json_response_body: JsonSchema::Boolean,
        json_request_body: Some(JsonRequestBody {
            description: None,
            schema: JsonSchema::Null,
            required: true,
        }),
    };
    let j = op.to_json();
    assert_eq!(
        keys(&j),
        vec!["summary", "requestBody", "parameters", "responses"]
    );
    let responses = get(&j, "responses");
    assert_eq!(keys(&responses), vec!["200", "422", "default"]);
    assert_eq!(
        get(&responses, "422"),
        Json::Object(vec![(
            "$ref".into(),
            text("#/components/responses/DecodeError")
        )])
    );
    let ok = get(&responses, "200");
    assert_eq!(get(&ok, "description"), text("Successful Operation"));
    match get(&j, "parameters") {
        Json::Array(ps) => assert_eq!(ps.len(), 1),
        _ => panic!("parameters should be an array"),
    }
}

#[test]
fn paths_and_document() {
    assert!(ApiPath::from_pattern("/empty").to_json_kv().is_empty());
    let mut p = ApiPath::from_pattern("/users/{id}");
    p.get = Some(OperationObject {
        summary: None,
        description: None,
        parameters: vec![],
        json_response_body: JsonSchema::String,
        json_request_body: None,
    });
    let doc = OpenApi {
        info: Info {
            title: Some("T".into()),
            description: None,
            version: None,
        },
        paths: vec![p, ApiPath::from_pattern("/nothing")],
        components: vec![Definition {
            name: "User".into(),
            schema: JsonSchema::object(vec![("name".into(), JsonSchema::String.required())]),
        }],
    }
    .to_json();
    assert_eq!(keys(&doc), vec!["openapi", "info", "paths", "components"]);
    assert_eq!(get(&doc, "openapi"), text("3.1.0"));
    let paths = get(&doc, "paths");
    assert_eq!(keys(&paths), vec!["/users/{id}"]);
    assert_eq!(keys(&get(&paths, "/users/{id}")), vec!["get"]);
    let components = get(&doc, "components");
    assert_eq!(keys(&get(&components, "schemas")), vec!["User"]);
    assert_eq!(
        keys(&get(&components, "responses")),
        vec!["DecodeError", "UnexpectedError"]
    );
}

#[test]
fn error_body_schema() {
    assert_eq!(
        error_response_schema(),
        JsonSchema::Object(vec![(
            "message".into(),
            Optionality::Required(JsonSchema::String)
        )])
    );
}
