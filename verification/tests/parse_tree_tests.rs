use serde_json::Value;
use srb_lens::parse_tree::{method_locs, parse_decl_loc, JsonValue, MethodLoc};

fn to_json(v: &Value) -> JsonValue {
    match v {
        Value::Null => JsonValue::Null,
        Value::Bool(b) => JsonValue::Bool(*b),
        Value::Number(n) => JsonValue::Number(n.to_string()),
        Value::String(s) => JsonValue::Str(s.clone()),
        Value::Array(items) => JsonValue::Array(items.iter().map(to_json).collect()),
        Value::Object(m) => {
            JsonValue::Object(m.iter().map(|(k, x)| (k.clone(), to_json(x))).collect())
        }
    }
}

fn parse(input: &str) -> Result<Vec<MethodLoc>, String> {
    let mut values = Vec::new();
    for item in serde_json::Deserializer::from_str(input).into_iter::<Value>() {
        let v = item.map_err(|e| e.to_string())?;
        values.push(to_json(&v));
    }
    Ok(method_locs(&values))
}

#[test]
fn test_parse_decl_loc() {
    let (file, line) = parse_decl_loc("app/models/campaign.rb:42:5-44:8").unwrap();
    assert_eq!(file, "app/models/campaign.rb");
    assert_eq!(line, 42);
}

#[test]
fn test_parse_def_method() {
    let input = r#"{
        "type": "Class",
        "declLoc": "app/models/foo.rb:1:1-10:4",
        "name": { "type": "Const", "scope": null, "name": "Foo" },
        "superclass": null,
        "body": {
            "type": "DefMethod",
            "declLoc": "app/models/foo.rb:3:3-5:6",
            "name": "bar",
            "args": null,
            "body": null
        }
    }"#;

    let locs = parse(input).unwrap();
    assert_eq!(locs.len(), 1);
    assert_eq!(locs[0].file, "app/models/foo.rb");
    assert_eq!(locs[0].name, "bar");
    assert_eq!(locs[0].line, 3);
    assert!(!locs[0].is_class_method);
}

#[test]
fn test_parse_def_s() {
    let input = r#"{
        "type": "Class",
        "declLoc": "app/models/foo.rb:1:1-10:4",
        "name": { "type": "Const", "scope": null, "name": "Foo" },
        "superclass": null,
        "body": {
            "type": "DefS",
            "declLoc": "app/models/foo.rb:7:3-9:6",
            "singleton": { "type": "Self" },
            "name": "create",
            "args": null,
            "body": null
        }
    }"#;

    let locs = parse(input).unwrap();
    assert_eq!(locs.len(), 1);
    assert_eq!(locs[0].name, "create");
    assert_eq!(locs[0].line, 7);
    assert!(locs[0].is_class_method);
}

#[test]
fn test_parse_multiple_methods_in_begin() {
    let input = r#"{
        "type": "Class",
        "declLoc": "app/models/foo.rb:1:1-20:4",
        "name": { "type": "Const", "scope": null, "name": "Foo" },
        "superclass": null,
        "body": {
            "type": "Begin",
            "stmts": [
                {
                    "type": "DefMethod",
                    "declLoc": "app/models/foo.rb:3:3-5:6",
                    "name": "alpha",
                    "args": null,
                    "body": null
                },
                {
                    "type": "DefMethod",
                    "declLoc": "app/models/foo.rb:7:3-9:6",
                    "name": "beta",
                    "args": null,
                    "body": null
                }
            ]
        }
    }"#;

    let locs = parse(input).unwrap();
    assert_eq!(locs.len(), 2);
    assert_eq!(locs[0].name, "alpha");
    assert_eq!(locs[1].name, "beta");
}

#[test]
fn test_parse_stream_multiple_top_level() {
    let input = r#"{"type":"DefMethod","declLoc":"a.rb:1:1-2:4","name":"x","args":null,"body":null}
{"type":"DefMethod","declLoc":"b.rb:5:1-6:4","name":"y","args":null,"body":null}"#;

    let locs = parse(input).unwrap();
    assert_eq!(locs.len(), 2);
    assert_eq!(locs[0].file, "a.rb");
    assert_eq!(locs[1].file, "b.rb");
}

#[test]
fn decl_loc_rejects_malformed_text() {
    assert!(parse_decl_loc("a.rb:3").is_none());
    assert!(parse_decl_loc("a.rb:x:1-2:3").is_none());
    assert!(parse_decl_loc("no-colons").is_none());
}

#[test]
fn decl_loc_keeps_colons_and_dashes_in_the_path() {
    let (file, line) = parse_decl_loc("c:/my-app/x.rb:12:1-13:2").unwrap();
    assert_eq!(file, "c:/my-app/x.rb");
    assert_eq!(line, 12);
}

#[test]
fn method_node_without_decl_loc_is_skipped() {
    let locs = parse(r#"{"type":"DefMethod","name":"x"}"#).unwrap();
    assert!(locs.is_empty());
}

#[test]
fn nested_arrays_are_not_searched() {
    let locs = parse(r#"{"type":"Begin","stmts":[[{"type":"DefMethod","declLoc":"a.rb:1:1-2:2","name":"x"}]]}"#).unwrap();
    assert!(locs.is_empty());
}
