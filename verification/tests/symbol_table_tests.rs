use serde_json::Value;
use srb_lens::symbol_table::{RawArgument, RawSymbol, SymbolName, SymbolTree};

fn name_of(v: &Value) -> Result<SymbolName, String> {
    let o = v.as_object().ok_or("name is not an object")?;
    Ok(SymbolName {
        kind: o.get("kind").and_then(|k| k.as_str()).ok_or("missing kind")?.to_string(),
        name: o.get("name").and_then(|k| k.as_str()).ok_or("missing name")?.to_string(),
        unique: o.get("unique").and_then(|k| k.as_str()).map(|s| s.to_string()),
    })
}

fn symbol_of(v: &Value) -> Result<RawSymbol, String> {
    let o = v.as_object().ok_or("symbol is not an object")?;
    let arguments = match o.get("arguments").and_then(|a| a.as_array()) {
        Some(items) => {
            let mut out = Vec::new();
            for a in items {
                let ao = a.as_object().ok_or("argument is not an object")?;
                out.push(RawArgument {
                    name: name_of(ao.get("name").ok_or("missing argument name")?)?,
                    is_block: ao.get("isBlock").and_then(|b| b.as_bool()),
                });
            }
            Some(out)
        }
        None => None,
    };
    let children = match o.get("children").and_then(|c| c.as_array()) {
        Some(items) => {
            let mut out = Vec::new();
            for c in items {
                out.push(symbol_of(c)?);
            }
            Some(out)
        }
        None => None,
    };
    Ok(RawSymbol {
        id: o.get("id").and_then(|i| i.as_u64()).ok_or("missing id")?,
        name: name_of(o.get("name").ok_or("missing name")?)?,
        kind: o.get("kind").and_then(|k| k.as_str()).ok_or("missing kind")?.to_string(),
        super_class: o.get("superClass").and_then(|s| s.as_u64()),
        mixins: o
            .get("mixins")
            .and_then(|m| m.as_array())
            .map(|ids| ids.iter().filter_map(|i| i.as_u64()).collect()),
        is_module: o.get("isModule").and_then(|b| b.as_bool()),
        arguments,
        children,
    })
}

fn parse(json: &str) -> Result<SymbolTree, String> {
    let v: Value = serde_json::from_str(json).map_err(|e| e.to_string())?;
    Ok(SymbolTree { root: symbol_of(&v)? })
}

#[test]
fn test_parse_and_id_map() {
    let json = r#"{
        "id": 24,
        "name": { "kind": "CONSTANT", "name": "<root>" },
        "kind": "CLASS_OR_MODULE",
        "superClass": 48,
        "children": [
            {
                "id": 32336,
                "name": { "kind": "CONSTANT", "name": "Booth" },
                "kind": "CLASS_OR_MODULE",
                "superClass": 32288,
                "mixins": [42464, 42432],
                "children": [
                    {
                        "id": 308897,
                        "name": { "kind": "UTF8", "name": "archive!" },
                        "kind": "METHOD",
                        "arguments": [
                            { "name": { "kind": "UTF8", "name": "<blk>" }, "isBlock": true }
                        ]
                    }
                ]
            },
            {
                "id": 32288,
                "name": { "kind": "CONSTANT", "name": "ApplicationRecord" },
                "kind": "CLASS_OR_MODULE",
                "superClass": 48
            }
        ]
    }"#;

    let tree = parse(json).unwrap();
    assert_eq!(tree.root.name.name, "<root>");

    let id_map = tree.build_id_map();
    assert_eq!(id_map.get(&32336), Some(&"Booth".to_string()));
    assert_eq!(id_map.get(&32288), Some(&"ApplicationRecord".to_string()));
    assert_eq!(id_map.get(&308897), Some(&"Booth::archive!".to_string()));
}

#[test]
fn test_parse_method_with_args() {
    let json = r#"{
        "id": 24,
        "name": { "kind": "CONSTANT", "name": "<root>" },
        "kind": "CLASS_OR_MODULE",
        "children": [
            {
                "id": 100,
                "name": { "kind": "CONSTANT", "name": "Campaign" },
                "kind": "CLASS_OR_MODULE",
                "isModule": false,
                "superClass": 200,
                "children": [
                    {
                        "id": 1001,
                        "name": { "kind": "UTF8", "name": "active?" },
                        "kind": "METHOD",
                        "arguments": [
                            { "name": { "kind": "UTF8", "name": "at" }, "isBlock": false },
                            { "name": { "kind": "UTF8", "name": "<blk>" }, "isBlock": true }
                        ]
                    }
                ]
            }
        ]
    }"#;

    let tree = parse(json).unwrap();
    let campaign = &tree.root.children.as_ref().unwrap()[0];
    assert_eq!(campaign.is_module, Some(false));

    let method = &campaign.children.as_ref().unwrap()[0];
    assert_eq!(method.name.name, "active?");
    let args = method.arguments.as_ref().unwrap();
    assert_eq!(args.len(), 2);
    assert_eq!(args[0].name.name, "at");
    assert_eq!(args[0].is_block, Some(false));
    assert_eq!(args[1].name.name, "<blk>");
    assert_eq!(args[1].is_block, Some(true));
}

#[test]
fn test_nested_modules() {
    let json = r#"{
        "id": 24,
        "name": { "kind": "CONSTANT", "name": "<root>" },
        "kind": "CLASS_OR_MODULE",
        "children": [
            {
                "id": 100,
                "name": { "kind": "CONSTANT", "name": "AdminArea" },
                "kind": "CLASS_OR_MODULE",
                "isModule": true,
                "children": [
                    {
                        "id": 200,
                        "name": { "kind": "CONSTANT", "name": "CampaignsController" },
                        "kind": "CLASS_OR_MODULE",
                        "superClass": 300
                    }
                ]
            }
        ]
    }"#;

    let tree = parse(json).unwrap();
    let id_map = tree.build_id_map();
    assert_eq!(id_map.get(&100), Some(&"AdminArea".to_string()));
    assert_eq!(
        id_map.get(&200),
        Some(&"AdminArea::CampaignsController".to_string())
    );
}

#[test]
fn id_map_later_symbol_with_same_id_wins() {
    let json = r#"{
        "id": 1,
        "name": { "kind": "CONSTANT", "name": "<root>" },
        "kind": "CLASS_OR_MODULE",
        "children": [
            { "id": 7, "name": { "kind": "CONSTANT", "name": "A" }, "kind": "CLASS_OR_MODULE" },
            { "id": 7, "name": { "kind": "CONSTANT", "name": "B" }, "kind": "CLASS_OR_MODULE" }
        ]
    }"#;
    let tree = parse(json).unwrap();
    let id_map = tree.build_id_map();
    assert_eq!(id_map.len(), 1);
    assert_eq!(id_map.get(&7), Some(&"B".to_string()));
    assert_eq!(id_map.get(&1), None);
}
