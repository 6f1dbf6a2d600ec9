use serde_json::Value;
use srb_lens::autogen;
use srb_lens::builder::{build, is_magic_method, parse_method_fqn, path_match_score};
use srb_lens::cfg_text;
use srb_lens::model::{MethodKind, Terminator};
use srb_lens::parse_tree::MethodLoc;
use srb_lens::sorbet_type::{parse_sorbet_type, SorbetType};
use srb_lens::symbol_table::{RawSymbol, SymbolName, SymbolTree};

fn symbol_of(v: &Value) -> RawSymbol {
    let o = v.as_object().unwrap();
    let n = o.get("name").unwrap().as_object().unwrap();
    RawSymbol {
        id: o.get("id").unwrap().as_u64().unwrap(),
        name: SymbolName {
            kind: n.get("kind").unwrap().as_str().unwrap().to_string(),
            name: n.get("name").unwrap().as_str().unwrap().to_string(),
            unique: None,
        },
        kind: o.get("kind").unwrap().as_str().unwrap().to_string(),
        super_class: o.get("superClass").and_then(|s| s.as_u64()),
        mixins: o
            .get("mixins")
            .and_then(|m| m.as_array())
            .map(|ids| ids.iter().filter_map(|i| i.as_u64()).collect()),
        is_module: o.get("isModule").and_then(|b| b.as_bool()),
        arguments: None,
        children: o
            .get("children")
            .and_then(|c| c.as_array())
            .map(|items| items.iter().map(symbol_of).collect()),
    }
}

fn symbols(json: &str) -> SymbolTree {
    let v: Value = serde_json::from_str(json).unwrap();
    SymbolTree { root: symbol_of(&v) }
}

fn chars(s: &str) -> Vec<char> {
    s.chars().collect()
}

#[test]
fn test_parse_method_fqn_instance() {
    let fqn = parse_method_fqn("::Campaign#active?").unwrap();
    assert_eq!(fqn.class_fqn, "Campaign");
    assert_eq!(fqn.method_name, "active?");
    assert_eq!(fqn.kind, MethodKind::Instance);
}

#[test]
fn test_parse_method_fqn_class_method() {
    let fqn = parse_method_fqn("::DynamoDB::<Class:Code>#decode_counter_from_code").unwrap();
    assert_eq!(fqn.class_fqn, "DynamoDB::Code");
    assert_eq!(fqn.method_name, "decode_counter_from_code");
    assert_eq!(fqn.kind, MethodKind::Class);
}

#[test]
fn test_parse_method_fqn_nested() {
    let fqn = parse_method_fqn("::AdminArea::CampaignsController#index").unwrap();
    assert_eq!(fqn.class_fqn, "AdminArea::CampaignsController");
    assert_eq!(fqn.method_name, "index");
    assert_eq!(fqn.kind, MethodKind::Instance);
}

#[test]
fn test_parse_method_fqn_skip_static_init() {
    assert!(parse_method_fqn("::<Class:<root>>#<static-init>").is_none());
}

#[test]
fn test_parse_sorbet_type() {
    assert_eq!(parse_sorbet_type("String"), SorbetType::Simple("String".into()));
    assert_eq!(parse_sorbet_type("T.untyped"), SorbetType::Untyped);
    assert_eq!(parse_sorbet_type("T::Boolean"), SorbetType::Boolean);
    assert_eq!(
        parse_sorbet_type("T.nilable(String)"),
        SorbetType::Nilable(Box::new(SorbetType::Simple("String".into())))
    );
    assert_eq!(
        parse_sorbet_type("T::Array[Integer]"),
        SorbetType::Array(Box::new(SorbetType::Simple("Integer".into())))
    );
    assert_eq!(
        parse_sorbet_type("T::Hash[String, Integer]"),
        SorbetType::Hash(
            Box::new(SorbetType::Simple("String".into())),
            Box::new(SorbetType::Simple("Integer".into()))
        )
    );
}

#[test]
fn test_build_integration() {
    let cfg_input = r#"method ::Campaign#active? {

bb0[firstDead=-1]():
    <self>: Campaign = cast(<self>: NilClass, Campaign);
    at: Time = load_arg(at)
    <argPresent>$3: T::Boolean = arg_present(at)
    @start_at$4: T.untyped = alias @start_at
    <statTemp>$5: Time = <self>: Campaign.start_at()
    <returnMethodTemp>$2: T::Boolean = <statTemp>$5: Time.<=>(at: Time)
    <finalReturn>: T.noreturn = return <returnMethodTemp>$2: T::Boolean
    <unconditional> -> bb1

# backedges
# - bb0
bb1[firstDead=-1]():
    <unconditional> -> bb1

}"#;

    let symbol_json = r#"{
        "id": 24,
        "name": { "kind": "CONSTANT", "name": "<root>" },
        "kind": "CLASS_OR_MODULE",
        "children": [
            {
                "id": 100,
                "name": { "kind": "CONSTANT", "name": "Campaign" },
                "kind": "CLASS_OR_MODULE",
                "superClass": 200,
                "isModule": false,
                "children": []
            },
            {
                "id": 200,
                "name": { "kind": "CONSTANT", "name": "ApplicationRecord" },
                "kind": "CLASS_OR_MODULE"
            }
        ]
    }"#;

    let autogen_input = r#"# ParsedFile: ./app/models/campaign.rb
requires: []
## defs:
[def id=0]
 type=class
 defines_behavior=1
 is_empty=0
 defining_ref=[Campaign]
## refs:
[ref id=0]
 scope=[]
 name=[Campaign]
 nesting=[]
 resolved=[Campaign]
 loc=app/models/campaign.rb:3
 is_defining_ref=1"#;

    let cfg_methods = cfg_text::parse(cfg_input).unwrap();
    let symbol_tree = symbols(symbol_json);
    let autogen_files = autogen::parse(autogen_input).unwrap();

    let project = build(cfg_methods, symbol_tree, autogen_files);

    let campaign = project.classes.get("Campaign").unwrap();
    assert_eq!(campaign.super_class.as_deref(), Some("ApplicationRecord"));
    assert_eq!(campaign.file_path.as_deref(), Some("./app/models/campaign.rb"));
    assert_eq!(campaign.line, Some(3));

    let methods = project.find_methods("Campaign#active?");
    assert_eq!(methods.len(), 1);
    let m = &methods[0];
    assert_eq!(m.fqn.to_string(), "Campaign#active?");
    assert_eq!(m.arguments.len(), 1);
    assert_eq!(m.arguments[0].name, "at");
    assert!(m.arguments[0].is_optional);
    assert_eq!(m.ivars.len(), 1);
    assert_eq!(m.ivars[0].name, "@start_at");
    assert!(m.calls.iter().any(|c| c.method_name == "start_at"));
    assert!(m.calls.iter().any(|c| c.method_name == "<=>"));
}

const BRANCHY: &str = r#"method ::Shop#check {

bb0[firstDead=-1]():
    <self>: Shop = cast(<self>: NilClass, Shop);
    @z$1: Integer = alias @zeta
    @a$2: String = alias @alpha
    @z$3: String = alias @zeta
    <ifTemp>$3: T::Boolean = <self>: Shop.open?()
    <ifTemp>$3 -> (T::Boolean ? bb2 : bb3)

bb1[firstDead=-1]():
    <unconditional> -> bb1

bb2[firstDead=-1]():
    <statTemp>$4: Time = <cfgAlias>$5: T.class_of(Time).now()
    <finalReturn>: T.noreturn = return <statTemp>$4: Integer
    <unconditional> -> bb1

bb3[firstDead=-1]():
    <statTemp>$6: String = <self>: Shop.name()
    <finalReturn>: T.noreturn = return <statTemp>$6: String
    <unconditional> -> bb1

}

method ::<Class:Shop>#open {

bb0[firstDead=-1]():
    <returnMethodTemp>$2: T.untyped = <self>: T.class_of(Shop).build()
    <finalReturn>: T.noreturn = return <returnMethodTemp>$2: T.untyped
    <unconditional> -> bb1

bb1[firstDead=-1]():
    <unconditional> -> bb1

}"#;

const SHOP_SYMBOLS: &str = r#"{
    "id": 1,
    "name": { "kind": "CONSTANT", "name": "<root>" },
    "kind": "CLASS_OR_MODULE",
    "children": [
        { "id": 10, "name": { "kind": "CONSTANT", "name": "Base" }, "kind": "CLASS_OR_MODULE" },
        { "id": 11, "name": { "kind": "CONSTANT", "name": "Shop" }, "kind": "CLASS_OR_MODULE",
          "superClass": 10, "mixins": [12, 99] },
        { "id": 12, "name": { "kind": "CONSTANT", "name": "Helpers" }, "kind": "CLASS_OR_MODULE",
          "isModule": true },
        { "id": 13, "name": { "kind": "CONSTANT", "name": "Outlet" }, "kind": "CLASS_OR_MODULE",
          "superClass": 11 }
    ]
}"#;

#[test]
fn build_reads_calls_conditions_and_returns() {
    let project = build(cfg_text::parse(BRANCHY).unwrap(), symbols(SHOP_SYMBOLS), Vec::new());
    assert_eq!(project.methods.len(), 2);
    let m = &project.methods[0];
    assert_eq!(m.fqn.to_string(), "Shop#check");
    // ivars sorted by name, first read of each name kept
    assert_eq!(m.ivars.len(), 2);
    assert_eq!(m.ivars[0].name, "@alpha");
    assert_eq!(m.ivars[1].name, "@zeta");
    assert_eq!(m.ivars[1].ty.to_string(), "Integer");
    // two different return types make a union
    assert_eq!(m.return_type.as_ref().unwrap().to_string(), "T.any(Integer, String)");
    // the call in bb2 is reached on the true edge of the branch
    let now = m.calls.iter().find(|c| c.method_name == "now").unwrap();
    assert_eq!(now.bb_id, 2);
    assert_eq!(now.conditions.len(), 1);
    assert_eq!(now.conditions[0].call, "<self>.open?()");
    assert!(now.conditions[0].is_true);
    let name = m.calls.iter().find(|c| c.method_name == "name").unwrap();
    assert!(!name.conditions[0].is_true);
    // the dead self loop bb1 is left out of the graph
    assert_eq!(m.basic_blocks.len(), 3);
    assert!(matches!(&m.basic_blocks[0].terminator, Terminator::Branch { true_bb: 2, false_bb: 3, .. }));
    assert!(matches!(&m.basic_blocks[1].terminator, Terminator::Return));
    assert!(!m.uses_block);

    let c = &project.methods[1];
    assert_eq!(c.fqn.kind, MethodKind::Class);
    assert_eq!(c.fqn.to_string(), "Shop.open");
    assert_eq!(c.return_type.as_ref().unwrap().to_string(), "T.untyped");

    let shop = project.classes.get("Shop").unwrap();
    assert_eq!(shop.super_class.as_deref(), Some("Base"));
    assert_eq!(shop.mixins, vec!["Helpers".to_string()]);
    assert_eq!(shop.method_fqns.len(), 2);
    assert!(project.classes.get("Helpers").unwrap().is_module);
}

#[test]
fn find_methods_walks_the_superclass_chain() {
    let project = build(cfg_text::parse(BRANCHY).unwrap(), symbols(SHOP_SYMBOLS), Vec::new());
    let found = project.find_methods("Outlet#check");
    assert_eq!(found.len(), 1);
    assert_eq!(found[0].fqn.to_string(), "Shop#check");
    assert!(project.find_methods("Outlet#missing").is_empty());
    let class_methods = project.find_methods("Shop.open");
    assert_eq!(class_methods.len(), 1);
    assert_eq!(project.find_methods("Shop").len(), 2);
    assert_eq!(project.find_methods("hop").len(), 2);
    assert!(project.find_methods("Shop#open").is_empty());
}

#[test]
fn find_classes_matches_name_suffixes() {
    let project = build(Vec::new(), symbols(SHOP_SYMBOLS), Vec::new());
    let found = project.find_classes("op");
    assert_eq!(found.len(), 1);
    assert_eq!(found[0].fqn, "Shop");
    assert_eq!(project.find_classes("").len(), 4);
    assert_eq!(project.classes.len(), 4);
}

#[test]
fn autogen_prefers_the_file_named_after_the_class() {
    let autogen_input = r#"# ParsedFile: ./sorbet/rbi/shop.rbi
requires: []
## defs:
## refs:
[ref id=0]
 scope=[]
 name=[Shop]
 nesting=[]
 resolved=[Shop]
 loc=sorbet/rbi/shop.rbi:1
 is_defining_ref=1
# ParsedFile: ./app/models/other.rb
requires: []
## defs:
## refs:
[ref id=0]
 scope=[]
 name=[Shop]
 nesting=[]
 resolved=[Shop]
 loc=app/models/other.rb:5
 is_defining_ref=1
# ParsedFile: ./app/models/shop.rb
requires: []
## defs:
## refs:
[ref id=0]
 scope=[]
 name=[Shop]
 nesting=[]
 resolved=[Shop]
 loc=app/models/shop.rb:2
 is_defining_ref=1
# ParsedFile: ./app/models/later.rb
requires: []
## defs:
## refs:
[ref id=0]
 scope=[]
 name=[Shop]
 nesting=[]
 resolved=[Shop]
 loc=app/models/later.rb:9
 is_defining_ref=1"#;
    let files = autogen::parse(autogen_input).unwrap();
    let project = build(Vec::new(), symbols(SHOP_SYMBOLS), files);
    let shop = project.classes.get("Shop").unwrap();
    assert_eq!(shop.file_path.as_deref(), Some("./app/models/shop.rb"));
    assert_eq!(shop.line, Some(2));
}

#[test]
fn path_scores() {
    assert_eq!(path_match_score(&chars("Campaign::Variable"), &chars("app/models/Campaign/Variable.rb")), 2);
    assert_eq!(path_match_score(&chars("Campaign"), &chars("campaign.rb")), 2);
    assert_eq!(path_match_score(&chars("Campaign"), &chars("app/models/campaign/variable.rb")), 1);
    assert_eq!(path_match_score(&chars("Campaign"), &chars("sorbet/rbi/campaign.rb")), 0);
    assert_eq!(path_match_score(&chars("Campaign"), &chars("campaign.rbi")), 0);
}

#[test]
fn magic_methods() {
    assert!(is_magic_method(&chars("<build-hash>"), &chars("T.class_of(<Magic>)")));
    assert!(is_magic_method(&chars("<expand-splat>"), &chars("Foo")));
    assert!(!is_magic_method(&chars("<=>"), &chars("Time")));
    assert!(!is_magic_method(&chars("save"), &chars("Foo")));
}

#[test]
fn method_fqn_edge_cases() {
    assert!(parse_method_fqn("Campaign#active?").is_none());
    assert!(parse_method_fqn("::Campaign").is_none());
    let f = parse_method_fqn("::<Class:Top>#make").unwrap();
    assert_eq!(f.class_fqn, "Top");
    assert_eq!(f.kind, MethodKind::Class);
    let g = parse_method_fqn("::A::B#x#y").unwrap();
    assert_eq!(g.class_fqn, "A::B");
    assert_eq!(g.method_name, "x#y");
}

#[test]
fn locations_from_the_parse_tree_are_applied_once() {
    let autogen_input = "# ParsedFile: ./app/models/shop.rb\nrequires: []\n## defs:\n## refs:\n[ref id=0]\n scope=[]\n name=[Shop]\n nesting=[]\n resolved=[Shop]\n loc=app/models/shop.rb:2\n is_defining_ref=1";
    let mut project = build(
        cfg_text::parse(BRANCHY).unwrap(),
        symbols(SHOP_SYMBOLS),
        autogen::parse(autogen_input).unwrap(),
    );
    let locs = vec![
        MethodLoc { file: "app/models/shop.rb".into(), name: "open".into(), line: 40, is_class_method: false },
        MethodLoc { file: "app/models/shop.rb".into(), name: "check".into(), line: 12, is_class_method: false },
        MethodLoc { file: "app/models/shop.rb".into(), name: "open".into(), line: 30, is_class_method: true },
    ];
    project.resolve_source_locations_from_locs(&locs);
    assert_eq!(project.methods[0].file_path.as_deref(), Some("./app/models/shop.rb"));
    assert_eq!(project.methods[0].line, Some(12));
    assert_eq!(project.methods[1].line, Some(30));
    project.resolve_source_locations_from_locs(&locs);
    assert_eq!(project.methods[0].line, Some(12));
    assert_eq!(project.methods[1].line, Some(30));
}

#[test]
fn locations_from_source_files() {
    let autogen_input = "# ParsedFile: ./app/models/shop.rb\nrequires: []\n## defs:\n## refs:\n[ref id=0]\n scope=[]\n name=[Shop]\n nesting=[]\n resolved=[Shop]\n loc=app/models/shop.rb:2\n is_defining_ref=1";
    let mut project = build(
        cfg_text::parse(BRANCHY).unwrap(),
        symbols(SHOP_SYMBOLS),
        autogen::parse(autogen_input).unwrap(),
    );
    let source = "class Shop < Base\n  def self.open\n  end\n\n  def check\n  end\nend\n";
    let files = vec![("./app/models/shop.rb".to_string(), source.to_string())];
    project.resolve_source_locations_in(&files);
    assert_eq!(project.methods[0].line, Some(5));
    assert_eq!(project.methods[1].line, Some(2));
    assert_eq!(project.methods[1].file_path.as_deref(), Some("./app/models/shop.rb"));
}

#[test]
fn rescues_blocks_and_followed_conditions() {
    let input = r#"method ::Foo#safe {

bb0[firstDead=-1]():
    <exceptionValue>$3: T.nilable(Exception) = <get-current-exception>
    <exceptionValue>$3 -> (T.nilable(Exception) ? bb3 : bb4)

bb1[firstDead=-1]():
    <unconditional> -> bb1

bb3[firstDead=-1](<exceptionValue>$3: Exception):
    <cfgAlias>$13: T.class_of(ArgumentError) = alias <C ArgumentError>
    <isaCheckTemp>$14: T::Boolean = <cfgAlias>$13: T.class_of(ArgumentError).===(<exceptionValue>$3: Exception)
    <isaCheckTemp>$14 -> (T::Boolean ? bb7 : bb8)

bb4[firstDead=-1]():
    <unconditional> -> bb1

bb7[firstDead=-1]():
    <unconditional> -> bb1

bb8[firstDead=-1]():
    <unconditional> -> bb1

}

method ::Foo#gate {

bb0[firstDead=-1]():
    <ifTemp>$3: T::Boolean = <self>: Foo.ok?()
    <castTemp>$4: T::Boolean = cast(<ifTemp>$3: T::Boolean, T::Boolean);
    <castTemp>$4 -> (T::Boolean ? bb2 : bb3)

bb1[firstDead=-1]():
    <unconditional> -> bb1

bb2[firstDead=-1]():
    <unconditional> -> bb1

bb3[firstDead=-1]():
    <unconditional> -> bb1

}

method ::Foo#each_item {

bb0[firstDead=-1]():
    <unconditional> -> bb2

bb1[firstDead=-1]():
    <unconditional> -> bb1

bb2[firstDead=-1]():
    <block-call> -> (NilClass ? bb5 : bb3)

bb3[firstDead=-1]():
    <unconditional> -> bb1

bb5[firstDead=-1]():
    <blk>$8: [String] = load_yield_params(find)
    <unconditional> -> bb2

}"#;
    let project = build(cfg_text::parse(input).unwrap(), symbols(SHOP_SYMBOLS), Vec::new());
    let safe = &project.methods[0];
    assert_eq!(safe.rescues, vec!["ArgumentError".to_string()]);
    assert!(matches!(&safe.basic_blocks[0].terminator, Terminator::Branch { condition, .. } if condition == "<exceptionValue>$3"));
    assert!(matches!(&safe.basic_blocks[1].terminator, Terminator::Branch { condition, .. } if condition == "<cfgAlias>$13.===()"));
    assert!(safe.return_type.is_none());
    assert!(!safe.uses_block);

    let gate = &project.methods[1];
    assert!(matches!(&gate.basic_blocks[0].terminator, Terminator::Branch { condition, .. } if condition == "<self>.ok?()"));

    let each = &project.methods[2];
    assert!(each.uses_block);
    assert!(matches!(&each.basic_blocks[1].terminator, Terminator::BlockCall { true_bb: 5, false_bb: 3 }));
}

#[test]
fn symbols_with_one_name_make_one_class() {
    let json = r#"{
        "id": 1,
        "name": { "kind": "CONSTANT", "name": "<root>" },
        "kind": "CLASS_OR_MODULE",
        "children": [
            { "id": 2, "name": { "kind": "CONSTANT", "name": "A" }, "kind": "CLASS_OR_MODULE" },
            { "id": 3, "name": { "kind": "CONSTANT", "name": "B" }, "kind": "CLASS_OR_MODULE" },
            { "id": 4, "name": { "kind": "CONSTANT", "name": "A" }, "kind": "CLASS_OR_MODULE",
              "superClass": 3 },
            { "id": 5, "name": { "kind": "UTF8", "name": "helper" }, "kind": "METHOD" }
        ]
    }"#;
    let project = build(Vec::new(), symbols(json), Vec::new());
    assert_eq!(project.classes.len(), 2);
    assert_eq!(project.classes.values()[0].fqn, "A");
    assert_eq!(project.classes.get("A").unwrap().super_class.as_deref(), Some("B"));
}

#[test]
fn branch_condition_names_the_receiver_variable() {
    let input = "method ::Campaign#active? {\n\nbb0[firstDead=-1]():\n    <ifTemp>$3: T.nilable(Time) = <self>: Campaign.starts_at()\n    <ifTemp>$3 -> (T.nilable(Time) ? bb2 : bb3)\n\nbb1[firstDead=-1]():\n    <unconditional> -> bb1\n\nbb2[firstDead=-1]():\n    <unconditional> -> bb1\n\nbb3[firstDead=-1]():\n    <unconditional> -> bb1\n\n}";
    let project = build(cfg_text::parse(input).unwrap(), symbols(SHOP_SYMBOLS), Vec::new());
    let m = &project.methods[0];
    assert!(matches!(&m.basic_blocks[0].terminator, Terminator::Branch { condition, true_bb: 2, false_bb: 3 } if condition == "<self>.starts_at()"));
    let call = &m.calls[0];
    assert_eq!(call.receiver_type.to_string(), "Campaign");
    assert_eq!(call.method_name, "starts_at");
}

#[test]
fn build_lists_each_class_methods_in_order() {
    let project = build(cfg_text::parse(BRANCHY).unwrap(), symbols(SHOP_SYMBOLS), Vec::new());
    let mut names: Vec<String> = project.classes.values().iter().map(|c| c.fqn.clone()).collect();
    names.sort();
    assert_eq!(names, vec!["Base", "Helpers", "Outlet", "Shop"]);
    let shop = project.classes.get("Shop").unwrap();
    let listed: Vec<String> = shop.method_fqns.iter().map(|f| f.to_string()).collect();
    assert_eq!(listed, vec!["Shop#check".to_string(), "Shop.open".to_string()]);
}

#[test]
fn written_types_read_back() {
    let t = SorbetType::Hash(
        Box::new(SorbetType::Simple("Symbol".to_string())),
        Box::new(SorbetType::Union(vec![
            SorbetType::Nilable(Box::new(SorbetType::Array(Box::new(SorbetType::Simple("Foo::Bar".to_string()))))),
            SorbetType::Tuple(vec![SorbetType::Literal("Integer(1)".to_string()), SorbetType::Boolean]),
            SorbetType::Shape(vec![("name".to_string(), SorbetType::ClassOf("Baz".to_string()))]),
            SorbetType::Shape(vec![]),
        ])),
    );
    let text = t.to_string();
    assert_eq!(text, "T::Hash[Symbol, T.any(T.nilable(T::Array[Foo::Bar]), [Integer(1), T::Boolean], {name: T.class_of(Baz)}, {})]");
    assert_eq!(parse_sorbet_type(&text), t);
}

#[test]
fn placing_prefers_parse_tree_locations() {
    let autogen_input = "# ParsedFile: ./app/models/shop.rb\nrequires: []\n## defs:\n## refs:\n[ref id=0]\n scope=[]\n name=[Shop]\n nesting=[]\n resolved=[Shop]\n loc=app/models/shop.rb:2\n is_defining_ref=1";
    let source = "class Shop < Base\n  def self.open\n  end\n\n  def check\n  end\nend\n";
    let files = vec![("./app/models/shop.rb".to_string(), source.to_string())];
    let locs = vec![MethodLoc { file: "app/models/shop.rb".into(), name: "check".into(), line: 12, is_class_method: false }];

    let mut by_locs = build(cfg_text::parse(BRANCHY).unwrap(), symbols(SHOP_SYMBOLS), autogen::parse(autogen_input).unwrap());
    by_locs.place_methods(&locs, &files);
    assert_eq!(by_locs.methods[0].line, Some(12));
    assert_eq!(by_locs.methods[1].line, None);

    let mut by_sources = build(cfg_text::parse(BRANCHY).unwrap(), symbols(SHOP_SYMBOLS), autogen::parse(autogen_input).unwrap());
    by_sources.place_methods(&[], &files);
    assert_eq!(by_sources.methods[0].line, Some(5));
    assert_eq!(by_sources.methods[1].line, Some(2));
}
