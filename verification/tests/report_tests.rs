use serde_json::Value;
use srb_lens::autogen;
use srb_lens::builder::build;
use srb_lens::cfg_text;
use srb_lens::report::{decimal, method_json, method_json_with, method_text};
use srb_lens::symbol_table::{RawSymbol, SymbolName, SymbolTree};

fn symbol_of(v: &Value) -> RawSymbol {
    let o = v.as_object().unwrap();
    let n = o.get("name").unwrap().as_object().unwrap();
    RawSymbol {
        id: o.get("id").unwrap().as_u64().unwrap(),
        name: SymbolName {
            kind: n.get("kind").unwrap().as_str().unwrap().to_string(),
            name: n.get("name").unwrap().as_str().unwrap().to_string(),
            unique: None,
        },
        kind: o.get("kind").unwrap().as_str().unwrap().to_string(),
        super_class: o.get("superClass").and_then(|s| s.as_u64()),
        mixins: o
            .get("mixins")
            .and_then(|m| m.as_array())
            .map(|ids| ids.iter().filter_map(|i| i.as_u64()).collect()),
        is_module: o.get("isModule").and_then(|b| b.as_bool()),
        arguments: None,
        children: o
            .get("children")
            .and_then(|c| c.as_array())
            .map(|items| items.iter().map(symbol_of).collect()),
    }
}

const CFG: &str = r#"method ::Shop#check {

bb0[firstDead=-1]():
    <self>: Shop = cast(<self>: NilClass, Shop);
    at: Time = load_arg(at)
    <argPresent>$3: T::Boolean = arg_present(at)
    @z$1: Integer = alias @zeta
    <ifTemp>$3: T::Boolean = <self>: Shop.open?()
    <ifTemp>$3 -> (T::Boolean ? bb2 : bb3)

bb1[firstDead=-1]():
    <unconditional> -> bb1

bb2[firstDead=-1]():
    <statTemp>$4: Time = <cfgAlias>$5: T.class_of(Time).now()
    <finalReturn>: T.noreturn = return <statTemp>$4: Integer
    <unconditional> -> bb1

bb3[firstDead=-1]():
    <finalReturn>: T.noreturn = return <self>: Shop
    <unconditional> -> bb1

}"#;

const SYMBOLS: &str = r#"{
    "id": 1,
    "name": { "kind": "CONSTANT", "name": "<root>" },
    "kind": "CLASS_OR_MODULE",
    "children": [
        { "id": 10, "name": { "kind": "CONSTANT", "name": "Base" }, "kind": "CLASS_OR_MODULE" },
        { "id": 11, "name": { "kind": "CONSTANT", "name": "Shop" }, "kind": "CLASS_OR_MODULE",
          "superClass": 10, "mixins": [12] },
        { "id": 12, "name": { "kind": "CONSTANT", "name": "Helpers" }, "kind": "CLASS_OR_MODULE",
          "isModule": true }
    ]
}"#;

const AUTOGEN: &str = "# ParsedFile: ./app/models/shop.rb\nrequires: []\n## defs:\n## refs:\n[ref id=0]\n scope=[]\n name=[Shop]\n nesting=[]\n resolved=[Shop]\n loc=app/models/shop.rb:2\n is_defining_ref=1";

fn project() -> srb_lens::model::Project {
    let v: Value = serde_json::from_str(SYMBOLS).unwrap();
    build(
        cfg_text::parse(CFG).unwrap(),
        SymbolTree { root: symbol_of(&v) },
        autogen::parse(AUTOGEN).unwrap(),
    )
}

#[test]
fn method_text_shows_every_section() {
    let p = project();
    let m = &p.methods[0];
    let expected = "== Shop#check ==
  class: Shop < Base
  mixins: Helpers
  defined: ./app/models/shop.rb:2
  args:
    at: Time (optional)
  returns: T.any(Integer, Shop)
  ivars:
    @zeta: Integer
  calls:
    Shop.open?() -> T::Boolean
    T.class_of(Time).now() -> Time  when: <self>.open?() = true
  cfg:
    bb0 -[<self>.open?()]-> true:bb2 / false:bb3
    bb2 -> return
    bb3 -> return

";
    assert_eq!(method_text(m, &p, None), expected);
}

#[test]
fn method_text_shows_the_source_up_to_its_end() {
    let mut p = project();
    let source = "class Shop < Base\n  def check\n    x\n  end\n\n  def other\n  end\nend\n";
    p.resolve_source_locations_in(&vec![("./app/models/shop.rb".to_string(), source.to_string())]);
    let m = &p.methods[0];
    let text = method_text(m, &p, Some(source));
    assert!(text.contains("  source: ./app/models/shop.rb:2\n"));
    assert!(text.ends_with("  source:\n      def check\n        x\n      end\n\n"));
}

#[test]
fn method_json_is_one_object() {
    let p = project();
    let m = &p.methods[0];
    let expected = r#"{"method":"Shop#check","class":"Shop","super_class":"Base","file":"./app/models/shop.rb","args":[{"name":"at","type":"Time","optional":true}],"returns":"T.any(Integer, Shop)","calls":[{"receiver":"Shop","method":"open?","return_type":"T::Boolean","bb":0,"conditions":[]},{"receiver":"T.class_of(Time)","method":"now","return_type":"Time","bb":2,"conditions":[{"call":"<self>.open?()","is_true":true}]}],"ivars":[{"name":"@zeta","type":"Integer"}],"rescues":[],"uses_block":false,"basic_blocks":[{"id":0,"type":"branch","condition":"<self>.open?()","true_bb":2,"false_bb":3},{"id":2,"type":"return"},{"id":3,"type":"return"}]}"#;
    assert_eq!(method_json(m, &p), expected);
    assert!(method_json_with(m, &p, "X").contains(r#""rescues":X,"#));
}

#[test]
fn rescues_are_written_in_debug_form() {
    let mut p = project();
    p.methods[0].rescues = vec!["Argument\"Error".to_string(), "IOError".to_string()];
    let json = method_json(&p.methods[0], &p);
    assert!(json.contains(r#""rescues":["Argument\"Error", "IOError"],"#));
}

#[test]
fn decimals() {
    assert_eq!(decimal(0), vec!['0']);
    assert_eq!(decimal(7), vec!['7']);
    assert_eq!(decimal(1234).into_iter().collect::<String>(), "1234");
    assert_eq!(decimal(usize::MAX).into_iter().collect::<String>(), usize::MAX.to_string());
}
