use srb_lens::model::{def_line, ClassInfo, ClassTable, MethodFqn, MethodKind, Project};
use srb_lens::sorbet_type::{parse_sorbet_type, SorbetType};

fn class(name: &str, file: Option<&str>) -> ClassInfo {
    ClassInfo {
        fqn: name.to_string(),
        is_module: false,
        super_class: None,
        mixins: Vec::new(),
        method_fqns: Vec::new(),
        file_path: file.map(|s| s.to_string()),
        line: None,
    }
}

#[test]
fn class_table_insert_replaces_by_name() {
    let mut t = ClassTable::new();
    t.insert(class("A", None));
    t.insert(class("B", None));
    t.insert(class("A", Some("a.rb")));
    assert_eq!(t.len(), 2);
    assert_eq!(t.get("A").unwrap().file_path.as_deref(), Some("a.rb"));
    assert!(t.get("B").unwrap().file_path.is_none());
    assert!(t.get("C").is_none());
    assert_eq!(t.values()[0].fqn, "A");
    assert_eq!(t.index_of("B"), Some(1));
}

#[test]
fn method_names_render_with_their_separator() {
    let i = MethodFqn { class_fqn: "A::B".into(), method_name: "go".into(), kind: MethodKind::Instance };
    let c = MethodFqn { class_fqn: "A::B".into(), method_name: "go".into(), kind: MethodKind::Class };
    assert_eq!(i.to_string(), "A::B#go");
    assert_eq!(c.to_string(), "A::B.go");
    assert_eq!(c.copy(), c);
}

#[test]
fn definition_lines() {
    let src = "module M\n  def self.run(x)\n  end\n  def run\n  end\nend";
    let inst = MethodFqn { class_fqn: "M".into(), method_name: "run".into(), kind: MethodKind::Instance };
    let cls = MethodFqn { class_fqn: "M".into(), method_name: "run".into(), kind: MethodKind::Class };
    assert_eq!(def_line(src, &inst), Some(4));
    assert_eq!(def_line(src, &cls), Some(2));
    let missing = MethodFqn { class_fqn: "M".into(), method_name: "stop".into(), kind: MethodKind::Instance };
    assert_eq!(def_line(src, &missing), None);
}

#[test]
fn empty_project_finds_nothing() {
    let p = Project::new();
    assert!(p.find_methods("A#b").is_empty());
    assert!(p.find_classes("A").is_empty());
}

#[test]
fn types_render_as_sorbet_writes_them() {
    let t = parse_sorbet_type("T.nilable(T::Hash[String, T.any(Integer, Symbol)])");
    assert_eq!(t.to_string(), "T.nilable(T::Hash[String, T.any(Integer, Symbol)])");
    assert_eq!(parse_sorbet_type("{a: Integer, b: String}").to_string(), "{a: Integer, b: String}");
    assert_eq!(parse_sorbet_type("[Integer, String]").to_string(), "[Integer, String]");
    assert_eq!(parse_sorbet_type("  ").to_string(), "T.untyped");
    assert_eq!(parse_sorbet_type("Integer(2)"), SorbetType::Literal("Integer(2)".into()));
    assert_eq!(parse_sorbet_type("T.class_of(Foo)"), SorbetType::ClassOf("Foo".into()));
    assert_eq!(SorbetType::Void.to_string(), "void");
    assert_eq!(SorbetType::NoReturn.to_string(), "T.noreturn");
}
