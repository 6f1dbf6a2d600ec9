use srb_lens::autogen::{parse, DefKind};

#[test]
fn test_parse_sample_file() {
    let input = r#"# ParsedFile: ./app/components/datetime_picker_component.rb
requires: []
## defs:
[def id=0]
 type=module
 defines_behavior=0
 is_empty=0
[def id=1]
 type=class
 defines_behavior=1
 is_empty=0
 defining_ref=[DatetimePickerComponent]
 parent_ref=[ApplicationComponent]
## refs:
[ref id=0]
 scope=[]
 name=[DatetimePickerComponent]
 nesting=[]
 resolved=[DatetimePickerComponent]
 loc=app/components/datetime_picker_component.rb:4
 is_defining_ref=1
[ref id=1]
 scope=[]
 name=[ApplicationComponent]
 nesting=[]
 resolved=[ApplicationComponent]
 loc=app/components/datetime_picker_component.rb:4
 is_defining_ref=0
 parent_of=[DatetimePickerComponent]
[ref id=2]
 scope=[DatetimePickerComponent]
 name=[SecureRandom]
 nesting=[[DatetimePickerComponent]]
 resolved=[SecureRandom]
 loc=app/components/datetime_picker_component.rb:9
 is_defining_ref=0"#;

    let files = parse(input).unwrap();
    assert_eq!(files.len(), 1);

    let f = &files[0];
    assert_eq!(f.path, "./app/components/datetime_picker_component.rb");
    assert!(f.requires.is_empty());

    assert_eq!(f.defs.len(), 2);
    assert_eq!(f.defs[0].kind, DefKind::Module);
    assert!(!f.defs[0].defines_behavior);
    assert_eq!(f.defs[1].kind, DefKind::Class);
    assert!(f.defs[1].defines_behavior);
    assert_eq!(
        f.defs[1].defining_ref.as_deref(),
        Some(["DatetimePickerComponent".to_string()].as_slice())
    );
    assert_eq!(
        f.defs[1].parent_ref.as_deref(),
        Some(["ApplicationComponent".to_string()].as_slice())
    );

    assert_eq!(f.refs.len(), 3);

    let r0 = &f.refs[0];
    assert_eq!(r0.resolved, vec!["DatetimePickerComponent"]);
    assert!(r0.is_defining_ref);

    let r1 = &f.refs[1];
    assert_eq!(r1.resolved, vec!["ApplicationComponent"]);
    assert!(!r1.is_defining_ref);
    assert_eq!(
        r1.parent_of.as_deref(),
        Some(["DatetimePickerComponent".to_string()].as_slice())
    );

    let r2 = &f.refs[2];
    assert_eq!(r2.scope, vec!["DatetimePickerComponent"]);
    assert_eq!(r2.name, vec!["SecureRandom"]);
    assert_eq!(r2.nesting, vec![vec!["DatetimePickerComponent".to_string()]]);
    assert_eq!(r2.loc, "app/components/datetime_picker_component.rb:9");
}

#[test]
fn test_parse_nested_names() {
    let input = r#"# ParsedFile: ./app/controllers/user_area/campaigns_controller.rb
requires: []
## defs:
[def id=0]
 type=module
 defines_behavior=0
 is_empty=0
## refs:
[ref id=0]
 scope=[]
 name=[UserArea Campaigns Sections ProjectForwardingComponent]
 nesting=[]
 resolved=[UserArea Campaigns Sections ProjectForwardingComponent]
 loc=app/controllers/user_area/campaigns_controller.rb:10
 is_defining_ref=0"#;

    let files = parse(input).unwrap();
    let r = &files[0].refs[0];
    assert_eq!(
        r.resolved,
        vec!["UserArea", "Campaigns", "Sections", "ProjectForwardingComponent"]
    );
}

#[test]
fn test_parse_multiple_files() {
    let input = r#"# ParsedFile: ./a.rb
requires: []
## defs:
## refs:
# ParsedFile: ./b.rb
requires: []
## defs:
## refs:"#;

    let files = parse(input).unwrap();
    assert_eq!(files.len(), 2);
    assert_eq!(files[0].path, "./a.rb");
    assert_eq!(files[1].path, "./b.rb");
}

#[test]
fn autogen_empty_input_has_no_files() {
    assert_eq!(parse("").unwrap().len(), 0);
}

#[test]
fn autogen_entries_are_grouped_by_file() {
    let input = "[ref id=9]\n# ParsedFile: a.rb\n[def id=1]\n[ref id=2]\n[ref id=3]\n# ParsedFile: b.rb\n## refs:\n[ref id=4]\n[def id=5]";
    let files = parse(input).unwrap();
    assert_eq!(files.len(), 2);
    let ids = |v: &Vec<usize>| v.clone();
    assert_eq!(ids(&files[0].defs.iter().map(|d| d.id).collect()), vec![1]);
    assert_eq!(ids(&files[0].refs.iter().map(|r| r.id).collect()), vec![2, 3]);
    assert_eq!(ids(&files[1].defs.iter().map(|d| d.id).collect()), vec![5]);
    assert_eq!(ids(&files[1].refs.iter().map(|r| r.id).collect()), vec![4]);
}
