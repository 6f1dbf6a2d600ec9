use srb_lens::cfg_text::{
    parse, parse_completes, AliasKind, CfgInstruction, CfgParseError, CfgTerminator,
};

#[test]
fn test_parse_simple_method() {
    let input = r#"method ::AdminArea::CampaignsController#edit {

bb0[firstDead=5]():
    <self>: AdminArea::CampaignsController = cast(<self>: NilClass, AdminArea::CampaignsController);
    <hashTemp>$4: Symbol(:layout) = :layout
    <hashTemp>$5: String("admin_area/project_editor") = "admin_area/project_editor"
    <returnMethodTemp>$2: T.untyped = <self>: AdminArea::CampaignsController.render(<hashTemp>$4: Symbol(:layout), <hashTemp>$5: String("admin_area/project_editor"))
    <finalReturn>: T.noreturn = return <returnMethodTemp>$2: T.untyped
    <unconditional> -> bb1

# backedges
# - bb0
bb1[firstDead=-1]():
    <unconditional> -> bb1

}"#;

    let methods = parse(input).unwrap();
    assert_eq!(methods.len(), 1);
    let m = &methods[0];
    assert_eq!(m.raw_name, "::AdminArea::CampaignsController#edit");
    assert_eq!(m.blocks.len(), 2);

    let bb0 = &m.blocks[0];
    assert_eq!(bb0.id, 0);
    assert_eq!(bb0.first_dead, 5);
    assert_eq!(bb0.instructions.len(), 5);

    assert!(matches!(&bb0.instructions[0], CfgInstruction::Cast { .. }));
    assert!(matches!(&bb0.instructions[1], CfgInstruction::Literal { value, .. } if value == ":layout"));
    assert!(matches!(&bb0.instructions[2], CfgInstruction::Literal { value, .. } if value == "\"admin_area/project_editor\""));
    assert!(matches!(&bb0.instructions[3], CfgInstruction::MethodCall { method_name, .. } if method_name == "render"));
    assert!(matches!(&bb0.instructions[4], CfgInstruction::Return { .. }));

    let bb1 = &m.blocks[1];
    assert_eq!(bb1.id, 1);
    assert_eq!(bb1.backedges, vec![0]);
}

#[test]
fn test_parse_conditional_branch() {
    let input = r#"method ::Foo#bar {

bb0[firstDead=-1]():
    <ifTemp>$3: T.untyped = <self>: Foo.check()
    <ifTemp>$3 -> (T.untyped ? bb2 : bb3)

bb1[firstDead=-1]():
    <unconditional> -> bb1

bb2[firstDead=-1]():
    <unconditional> -> bb1

bb3[firstDead=-1]():
    <unconditional> -> bb1

}"#;

    let methods = parse(input).unwrap();
    let bb0 = &methods[0].blocks[0];
    assert!(matches!(
        &bb0.terminator,
        CfgTerminator::Conditional { true_bb: 2, false_bb: 3, .. }
    ));
}

#[test]
fn test_parse_alias_ivar() {
    let input = r#"method ::Foo#bar {

bb0[firstDead=-1]():
    @campaigns$4: T.untyped = alias <C <undeclared-field-stub>> (@campaigns)
    @tree$4: T.untyped = alias @tree
    <cfgAlias>$7: T.class_of(T) = alias <C T>
    <unconditional> -> bb1

bb1[firstDead=-1]():
    <unconditional> -> bb1

}"#;

    let methods = parse(input).unwrap();
    let bb0 = &methods[0].blocks[0];
    assert!(matches!(&bb0.instructions[0], CfgInstruction::Alias { kind: AliasKind::Ivar(name), .. } if name == "@campaigns"));
    assert!(matches!(&bb0.instructions[1], CfgInstruction::Alias { kind: AliasKind::Ivar(name), .. } if name == "@tree"));
    assert!(matches!(&bb0.instructions[2], CfgInstruction::Alias { kind: AliasKind::Constant(name), .. } if name == "T"));
}

#[test]
fn test_parse_load_arg() {
    let input = r#"method ::Foo#bar {

bb0[firstDead=-1]():
    slot_id: String = load_arg(slot_id)
    <argPresent>$3: T::Boolean = arg_present(at)
    <unconditional> -> bb1

bb1[firstDead=-1]():
    <unconditional> -> bb1

}"#;

    let methods = parse(input).unwrap();
    let bb0 = &methods[0].blocks[0];
    assert!(matches!(&bb0.instructions[0], CfgInstruction::LoadArg { arg_name, .. } if arg_name == "slot_id"));
    assert!(matches!(&bb0.instructions[1], CfgInstruction::ArgPresent { arg_name, .. } if arg_name == "at"));
}

#[test]
fn test_parse_block_call() {
    let input = r#"method ::Foo#bar {

bb0[firstDead=-1]():
    <unconditional> -> bb2

bb1[firstDead=-1]():
    <unconditional> -> bb1

bb2[firstDead=-1]():
    # outerLoops: 1
    <block-call> -> (NilClass ? bb5 : bb3)

bb3[firstDead=-1]():
    <unconditional> -> bb1

bb5[firstDead=-1]():
    <self>: Foo = loadSelf(find)
    <blk>$8: [String, Integer] = load_yield_params(find)
    _$1: String = yield_load_arg(0, <blk>$8: [String, Integer])
    <blockReturnTemp>$9: T::Boolean = <self>: Foo.check()
    <blockReturnTemp>$16: T.noreturn = blockreturn<find> <blockReturnTemp>$9: T::Boolean
    <unconditional> -> bb2

}"#;

    let methods = parse(input).unwrap();
    let bb2 = &methods[0].blocks[2];
    assert!(matches!(&bb2.terminator, CfgTerminator::BlockCall { true_bb: 5, false_bb: 3 }));

    let bb5 = &methods[0].blocks[4];
    assert!(matches!(&bb5.instructions[0], CfgInstruction::LoadSelf { block_name, .. } if block_name == "find"));
    assert!(matches!(&bb5.instructions[1], CfgInstruction::LoadYieldParams { block_name, .. } if block_name == "find"));
    assert!(matches!(&bb5.instructions[2], CfgInstruction::YieldLoadArg { index: 0, .. }));
    assert!(matches!(&bb5.instructions[4], CfgInstruction::BlockReturn { block_name, .. } if block_name == "find"));
}

#[test]
fn test_parse_exception_handling() {
    let input = r#"method ::Foo#bar {

bb0[firstDead=-1]():
    <exceptionValue>$3: T.nilable(Exception) = <get-current-exception>
    <exceptionValue>$3 -> (T.nilable(Exception) ? bb3 : bb4)

bb1[firstDead=-1]():
    <unconditional> -> bb1

bb3[firstDead=-1](<exceptionValue>$3: Exception):
    <cfgAlias>$13: T.class_of(ArgumentError) = alias <C ArgumentError>
    <isaCheckTemp>$14: T::Boolean = <cfgAlias>$13: T.class_of(ArgumentError).===(<exceptionValue>$3: Exception)
    <isaCheckTemp>$14 -> (T::Boolean ? bb7 : bb8)

bb4[firstDead=-1]():
    <unconditional> -> bb1

bb7[firstDead=-1]():
    <unconditional> -> bb1

bb8[firstDead=-1]():
    <unconditional> -> bb1

}"#;

    let methods = parse(input).unwrap();
    let bb0 = &methods[0].blocks[0];
    assert!(matches!(&bb0.instructions[0], CfgInstruction::GetCurrentException { .. }));

    let bb3 = &methods[0].blocks[2];
    assert_eq!(bb3.params.len(), 1);
    assert_eq!(bb3.params[0].name, "<exceptionValue>$3");
}

#[test]
fn test_parse_multiple_methods() {
    let input = r#"method ::Foo#a {

bb0[firstDead=-1]():
    <unconditional> -> bb1

bb1[firstDead=-1]():
    <unconditional> -> bb1

}

method ::Foo#b {

bb0[firstDead=-1]():
    <unconditional> -> bb1

bb1[firstDead=-1]():
    <unconditional> -> bb1

}"#;

    let methods = parse(input).unwrap();
    assert_eq!(methods.len(), 2);
    assert_eq!(methods[0].raw_name, "::Foo#a");
    assert_eq!(methods[1].raw_name, "::Foo#b");
}

#[test]
fn cfg_bad_block_header_is_an_error() {
    let input = "method ::Foo#a {\n\nbbx[firstDead=-1]():\n    <unconditional> -> bb1\n\n}";
    assert!(parse_completes(input));
    match parse(input) {
        Err(CfgParseError::ParseError { line, message }) => {
            assert_eq!(line, 3);
            assert_eq!(message, "invalid BB header: bbx[firstDead=-1]():");
        }
        Ok(_) => panic!("expected an error"),
    }
}

#[test]
fn cfg_empty_input_has_no_methods() {
    assert!(parse_completes(""));
    assert_eq!(parse("").unwrap().len(), 0);
}
