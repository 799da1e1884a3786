use kestrel_execution_graph_lowering::sem::IntBits;
use kestrel_execution_graph_lowering::context::LoweringContext;
use kestrel_execution_graph_lowering::error::Severity;
use kestrel_execution_graph_lowering::match_lowering::{
    emit_arm_result, emit_enum_switch_head, emit_int_case_test, emit_string_case_test,
    emit_two_way_branch, switch_strategy, Constructor, SwitchKind, SwitchStrategy,
};
use kestrel_execution_graph_lowering::mir::{BlockId, FunctionId, Immediate, LocalId, Place, Value};

fn in_function() -> (LoweringContext, FunctionId, BlockId) {
    let mut ctx = LoweringContext::new();
    let name = ctx.mir.intern_name_parts(&["Test", "m"]);
    let unit = ctx.mir.ty_unit();
    let f = ctx.mir.add_function(name, unit);
    ctx.enter_function(f);
    let b = ctx.create_block();
    ctx.set_current_block(b);
    (ctx, f, b)
}

fn stmts(ctx: &LoweringContext, b: BlockId) -> Vec<String> {
    ctx.mir.blocks[b.0].statements.iter().map(|s| format!("{:?}", s)).collect()
}

fn term(ctx: &LoweringContext, b: BlockId) -> String {
    format!("{:?}", ctx.mir.blocks[b.0].terminator)
}

fn local_names(ctx: &LoweringContext) -> Vec<String> {
    ctx.mir.locals.iter().map(|l| l.name.clone()).collect()
}

#[test]
fn int_literal_test_compares_and_branches() {
    let (mut ctx, f, b) = in_function();
    let sw = Place::local(LocalId(7));
    let r = emit_int_case_test(&mut ctx, &sw, IntBits::I32, &Constructor::IntLiteral(42));
    assert_eq!(r, Some((BlockId(1), BlockId(2))));
    assert_eq!(
        stmts(&ctx, b),
        vec!["Assign { dest: Local(LocalId(0)), rvalue: BinaryOp { op: Eq, lhs: Place(Local(LocalId(7))), rhs: Immediate(Int(I32, 42)) } }"]
    );
    assert_eq!(
        term(&ctx, b),
        "Some(Branch { condition: Place(Local(LocalId(0))), then_block: BlockId(1), else_block: BlockId(2) })"
    );
    assert_eq!(ctx.current_block(), Some(BlockId(1)));
    assert_eq!(local_names(&ctx), vec!["cmp_0"]);
    assert_eq!(ctx.get_temp_counter(), 1);
    assert_eq!(ctx.mir.functions[f.0].blocks, vec![BlockId(0), BlockId(1), BlockId(2)]);
    assert!(ctx.mir.blocks[1].statements.is_empty() && ctx.mir.blocks[2].terminator.is_none());
}

#[test]
fn int_range_test_checks_both_bounds() {
    let (mut ctx, _, b) = in_function();
    ctx.fresh_temp("tmp");
    let sw = Place::local(LocalId(9)).field("n");
    let r = emit_int_case_test(&mut ctx, &sw, IntBits::I32, &Constructor::IntRange { start: -3, end: 5 });
    assert_eq!(r, Some((BlockId(1), BlockId(2))));
    assert_eq!(
        stmts(&ctx, b),
        vec![
            "Assign { dest: Local(LocalId(0)), rvalue: BinaryOp { op: LeSigned, lhs: Immediate(Int(I32, -3)), rhs: Place(Field(Local(LocalId(9)), \"n\")) } }",
            "Assign { dest: Local(LocalId(1)), rvalue: BinaryOp { op: LeSigned, lhs: Place(Field(Local(LocalId(9)), \"n\")), rhs: Immediate(Int(I32, 5)) } }",
            "Assign { dest: Local(LocalId(2)), rvalue: BinaryOp { op: BoolAnd, lhs: Place(Local(LocalId(0))), rhs: Place(Local(LocalId(1))) } }",
        ]
    );
    assert_eq!(
        term(&ctx, b),
        "Some(Branch { condition: Place(Local(LocalId(2))), then_block: BlockId(1), else_block: BlockId(2) })"
    );
    assert_eq!(local_names(&ctx), vec!["cmp_lo_1", "cmp_hi_2", "cmp_range_3"]);
}

#[test]
fn char_tests_use_code_points() {
    let (mut ctx, _, b) = in_function();
    let sw = Place::local(LocalId(0));
    emit_int_case_test(&mut ctx, &sw, IntBits::I32, &Constructor::CharLiteral('a'));
    assert_eq!(
        stmts(&ctx, b),
        vec!["Assign { dest: Local(LocalId(0)), rvalue: BinaryOp { op: Eq, lhs: Place(Local(LocalId(0))), rhs: Immediate(Int(I32, 97)) } }"]
    );
    let next = BlockId(2);
    ctx.set_current_block(next);
    emit_int_case_test(&mut ctx, &sw, IntBits::I32, &Constructor::CharRange { start: 'a', end: 'z' });
    let s = stmts(&ctx, next);
    assert_eq!(s.len(), 3);
    assert!(s[0].contains("Immediate(Int(I32, 97))") && s[1].contains("Immediate(Int(I32, 122))"));
}

#[test]
fn unsupported_int_constructor_is_an_internal_error() {
    let (mut ctx, _, b) = in_function();
    let sw = Place::local(LocalId(0));
    let r = emit_int_case_test(&mut ctx, &sw, IntBits::I32, &Constructor::True);
    assert_eq!(r, None);
    assert_eq!(term(&ctx, b), "Some(Unreachable)");
    assert!(stmts(&ctx, b).is_empty());
    assert_eq!(ctx.mir.blocks.len(), 1);
    let result = ctx.finish();
    assert_eq!(result.diagnostics.len(), 1);
    assert_eq!(result.diagnostics[0].severity, Severity::Bug);
    assert_eq!(
        result.diagnostics[0].message,
        "internal lowering error: unsupported constructor in int switch: True"
    );
}

#[test]
fn unsupported_constructor_text_matches_its_debug_form() {
    let ctors = vec![
        Constructor::Variant { name: "Some".to_string(), arity: 12 },
        Constructor::StringLiteral("a\"b\\c\nd'e".to_string()),
        Constructor::Single,
        Constructor::False,
    ];
    for c in ctors {
        let (mut ctx, _, _) = in_function();
        let expected = format!("internal lowering error: unsupported constructor in int switch: {:?}", c);
        emit_int_case_test(&mut ctx, &Place::local(LocalId(0)), IntBits::I32, &c);
        assert_eq!(ctx.diagnostics[0].message, expected);
    }
}

#[test]
fn string_test_uses_string_equality() {
    let (mut ctx, _, b) = in_function();
    let sw = Place::local(LocalId(3));
    let r = emit_string_case_test(&mut ctx, &sw, "hi");
    assert_eq!(r, (BlockId(1), BlockId(2)));
    assert_eq!(
        stmts(&ctx, b),
        vec!["Assign { dest: Local(LocalId(0)), rvalue: BinaryOp { op: StrEq, lhs: Place(Local(LocalId(3))), rhs: Immediate(Str(\"hi\")) } }"]
    );
    assert_eq!(local_names(&ctx), vec!["cmp_0"]);
    assert_eq!(ctx.current_block(), Some(BlockId(1)));
}

#[test]
fn two_way_branch_creates_both_blocks() {
    let (mut ctx, f, b) = in_function();
    let r = emit_two_way_branch(&mut ctx, Value::Place(Place::local(LocalId(4))));
    assert_eq!(r, (BlockId(1), BlockId(2)));
    assert_eq!(
        term(&ctx, b),
        "Some(Branch { condition: Place(Local(LocalId(4))), then_block: BlockId(1), else_block: BlockId(2) })"
    );
    assert_eq!(ctx.current_block(), Some(BlockId(1)));
    assert_eq!(ctx.mir.functions[f.0].blocks.len(), 3);
    assert!(ctx.mir.locals.is_empty());
}

#[test]
fn enum_switch_head_skips_non_variant_cases() {
    let (mut ctx, f, b) = in_function();
    let cases = vec![
        (Constructor::Variant { name: "Some".to_string(), arity: 1 }, 'x'),
        (Constructor::Single, 'y'),
        (Constructor::Variant { name: "None".to_string(), arity: 0 }, 'z'),
    ];
    let sw = Place::local(LocalId(1));
    let (blocks, default) = emit_enum_switch_head(&mut ctx, &sw, &cases, true);
    assert_eq!(blocks, vec![(0, BlockId(1)), (2, BlockId(2))]);
    assert_eq!(default, Some(BlockId(3)));
    assert_eq!(
        term(&ctx, b),
        "Some(Switch { discriminant: Local(LocalId(1)), cases: [(\"Some\", BlockId(1)), (\"None\", BlockId(2)), (\"_\", BlockId(3))] })"
    );
    assert_eq!(ctx.current_block(), Some(b));
    assert_eq!(ctx.mir.functions[f.0].blocks.len(), 4);
}

#[test]
fn enum_switch_head_without_default() {
    let (mut ctx, _, b) = in_function();
    let cases = vec![(Constructor::Variant { name: "A".to_string(), arity: 0 }, 0u8)];
    let (blocks, default) = emit_enum_switch_head(&mut ctx, &Place::local(LocalId(0)), &cases, false);
    assert_eq!(blocks, vec![(0, BlockId(1))]);
    assert_eq!(default, None);
    assert_eq!(
        term(&ctx, b),
        "Some(Switch { discriminant: Local(LocalId(0)), cases: [(\"A\", BlockId(1))] })"
    );
}

#[test]
fn arm_result_moves_and_jumps() {
    let (mut ctx, _, b) = in_function();
    emit_arm_result(&mut ctx, &Place::local(LocalId(0)), Value::Immediate(Immediate::Int(IntBits::I64, 5)), BlockId(9));
    assert_eq!(stmts(&ctx, b), vec!["Assign { dest: Local(LocalId(0)), rvalue: Use(Int(I64, 5)) }"]);
    assert_eq!(term(&ctx, b), "Some(Jump(BlockId(9)))");
}

#[test]
fn arm_result_after_return_emits_nothing() {
    let (mut ctx, _, b) = in_function();
    ctx.emit_return_unit();
    let before = term(&ctx, b);
    emit_arm_result(&mut ctx, &Place::local(LocalId(0)), Value::Place(Place::local(LocalId(1))), BlockId(9));
    assert!(stmts(&ctx, b).is_empty());
    assert_eq!(term(&ctx, b), before);
}

#[test]
fn switch_strategy_by_type() {
    assert_eq!(switch_strategy(SwitchKind::Bool, false, false), SwitchStrategy::BoolBranch);
    assert_eq!(switch_strategy(SwitchKind::Enum, false, false), SwitchStrategy::VariantSwitch);
    assert_eq!(switch_strategy(SwitchKind::Int(IntBits::I64), true, false), SwitchStrategy::IntChain);
    assert_eq!(switch_strategy(SwitchKind::Str, true, false), SwitchStrategy::StringChain);
    assert_eq!(switch_strategy(SwitchKind::Tuple, false, false), SwitchStrategy::FirstCase);
    assert_eq!(switch_strategy(SwitchKind::Struct, false, true), SwitchStrategy::FirstCase);
    assert_eq!(switch_strategy(SwitchKind::Struct, true, true), SwitchStrategy::MatchableChain);
    assert_eq!(switch_strategy(SwitchKind::Struct, true, false), SwitchStrategy::DefaultCase);
    assert_eq!(switch_strategy(SwitchKind::Other, false, false), SwitchStrategy::DefaultCase);
}
