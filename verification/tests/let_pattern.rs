use kestrel_execution_graph_lowering::sem::IntBits;
use kestrel_execution_graph_lowering::context::LoweringContext;
use kestrel_execution_graph_lowering::let_pattern::emit_let_decision_tree;
use kestrel_execution_graph_lowering::match_lowering::{
    place_scrutinee, Binding, Constructor, DecisionTree, PathElement, SwitchKind,
};
use kestrel_execution_graph_lowering::mir::{BlockId, Immediate, LocalId, MirTy, Place, TyId, Value};
use kestrel_execution_graph_lowering::sem::SemLocalId;

/// A context inside `Test.f` with blocks 0 (current), 1 (success) and 2 (failure).
fn setup() -> (LoweringContext, TyId) {
    let mut ctx = LoweringContext::new();
    let name = ctx.mir.intern_name_parts(&["Test", "f"]);
    let unit = ctx.mir.ty_unit();
    let f = ctx.mir.add_function(name, unit);
    ctx.enter_function(f);
    let b = ctx.create_block();
    ctx.create_block();
    ctx.create_block();
    ctx.set_current_block(b);
    let ty = ctx.mir.intern_type(MirTy::Never);
    (ctx, ty)
}

fn stmts(ctx: &LoweringContext, b: usize) -> Vec<String> {
    ctx.mir.blocks[b].statements.iter().map(|s| format!("{:?}", s)).collect()
}

fn term(ctx: &LoweringContext, b: usize) -> String {
    format!("{:?}", ctx.mir.blocks[b].terminator)
}

fn success(bindings: Vec<Binding>) -> DecisionTree {
    DecisionTree::Success { arm_index: 0, bindings }
}

fn switch(kind: SwitchKind, cases: Vec<(Constructor, DecisionTree)>, default: Option<DecisionTree>) -> DecisionTree {
    DecisionTree::Switch { path: vec![], kind, cases, default: default.map(Box::new) }
}

const SUCC: BlockId = BlockId(1);
const FAIL: BlockId = BlockId(2);

#[test]
fn success_binds_and_jumps_to_the_success_block() {
    let (mut ctx, ty) = setup();
    let x = Binding { name: "x".to_string(), local_id: SemLocalId(5), path: vec![PathElement::Index(1)], ty };
    emit_let_decision_tree(&mut ctx, &success(vec![x]), &Place::local(LocalId(9)), SUCC, FAIL);
    assert_eq!(stmts(&ctx, 0), vec!["Assign { dest: Local(LocalId(0)), rvalue: Copy(Index(Local(LocalId(9)), 1)) }"]);
    assert_eq!(term(&ctx, 0), "Some(Jump(BlockId(1)))");
    assert_eq!(ctx.get_local(SemLocalId(5)), Some(LocalId(0)));
    assert_eq!(ctx.mir.locals[0].name, "x");
    assert_eq!(ctx.mir.blocks.len(), 3);
}

#[test]
fn failure_and_guard_jump_to_the_failure_block() {
    let (mut ctx, _) = setup();
    emit_let_decision_tree(&mut ctx, &DecisionTree::Failure, &Place::local(LocalId(0)), SUCC, FAIL);
    assert_eq!(term(&ctx, 0), "Some(Jump(BlockId(2)))");
    let (mut ctx, _) = setup();
    let guard = DecisionTree::Guard {
        arm_index: 0,
        bindings: vec![],
        success: Box::new(success(vec![])),
        failure: Box::new(DecisionTree::Failure),
    };
    emit_let_decision_tree(&mut ctx, &guard, &Place::local(LocalId(0)), SUCC, FAIL);
    assert_eq!(term(&ctx, 0), "Some(Jump(BlockId(2)))");
    assert!(stmts(&ctx, 0).is_empty());
}

#[test]
fn if_let_some_switches_on_the_variant() {
    let (mut ctx, ty) = setup();
    let x = Binding {
        name: "x".to_string(),
        local_id: SemLocalId(1),
        path: vec![PathElement::Downcast("Some".to_string()), PathElement::Index(0)],
        ty,
    };
    let tree = switch(
        SwitchKind::Enum,
        vec![(Constructor::Variant { name: "Some".to_string(), arity: 1 }, success(vec![x]))],
        None,
    );
    emit_let_decision_tree(&mut ctx, &tree, &Place::local(LocalId(7)), SUCC, FAIL);
    assert_eq!(
        term(&ctx, 0),
        "Some(Switch { discriminant: Local(LocalId(7)), cases: [(\"Some\", BlockId(3)), (\"_\", BlockId(4))] })"
    );
    assert_eq!(
        stmts(&ctx, 3),
        vec!["Assign { dest: Local(LocalId(0)), rvalue: Copy(Index(Downcast(Local(LocalId(7)), \"Some\"), 0)) }"]
    );
    assert_eq!(term(&ctx, 3), "Some(Jump(BlockId(1)))");
    assert_eq!(term(&ctx, 4), "Some(Jump(BlockId(2)))");
    assert_eq!(ctx.current_block(), Some(BlockId(4)));
}

#[test]
fn enum_default_takes_the_other_variants() {
    let (mut ctx, _) = setup();
    let tree = switch(
        SwitchKind::Enum,
        vec![
            (Constructor::Variant { name: "A".to_string(), arity: 0 }, DecisionTree::Failure),
            (Constructor::Variant { name: "B".to_string(), arity: 0 }, success(vec![])),
        ],
        Some(success(vec![])),
    );
    emit_let_decision_tree(&mut ctx, &tree, &Place::local(LocalId(0)), SUCC, FAIL);
    assert_eq!(
        term(&ctx, 0),
        "Some(Switch { discriminant: Local(LocalId(0)), cases: [(\"A\", BlockId(3)), (\"B\", BlockId(4)), (\"_\", BlockId(5))] })"
    );
    assert_eq!(term(&ctx, 3), "Some(Jump(BlockId(2)))");
    assert_eq!(term(&ctx, 4), "Some(Jump(BlockId(1)))");
    assert_eq!(term(&ctx, 5), "Some(Jump(BlockId(1)))");
}

#[test]
fn bool_switch_branches_and_fails_missing_sides() {
    let (mut ctx, _) = setup();
    let tree = DecisionTree::Switch {
        path: vec![PathElement::Field("flag".to_string())],
        kind: SwitchKind::Bool,
        cases: vec![(Constructor::True, success(vec![]))],
        default: None,
    };
    emit_let_decision_tree(&mut ctx, &tree, &Place::local(LocalId(4)), SUCC, FAIL);
    assert_eq!(
        term(&ctx, 0),
        "Some(Branch { condition: Place(Field(Local(LocalId(4)), \"flag\")), then_block: BlockId(3), else_block: BlockId(4) })"
    );
    assert_eq!(term(&ctx, 3), "Some(Jump(BlockId(1)))");
    assert_eq!(term(&ctx, 4), "Some(Jump(BlockId(2)))");
}

#[test]
fn int_chain_tests_literals_and_ranges_in_order() {
    let (mut ctx, _) = setup();
    let tree = switch(
        SwitchKind::Int(IntBits::I16),
        vec![
            (Constructor::IntLiteral(1), success(vec![])),
            (Constructor::CharLiteral('a'), success(vec![])),
            (Constructor::IntRange { start: 2, end: 5 }, success(vec![])),
        ],
        None,
    );
    emit_let_decision_tree(&mut ctx, &tree, &Place::local(LocalId(8)), SUCC, FAIL);
    assert_eq!(
        stmts(&ctx, 0),
        vec!["Assign { dest: Local(LocalId(0)), rvalue: BinaryOp { op: Eq, lhs: Place(Local(LocalId(8))), rhs: Immediate(Int(I16, 1)) } }"]
    );
    assert_eq!(
        term(&ctx, 0),
        "Some(Branch { condition: Place(Local(LocalId(0))), then_block: BlockId(3), else_block: BlockId(4) })"
    );
    assert_eq!(term(&ctx, 3), "Some(Jump(BlockId(1)))");
    assert_eq!(stmts(&ctx, 4).len(), 3);
    assert_eq!(
        term(&ctx, 4),
        "Some(Branch { condition: Place(Local(LocalId(3))), then_block: BlockId(5), else_block: BlockId(6) })"
    );
    assert_eq!(term(&ctx, 5), "Some(Jump(BlockId(1)))");
    assert_eq!(term(&ctx, 6), "Some(Jump(BlockId(2)))");
    let names: Vec<String> = ctx.mir.locals.iter().map(|l| l.name.clone()).collect();
    assert_eq!(names, vec!["cmp_0", "cmp_lo_1", "cmp_hi_2", "cmp_range_3"]);
}

#[test]
fn string_chain_compares_with_eq() {
    let (mut ctx, _) = setup();
    let tree = switch(
        SwitchKind::Str,
        vec![(Constructor::StringLiteral("on".to_string()), success(vec![]))],
        Some(DecisionTree::Failure),
    );
    emit_let_decision_tree(&mut ctx, &tree, &Place::local(LocalId(2)), SUCC, FAIL);
    assert_eq!(
        stmts(&ctx, 0),
        vec!["Assign { dest: Local(LocalId(0)), rvalue: BinaryOp { op: Eq, lhs: Place(Local(LocalId(2))), rhs: Immediate(Str(\"on\")) } }"]
    );
    assert_eq!(term(&ctx, 3), "Some(Jump(BlockId(1)))");
    assert_eq!(term(&ctx, 4), "Some(Jump(BlockId(2)))");
}

#[test]
fn empty_chain_takes_the_default() {
    let (mut ctx, _) = setup();
    emit_let_decision_tree(&mut ctx, &switch(SwitchKind::Int(IntBits::I16), vec![], Some(success(vec![]))), &Place::local(LocalId(0)), SUCC, FAIL);
    assert_eq!(term(&ctx, 0), "Some(Jump(BlockId(1)))");
    assert_eq!(ctx.mir.blocks.len(), 3);
}

#[test]
fn tuple_takes_the_first_case_and_other_types_the_default() {
    let (mut ctx, _) = setup();
    let tuple = switch(SwitchKind::Tuple, vec![(Constructor::Single, success(vec![]))], Some(DecisionTree::Failure));
    emit_let_decision_tree(&mut ctx, &tuple, &Place::local(LocalId(0)), SUCC, FAIL);
    assert_eq!(term(&ctx, 0), "Some(Jump(BlockId(1)))");
    let (mut ctx, _) = setup();
    let other = switch(SwitchKind::Other, vec![(Constructor::Single, success(vec![]))], Some(DecisionTree::Failure));
    emit_let_decision_tree(&mut ctx, &other, &Place::local(LocalId(0)), SUCC, FAIL);
    assert_eq!(term(&ctx, 0), "Some(Jump(BlockId(2)))");
    let (mut ctx, _) = setup();
    emit_let_decision_tree(&mut ctx, &switch(SwitchKind::Struct, vec![], None), &Place::local(LocalId(0)), SUCC, FAIL);
    assert_eq!(term(&ctx, 0), "Some(Jump(BlockId(2)))");
}

#[test]
fn scrutinee_immediates_are_stored_in_a_temp() {
    let (mut ctx, ty) = setup();
    let p = place_scrutinee(&mut ctx, Value::Place(Place::local(LocalId(3))), ty);
    assert_eq!(format!("{:?}", p), "Some(Local(LocalId(3)))");
    assert!(stmts(&ctx, 0).is_empty());
    let p = place_scrutinee(&mut ctx, Value::Immediate(Immediate::Bool(true)), ty);
    assert_eq!(format!("{:?}", p), "Some(Local(LocalId(0)))");
    assert_eq!(stmts(&ctx, 0), vec!["Assign { dest: Local(LocalId(0)), rvalue: Use(Bool(true)) }"]);
    assert_eq!(ctx.mir.locals[0].name, "scrutinee_0");
    assert!(place_scrutinee(&mut ctx, Value::Unreachable, ty).is_none());
    assert_eq!(stmts(&ctx, 0).len(), 1);
}
