use kestrel_execution_graph_lowering::context::{DeinitStatus, LoweringContext};
use kestrel_execution_graph_lowering::if_join::{assign_branch_value, begin_if, close_branch, join_if_branches};
use kestrel_execution_graph_lowering::mir::{BlockId, Immediate, LocalId, Place, Value};

fn stmts(ctx: &LoweringContext, b: BlockId) -> Vec<String> {
    ctx.mir.blocks[b.0].statements.iter().map(|s| format!("{:?}", s)).collect()
}

fn term(ctx: &LoweringContext, b: BlockId) -> String {
    format!("{:?}", ctx.mir.blocks[b.0].terminator)
}

#[test]
fn if_moving_in_one_branch_joins_with_a_flag() {
    let mut ctx = LoweringContext::new();
    let name = ctx.mir.intern_name_parts(&["Test", "f"]);
    let unit = ctx.mir.ty_unit();
    let f = ctx.mir.add_function(name, unit);
    ctx.enter_function(f);
    let entry = ctx.create_block();
    ctx.set_current_block(entry);
    ctx.enter_scope();
    let x = ctx.create_local("x", unit);
    ctx.track_local(x, true, None);
    let bool_ty = ctx.mir.ty_bool();

    let start = begin_if(&mut ctx, false, bool_ty, false);
    let result = start.result.unwrap();
    let join = start.join.unwrap();
    assert_eq!(ctx.mir.locals[result.0].name, "if_result_0");
    assert_eq!((join.0, start.else_block.0, start.then_block.0), (entry.0 + 1, entry.0 + 2, entry.0 + 3));
    ctx.emit_branch(Value::Immediate(Immediate::Bool(true)), start.then_block, start.else_block);

    // then: moves x, value `true`
    ctx.set_current_block(start.then_block);
    ctx.enter_scope();
    ctx.mark_moved(x);
    assign_branch_value(&mut ctx, Some(result), Some(Value::Immediate(Immediate::Bool(true))));
    let then_end = close_branch(&mut ctx);
    assert!(!then_end.terminated);
    assert_eq!(then_end.final_block, Some(start.then_block));

    // else: no value
    ctx.restore_deinit_statuses(&start.before);
    ctx.set_current_block(start.else_block);
    ctx.enter_scope();
    assign_branch_value(&mut ctx, Some(result), None);
    let else_end = close_branch(&mut ctx);

    let flags_before = ctx.get_deinit_flag_counter();
    let v = join_if_branches(&mut ctx, &start.before, &then_end, &else_end, start.join, start.result);
    assert_eq!(format!("{:?}", v), format!("Place(Local(LocalId({})))", result.0));
    assert_eq!(ctx.current_block(), Some(join));
    assert_eq!(ctx.get_deinit_flag_counter(), flags_before + 1);
    let flag = LocalId(ctx.mir.locals.len() - 1);
    assert_eq!(ctx.mir.locals[flag.0].name, "__deinit_flag_0");
    let then_stmts = stmts(&ctx, start.then_block);
    assert_eq!(then_stmts[0], format!("Assign {{ dest: Local(LocalId({})), rvalue: Use(Bool(true)) }}", result.0));
    assert_eq!(then_stmts[1], format!("SetDeinitFlag {{ flag: {:?}, value: false }}", flag));
    assert_eq!(term(&ctx, start.then_block), format!("Some(Jump({:?}))", join));
    let else_stmts = stmts(&ctx, start.else_block);
    assert_eq!(else_stmts[0], format!("Assign {{ dest: Local(LocalId({})), rvalue: Use(Unit) }}", result.0));
    assert_eq!(else_stmts[1], format!("SetDeinitFlag {{ flag: {:?}, value: true }}", flag));
    assert_eq!(term(&ctx, start.else_block), format!("Some(Jump({:?}))", join));
    assert_eq!(ctx.get_current_deinit_status(x), Some(DeinitStatus::MaybeMoved { flag }));
}

#[test]
fn diverging_if_has_no_result_and_no_join() {
    let mut ctx = LoweringContext::new();
    let name = ctx.mir.intern_name_parts(&["Test", "g"]);
    let unit = ctx.mir.ty_unit();
    let f = ctx.mir.add_function(name, unit);
    ctx.enter_function(f);
    let entry = ctx.create_block();
    ctx.set_current_block(entry);
    let start = begin_if(&mut ctx, true, unit, false);
    assert!(start.result.is_none() && start.join.is_none());
    assert_eq!((start.else_block.0, start.then_block.0), (entry.0 + 1, entry.0 + 2));
    ctx.set_current_block(start.then_block);
    ctx.enter_scope();
    ctx.emit_return(Value::Immediate(Immediate::Unit));
    assign_branch_value(&mut ctx, start.result, None);
    let then_end = close_branch(&mut ctx);
    assert!(then_end.terminated);
    ctx.set_current_block(start.else_block);
    ctx.enter_scope();
    ctx.emit_return(Value::Immediate(Immediate::Unit));
    let else_end = close_branch(&mut ctx);
    let v = join_if_branches(&mut ctx, &start.before, &then_end, &else_end, start.join, start.result);
    assert!(matches!(v, Value::Immediate(Immediate::Unit)));
    assert_eq!(stmts(&ctx, start.then_block).len(), 0);
    assert_eq!(ctx.get_deinit_flag_counter(), 0);
    let _ = Place::local(LocalId(0));
}
