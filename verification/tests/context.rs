use kestrel_execution_graph_lowering::sem::IntBits;
use kestrel_execution_graph_lowering::context::{DeinitStatus, LoweringContext, ScopeInfo};
use kestrel_execution_graph_lowering::error::{LoweringError, Severity, Span};
use kestrel_execution_graph_lowering::mir::{
    BlockId, CallArg, Callee, FunctionId, Immediate, LocalId, NameId, Place, Value,
};
use kestrel_execution_graph_lowering::sem::{LoopId, SemLocalId};
use kestrel_execution_graph_lowering::table::Table;

fn in_function() -> (LoweringContext, FunctionId, BlockId) {
    let mut ctx = LoweringContext::new();
    let name = ctx.mir.intern_name_parts(&["Test", "foo"]);
    let unit = ctx.mir.ty_unit();
    let f = ctx.mir.add_function(name, unit);
    ctx.enter_function(f);
    let b = ctx.create_block();
    ctx.set_current_block(b);
    (ctx, f, b)
}

fn stmts(ctx: &LoweringContext, b: BlockId) -> Vec<String> {
    ctx.mir.blocks[b.0].statements.iter().map(|s| format!("{:?}", s)).collect()
}

fn span() -> Span {
    Span { file_id: 0, start: 3, end: 7 }
}

#[test]
fn fresh_temps_are_numbered() {
    let (mut ctx, _, _) = in_function();
    assert_eq!(ctx.fresh_temp("tmp"), "tmp_0");
    assert_eq!(ctx.fresh_temp("tmp"), "tmp_1");
    assert_eq!(ctx.fresh_temp("arg_ref"), "arg_ref_2");
    assert_eq!(ctx.get_temp_counter(), 3);
}

#[test]
fn temps_are_named_locals_of_the_function() {
    let (mut ctx, f, _) = in_function();
    let ty = ctx.mir.ty_bool();
    let a = ctx.create_temp("cmp", ty);
    let b = ctx.create_temp("cmp", ty);
    assert_eq!(ctx.mir.locals[a.0].name, "cmp_0");
    assert_eq!(ctx.mir.locals[b.0].name, "cmp_1");
    assert_eq!(ctx.mir.functions[f.0].locals, vec![a, b]);
}

#[test]
fn closure_indices_count_up_per_function() {
    let (mut ctx, f, _) = in_function();
    assert_eq!(ctx.next_closure_index(), 0);
    assert_eq!(ctx.next_closure_index(), 1);
    ctx.enter_function(f);
    assert_eq!(ctx.next_closure_index(), 0);
}

#[test]
fn loops_are_found_innermost_first() {
    let (mut ctx, _, b) = in_function();
    ctx.push_loop(LoopId(1), b, b, Some("outer".to_string()));
    ctx.enter_scope();
    ctx.push_loop(LoopId(2), b, b, None);
    ctx.push_loop(LoopId(1), b, b, None);
    assert_eq!(ctx.find_loop(LoopId(1)).unwrap().scope_depth, 1);
    assert_eq!(ctx.find_loop_by_label("outer").unwrap().loop_id, LoopId(1));
    assert_eq!(ctx.find_loop_by_label("outer").unwrap().scope_depth, 0);
    assert!(ctx.find_loop_by_label("inner").is_none());
    assert!(ctx.find_loop(LoopId(9)).is_none());
    assert_eq!(ctx.loop_stack_ids(), vec![LoopId(1), LoopId(2), LoopId(1)]);
    assert_eq!(ctx.innermost_loop().unwrap().loop_id, LoopId(1));
    let popped = ctx.pop_loop().unwrap();
    assert_eq!(popped.loop_id, LoopId(1));
    assert_eq!(ctx.loop_stack_ids(), vec![LoopId(1), LoopId(2)]);
}

#[test]
fn local_map_save_and_restore() {
    let (mut ctx, _, _) = in_function();
    ctx.map_local(SemLocalId(7), LocalId(3));
    let saved = ctx.save_local_map();
    ctx.map_local(SemLocalId(7), LocalId(4));
    ctx.map_local(SemLocalId(8), LocalId(5));
    assert_eq!(ctx.get_local(SemLocalId(7)), Some(LocalId(4)));
    ctx.restore_local_map(saved);
    assert_eq!(ctx.get_local(SemLocalId(7)), Some(LocalId(3)));
    assert_eq!(ctx.get_local(SemLocalId(8)), None);
    assert_eq!(ctx.get_local_unwrap(SemLocalId(7)), LocalId(3));
}

#[test]
fn statements_and_terminators_go_to_the_current_block() {
    let (mut ctx, _, b) = in_function();
    assert!(!ctx.is_block_terminated());
    ctx.emit_imm(Place::local(LocalId(0)), Immediate::Int(IntBits::I64, 42));
    ctx.emit_copy(Place::local(LocalId(1)), Place::local(LocalId(0)));
    ctx.emit_assign_value(Place::local(LocalId(1)), Value::Unreachable);
    assert_eq!(
        stmts(&ctx, b),
        vec![
            "Assign { dest: Local(LocalId(0)), rvalue: Use(Int(I64, 42)) }".to_string(),
            "Assign { dest: Local(LocalId(1)), rvalue: Copy(Local(LocalId(0))) }".to_string(),
        ]
    );
    ctx.emit_return_unit();
    assert!(ctx.is_block_terminated());
    assert_eq!(
        format!("{:?}", ctx.mir.blocks[b.0].terminator),
        "Some(Return(Immediate(Unit)))"
    );
}

#[test]
fn calls_borrow_their_arguments() {
    let (mut ctx, _, b) = in_function();
    let callee_name = ctx.mir.intern_name_parts(&["Test", "bar"]);
    ctx.emit_call(
        Place::local(LocalId(2)),
        Callee::direct(callee_name),
        vec![Value::Place(Place::local(LocalId(0))), Value::Immediate(Immediate::Bool(true))],
    );
    ctx.emit_call_unit(Callee::direct(callee_name), vec![]);
    ctx.emit_direct_call(Place::local(LocalId(3)), callee_name, vec![], vec![]);
    ctx.emit_call_unit_with_modes(
        Callee::direct(callee_name),
        vec![CallArg::moving(Value::Place(Place::local(LocalId(5))))],
    );
    let s = stmts(&ctx, b);
    assert_eq!(s.len(), 4);
    assert_eq!(
        s[0],
        "Assign { dest: Local(LocalId(2)), rvalue: Call { callee: Direct { name: NameId(1), type_args: [] }, args: [CallArg { value: Place(Local(LocalId(0))), mode: Ref }, CallArg { value: Immediate(Bool(true)), mode: Ref }] } }"
    );
    assert_eq!(s[1], "Call { callee: Direct { name: NameId(1), type_args: [] }, args: [] }");
    assert_eq!(
        s[3],
        "Call { callee: Direct { name: NameId(1), type_args: [] }, args: [CallArg { value: Place(Local(LocalId(5))), mode: Move }] }"
    );
}

#[test]
fn tracked_locals_start_valid_and_can_be_moved() {
    let (mut ctx, _, _) = in_function();
    ctx.enter_scope();
    ctx.track_local(LocalId(0), true, None);
    ctx.track_local(LocalId(1), false, None);
    assert_eq!(ctx.get_current_deinit_status(LocalId(0)), Some(DeinitStatus::Valid));
    assert_eq!(ctx.get_current_deinit_status(LocalId(1)), None);
    ctx.mark_moved(LocalId(0));
    assert_eq!(ctx.get_current_deinit_status(LocalId(0)), Some(DeinitStatus::Moved));
    ctx.mark_moved(LocalId(1));
    assert_eq!(ctx.get_current_deinit_status(LocalId(1)), None);
}

#[test]
fn inner_scope_status_wins() {
    let (mut ctx, _, _) = in_function();
    ctx.enter_scope();
    ctx.track_local(LocalId(0), true, None);
    ctx.enter_scope();
    ctx.track_local(LocalId(0), true, None);
    ctx.mark_moved(LocalId(0));
    assert_eq!(ctx.get_current_deinit_status(LocalId(0)), Some(DeinitStatus::Moved));
    let inner = ctx.exit_scope_no_emit().unwrap();
    assert_eq!(inner.locals, vec![LocalId(0)]);
    assert_eq!(ctx.get_current_deinit_status(LocalId(0)), Some(DeinitStatus::Valid));
    assert_eq!(ctx.scope_depth(), 1);
}

#[test]
fn snapshot_then_restore_gives_back_statuses() {
    let (mut ctx, _, _) = in_function();
    ctx.enter_scope();
    ctx.track_local(LocalId(0), true, None);
    ctx.track_local(LocalId(1), true, None);
    let snapshot = ctx.snapshot_parent_deinit_statuses();
    ctx.mark_moved(LocalId(0));
    ctx.update_deinit_status(LocalId(1), DeinitStatus::MaybeMoved { flag: LocalId(9) });
    ctx.restore_deinit_statuses(&snapshot);
    assert_eq!(ctx.get_current_deinit_status(LocalId(0)), Some(DeinitStatus::Valid));
    assert_eq!(ctx.get_current_deinit_status(LocalId(1)), Some(DeinitStatus::Valid));
    assert_eq!(ctx.snapshot_parent_deinit_statuses().entries, snapshot.entries);
}

#[test]
fn maybe_moved_creates_an_initialized_flag() {
    let (mut ctx, f, b) = in_function();
    ctx.enter_scope();
    ctx.track_local(LocalId(0), true, None);
    let flag = ctx.mark_maybe_moved(LocalId(0));
    assert_eq!(ctx.mir.locals[flag.0].name, "__deinit_flag_0");
    assert_eq!(stmts(&ctx, b), vec![format!("SetDeinitFlag {{ flag: {:?}, value: true }}", flag)]);
    assert_eq!(
        ctx.get_current_deinit_status(LocalId(0)),
        Some(DeinitStatus::MaybeMoved { flag })
    );
    assert_eq!(ctx.mark_maybe_moved(LocalId(0)), flag);
    assert_eq!(stmts(&ctx, b).len(), 1);
    assert_eq!(ctx.get_deinit_flag_counter(), 1);
    assert!(ctx.mir.functions[f.0].locals.contains(&flag));
}

#[test]
fn moving_a_value_marks_its_local_moved() {
    let (mut ctx, _, b) = in_function();
    ctx.enter_scope();
    ctx.track_local(LocalId(0), true, None);
    ctx.emit_copy_or_move_value(Place::local(LocalId(1)), Value::Place(Place::local(LocalId(0))), true);
    assert_eq!(ctx.get_current_deinit_status(LocalId(0)), Some(DeinitStatus::Valid));
    ctx.emit_copy_or_move_value(Place::local(LocalId(1)), Value::Place(Place::local(LocalId(0))), false);
    assert_eq!(ctx.get_current_deinit_status(LocalId(0)), Some(DeinitStatus::Moved));
    let s = stmts(&ctx, b);
    assert_eq!(s[0], "Assign { dest: Local(LocalId(1)), rvalue: Copy(Local(LocalId(0))) }");
    assert_eq!(s[1], "Assign { dest: Local(LocalId(1)), rvalue: Move(Local(LocalId(0))) }");
}

#[test]
fn statement_temps_are_deinited_last_first() {
    let (mut ctx, _, b) = in_function();
    ctx.enter_scope();
    ctx.track_statement_temp(LocalId(0));
    ctx.track_statement_temp(LocalId(1));
    ctx.track_statement_temp(LocalId(2));
    ctx.mark_moved(LocalId(1));
    ctx.emit_temp_deinits();
    assert_eq!(
        stmts(&ctx, b),
        vec![
            "Deinit { place: Local(LocalId(2)) }".to_string(),
            "Deinit { place: Local(LocalId(0)) }".to_string(),
        ]
    );
    assert!(ctx.save_statement_temps().is_empty());
}

#[test]
fn branch_merge_of_valid_and_moved() {
    let (mut ctx, _, _) = in_function();
    let mut before = Table::new();
    before.insert(LocalId(0), DeinitStatus::Valid);
    before.insert(LocalId(1), DeinitStatus::Valid);
    before.insert(LocalId(2), DeinitStatus::Valid);
    let mut then_s = Table::new();
    then_s.insert(LocalId(0), DeinitStatus::Moved);
    then_s.insert(LocalId(1), DeinitStatus::Moved);
    let mut else_s = Table::new();
    else_s.insert(LocalId(1), DeinitStatus::Moved);
    let locals_before = ctx.mir.locals.len();
    let r = ctx.compute_branch_merge(&before, &then_s, &else_s);
    let flag = LocalId(locals_before);
    assert_eq!(
        r.updates,
        vec![
            (LocalId(0), DeinitStatus::MaybeMoved { flag }),
            (LocalId(1), DeinitStatus::Moved),
        ]
    );
    assert_eq!(r.then_flag_false, vec![flag]);
    assert_eq!(r.else_flag_true, vec![flag]);
    assert!(r.then_flag_true.is_empty());
    assert!(r.else_flag_false.is_empty());
    assert_eq!(ctx.mir.locals[flag.0].name, "__deinit_flag_0");
}

#[test]
fn branch_merge_keeps_existing_flags() {
    let (mut ctx, _, _) = in_function();
    let f = LocalId(40);
    let mut before = Table::new();
    before.insert(LocalId(0), DeinitStatus::MaybeMoved { flag: f });
    let mut then_s = Table::new();
    then_s.insert(LocalId(0), DeinitStatus::Moved);
    let else_s = Table::new();
    let r = ctx.compute_branch_merge(&before, &then_s, &else_s);
    assert!(r.updates.is_empty());
    assert_eq!(r.then_flag_false, vec![f]);
    assert!(r.else_flag_false.is_empty());
    assert_eq!(ctx.get_deinit_flag_counter(), 0);
}

#[test]
fn merge_branch_scopes_creates_flag_for_divergent_move() {
    let (mut ctx, _, b) = in_function();
    ctx.enter_scope();
    ctx.track_local(LocalId(0), true, None);
    ctx.track_local(LocalId(1), true, None);
    let mut then_scope = ScopeInfo::new();
    then_scope.deinit_status.insert(LocalId(0), DeinitStatus::Moved);
    then_scope.deinit_status.insert(LocalId(1), DeinitStatus::Moved);
    let mut else_scope = ScopeInfo::new();
    else_scope.deinit_status.insert(LocalId(1), DeinitStatus::Moved);
    let locals_before = ctx.mir.locals.len();
    let updates = ctx.merge_branch_scopes(&then_scope, &else_scope);
    let flag = LocalId(locals_before);
    assert_eq!(
        updates,
        vec![
            (LocalId(0), DeinitStatus::MaybeMoved { flag }),
            (LocalId(1), DeinitStatus::Moved),
        ]
    );
    assert_eq!(stmts(&ctx, b), vec![format!("SetDeinitFlag {{ flag: {:?}, value: true }}", flag)]);
    ctx.apply_merge_updates(updates);
    assert_eq!(ctx.get_current_deinit_status(LocalId(1)), Some(DeinitStatus::Moved));
}

#[test]
fn errors_become_diagnostics() {
    let mut ctx = LoweringContext::new();
    ctx.emit_error(LoweringError::missing_body("main", span()));
    ctx.emit_error(LoweringError::unsupported_expr("await", span()));
    ctx.emit_error(LoweringError::internal("bad state", None));
    let result = ctx.finish();
    assert_eq!(result.diagnostics.len(), 3);
    let d0 = &result.diagnostics[0];
    assert_eq!(d0.severity, Severity::Error);
    assert_eq!(d0.message, "function 'main' is missing a body");
    assert_eq!(d0.labels[0].message, "expected a function body");
    assert_eq!((d0.labels[0].start, d0.labels[0].end), (3, 7));
    let d1 = &result.diagnostics[1];
    assert_eq!(d1.severity, Severity::Warning);
    assert_eq!(d1.message, "unsupported expression: await");
    assert_eq!(
        d1.labels[0].message,
        "this expression kind is not yet supported in MIR lowering"
    );
    let d2 = &result.diagnostics[2];
    assert_eq!(d2.severity, Severity::Bug);
    assert_eq!(d2.message, "internal lowering error: bad state");
    assert!(d2.labels.is_empty());
    assert!(result.has_errors());
}

#[test]
fn warnings_alone_are_no_errors() {
    let mut ctx = LoweringContext::new();
    ctx.emit_error(LoweringError::unsupported("async", span()));
    ctx.emit_error(LoweringError::unsupported_type("Float80", span()));
    let result = ctx.finish();
    assert_eq!(result.diagnostics[0].message, "unsupported construct: async");
    assert_eq!(result.diagnostics[1].message, "unsupported type: Float80");
    assert!(!result.has_errors());
    let empty = LoweringContext::new().finish();
    assert!(!empty.has_errors());
}

#[test]
fn name_ids_are_stable() {
    let mut ctx = LoweringContext::new();
    let a = ctx.mir.intern_name_parts(&["Test", "a"]);
    let b = ctx.mir.intern_name_parts(&["Test", "b"]);
    let a2 = ctx.mir.intern_name_parts(&["Test", "a"]);
    assert_eq!(a, NameId(0));
    assert_eq!(b, NameId(1));
    assert_eq!(a2, a);
    assert_eq!(ctx.mir.names.len(), 2);
}
