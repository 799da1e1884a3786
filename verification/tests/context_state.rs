use std::rc::Rc;

use kestrel_execution_graph_lowering::context::LoweringContext;
use kestrel_execution_graph_lowering::error::{Diagnostic, LoweringError, Severity, Span};
use kestrel_execution_graph_lowering::mir::{
    BlockId, CallArg, Callee, LocalId, PassingMode, Place, TypeParamId, Value,
};
use kestrel_execution_graph_lowering::sem::{IntBits, LoopId, SemTy, SymbolId};

fn in_function() -> (LoweringContext, BlockId) {
    let mut ctx = LoweringContext::new();
    let name = ctx.mir.intern_name_parts(&["Test", "g"]);
    let unit = ctx.mir.ty_unit();
    let f = ctx.mir.add_function(name, unit);
    ctx.enter_function(f);
    let b = ctx.create_block();
    ctx.set_current_block(b);
    (ctx, b)
}

#[test]
fn type_params_map_and_clear() {
    let mut ctx = LoweringContext::new();
    ctx.map_type_param(SymbolId(3), TypeParamId(0));
    ctx.map_type_param(SymbolId(4), TypeParamId(1));
    assert_eq!(ctx.get_type_param(SymbolId(3)), Some(TypeParamId(0)));
    assert_eq!(ctx.get_type_param(SymbolId(9)), None);
    ctx.clear_type_params();
    assert_eq!(ctx.get_type_param(SymbolId(3)), None);
}

#[test]
fn counters_can_be_saved_and_set() {
    let (mut ctx, _) = in_function();
    ctx.set_closure_counter(7);
    assert_eq!(ctx.get_closure_counter(), 7);
    assert_eq!(ctx.next_closure_index(), 7);
    assert_eq!(ctx.get_closure_counter(), 8);
    ctx.set_temp_counter(41);
    assert_eq!(ctx.fresh_temp("t"), "t_41");
    ctx.set_deinit_flag_counter(2);
    assert_eq!(ctx.get_deinit_flag_counter(), 2);
}

#[test]
fn loop_and_scope_stacks_restore() {
    let (mut ctx, b) = in_function();
    ctx.push_loop(LoopId(1), b, b, Some("outer".to_string()));
    let saved_loops = ctx.save_loop_stack();
    ctx.push_loop(LoopId(2), b, b, None);
    assert_eq!(ctx.loop_stack_ids(), vec![LoopId(1), LoopId(2)]);
    ctx.restore_loop_stack(saved_loops);
    assert_eq!(ctx.loop_stack_ids(), vec![LoopId(1)]);

    ctx.enter_scope();
    let saved_scopes = ctx.save_scope_stack();
    ctx.enter_scope();
    ctx.enter_scope();
    assert_eq!(ctx.scope_depth(), 3);
    ctx.restore_scope_stack(saved_scopes);
    assert_eq!(ctx.scope_depth(), 1);
}

#[test]
fn statement_temps_restore() {
    let (mut ctx, _) = in_function();
    ctx.track_statement_temp(LocalId(4));
    let saved = ctx.save_statement_temps();
    ctx.track_statement_temp(LocalId(5));
    ctx.restore_statement_temps(saved);
    assert_eq!(ctx.save_statement_temps(), vec![LocalId(4)]);
}

#[test]
fn local_types_are_recorded_when_tracked() {
    let (mut ctx, _) = in_function();
    ctx.enter_scope();
    ctx.track_local(LocalId(0), true, Some(Rc::new(SemTy::Int(IntBits::I8))));
    ctx.track_local(LocalId(1), false, None);
    assert_eq!(format!("{:?}", ctx.get_local_type(LocalId(0))), "Some(Int(I8))");
    assert!(ctx.get_local_type(LocalId(1)).is_none());
}

#[test]
fn deinit_flags_are_set_by_a_statement() {
    let (mut ctx, b) = in_function();
    ctx.set_deinit_flag(LocalId(3), false);
    assert_eq!(
        format!("{:?}", ctx.mir.blocks[b.0].statements),
        "[SetDeinitFlag { flag: LocalId(3), value: false }]"
    );
}

#[test]
fn calls_with_modes_and_raw_diagnostics() {
    let (mut ctx, b) = in_function();
    let name = ctx.mir.intern_name_parts(&["Test", "h"]);
    ctx.emit_call_with_modes(
        Place::local(LocalId(0)),
        Callee::direct(name),
        vec![CallArg::mutating(Value::Place(Place::deref(Place::local(LocalId(1)))))],
    );
    let s = format!("{:?}", ctx.mir.blocks[b.0].statements[0]);
    assert!(s.contains("Deref(Local(LocalId(1)))") && s.contains(&format!("{:?}", PassingMode::MutRef)));
    ctx.emit_diagnostic(Diagnostic { severity: Severity::Note, message: "note".to_string(), labels: vec![] });
    ctx.emit_error(LoweringError::unsupported_stmt("defer", Span { file_id: 0, start: 1, end: 2 }));
    ctx.emit_error(LoweringError::unsupported_pattern("slice", Span { file_id: 0, start: 3, end: 4 }));
    let r = ctx.finish();
    assert_eq!(r.diagnostics.len(), 3);
    assert_eq!(r.diagnostics[0].message, "note");
    assert_eq!(r.diagnostics[1].message, "unsupported statement: defer");
    assert_eq!(r.diagnostics[2].message, "unsupported pattern: slice");
    assert!(!r.has_errors());
}

#[test]
fn leaving_the_function_by_setter() {
    let (mut ctx, _) = in_function();
    let f = ctx.current_function();
    ctx.set_current_function(None);
    assert_eq!(ctx.current_function(), None);
    ctx.set_current_function(f);
    assert_eq!(ctx.current_function(), f);
}

#[test]
fn parameters_are_locals_of_their_function() {
    let mut ctx = LoweringContext::new();
    let name = ctx.mir.intern_name_parts(&["Test", "k"]);
    let unit = ctx.mir.ty_unit();
    let f = ctx.mir.add_function(name, unit);
    let p = ctx.mir.add_param(f, "self".to_string(), unit);
    assert_eq!(p, LocalId(0));
    assert_eq!(ctx.mir.functions[f.0].params, vec![p]);
    assert_eq!(ctx.mir.functions[f.0].locals, vec![p]);
}

#[test]
fn unreachable_values_assign_nothing_even_without_a_block() {
    let mut ctx = LoweringContext::new();
    ctx.emit_assign_value(Place::local(LocalId(0)), Value::Unreachable);
    ctx.emit_move_value(Place::local(LocalId(0)), Value::Unreachable);
    ctx.emit_copy_or_move_value(Place::local(LocalId(0)), Value::Unreachable, false);
    assert!(ctx.mir.blocks.is_empty());
    assert!(ctx.diagnostics.is_empty());
}
