use kestrel_execution_graph_lowering::bound_method::create_static_method_reference;
use kestrel_execution_graph_lowering::closure::{closure_capture_values, emit_apply_partial};
use kestrel_execution_graph_lowering::context::LoweringContext;
use kestrel_execution_graph_lowering::mir::{BlockId, LocalId, MirTy, Place, Value};
use kestrel_execution_graph_lowering::sem::SemLocalId;

fn in_function() -> (LoweringContext, BlockId) {
    let mut ctx = LoweringContext::new();
    let name = ctx.mir.intern_name_parts(&["Test", "f"]);
    let unit = ctx.mir.ty_unit();
    let f = ctx.mir.add_function(name, unit);
    ctx.enter_function(f);
    let b = ctx.create_block();
    ctx.set_current_block(b);
    (ctx, b)
}

#[test]
fn captures_are_read_from_the_local_map() {
    let (mut ctx, _) = in_function();
    ctx.map_local(SemLocalId(10), LocalId(3));
    ctx.map_local(SemLocalId(11), LocalId(1));
    let vs = closure_capture_values(&ctx, &vec![SemLocalId(11), SemLocalId(10), SemLocalId(11)]);
    let shown: Vec<String> = vs.iter().map(|v| format!("{:?}", v)).collect();
    assert_eq!(shown, vec!["Place(Local(LocalId(1)))", "Place(Local(LocalId(3)))", "Place(Local(LocalId(1)))"]);
}

#[test]
fn closure_value_is_a_partial_application_in_a_temp() {
    let (mut ctx, b) = in_function();
    let thick = ctx.mir.intern_type(MirTy::Unit);
    let func = ctx.mir.intern_name_parts(&["Test", "f.closure.0"]);
    let v = emit_apply_partial(&mut ctx, "closure", func, thick, vec![Value::Place(Place::local(LocalId(7)))]);
    assert_eq!(format!("{:?}", v), "Place(Local(LocalId(0)))");
    assert_eq!(ctx.mir.locals[0].name, "closure_0");
    assert_eq!(ctx.mir.locals[0].ty, thick);
    assert_eq!(
        format!("{:?}", ctx.mir.blocks[b.0].statements[0]),
        format!("Assign {{ dest: Local(LocalId(0)), rvalue: ApplyPartial {{ func: {:?}, captures: [Place(Local(LocalId(7)))] }} }}", func)
    );
}

#[test]
fn static_method_reference_captures_nothing() {
    let (mut ctx, b) = in_function();
    ctx.fresh_temp("x");
    let thick = ctx.mir.intern_type(MirTy::Bool);
    let func = ctx.mir.intern_name_parts(&["Test", "S", "make"]);
    let v = create_static_method_reference(&mut ctx, func, thick);
    assert_eq!(format!("{:?}", v), "Place(Local(LocalId(0)))");
    assert_eq!(ctx.mir.locals[0].name, "static_method_ref_1");
    assert_eq!(
        format!("{:?}", ctx.mir.blocks[b.0].statements[0]),
        format!("Assign {{ dest: Local(LocalId(0)), rvalue: ApplyPartial {{ func: {:?}, captures: [] }} }}", func)
    );
}
