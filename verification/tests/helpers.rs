use std::rc::Rc;

use kestrel_execution_graph_lowering::bound_method::generate_bound_method_names;
use kestrel_execution_graph_lowering::closure::{
    build_effective_params, extract_return_type, generate_closure_names, ClosureParam,
};
use kestrel_execution_graph_lowering::context::{DeinitStatus, LoweringContext};
use kestrel_execution_graph_lowering::error::Span;
use kestrel_execution_graph_lowering::expr::{
    access_mode_to_passing_mode, build_indirect_call_args, determine_cast_kind, mark_moved_args,
    try_get_local_from_value, ParameterAccessMode, PrimitiveInfo,
};
use kestrel_execution_graph_lowering::match_lowering::{
    apply_path, emit_bindings, has_literal_constructors, Binding, Constructor, PathElement,
};
use kestrel_execution_graph_lowering::call_args::create_ref;
use kestrel_execution_graph_lowering::mir::MirTy;
use kestrel_execution_graph_lowering::mir::{
    CallArg, CastKind, FunctionId, Immediate, LocalId, PassingMode, Place, Value,
};
use kestrel_execution_graph_lowering::mir_assert::{assert_mir_contains, assert_mir_not_contains};
use kestrel_execution_graph_lowering::module::inject_init_call_into_main;
use kestrel_execution_graph_lowering::sem::{IntBits, SemLocalId, SemTy};

fn function(ctx: &mut LoweringContext, parts: &[&str]) -> FunctionId {
    let name = ctx.mir.intern_name_parts(parts);
    let unit = ctx.mir.ty_unit();
    ctx.mir.add_function(name, unit)
}

#[test]
fn mir_contains_fragment() {
    let out = "fn Test.main() {\n  bb0: return ()\n}";
    assert_eq!(assert_mir_contains(out, "bb0: return"), Ok(()));
    assert_eq!(assert_mir_contains(out, ""), Ok(()));
    assert_eq!(
        assert_mir_contains(out, "closure.0"),
        Err(format!("Expected MIR to contain:\n  closure.0\n\nActual MIR:\n{}", out))
    );
}

#[test]
fn mir_not_contains_fragment() {
    let out = "fn f.closure.0(env: &f.closure.0.env)";
    assert_eq!(assert_mir_not_contains(out, "ApplyPartial"), Ok(()));
    assert_eq!(
        assert_mir_not_contains(out, ".env"),
        Err(format!("Expected MIR to NOT contain:\n  .env\n\nActual MIR:\n{}", out))
    );
}

#[test]
fn init_call_goes_first_in_main() {
    let mut ctx = LoweringContext::new();
    let helper = function(&mut ctx, &["Test", "helper"]);
    let main = function(&mut ctx, &["Test", "main"]);
    ctx.enter_function(main);
    let entry = ctx.create_block();
    ctx.set_current_block(entry);
    ctx.mir.set_entry_block(main, entry);
    ctx.emit_imm(Place::local(LocalId(0)), Immediate::Int(IntBits::I64, 1));
    ctx.exit_function();
    let init = ctx.mir.intern_name_parts(&["__kestrel_init_statics"]);
    inject_init_call_into_main(&mut ctx, init);
    let s: Vec<String> =
        ctx.mir.blocks[entry.0].statements.iter().map(|s| format!("{:?}", s)).collect();
    assert_eq!(s.len(), 2);
    assert_eq!(s[0], format!("Call {{ callee: Direct {{ name: {:?}, type_args: [] }}, args: [] }}", init));
    assert_eq!(s[1], "Assign { dest: Local(LocalId(0)), rvalue: Use(Int(I64, 1)) }");
    assert!(ctx.mir.functions[helper.0].entry_block.is_none());
}

#[test]
fn no_main_means_no_change() {
    let mut ctx = LoweringContext::new();
    let f = function(&mut ctx, &["Test", "mainly"]);
    ctx.enter_function(f);
    let entry = ctx.create_block();
    ctx.mir.set_entry_block(f, entry);
    ctx.exit_function();
    let init = ctx.mir.intern_name_parts(&["__kestrel_init_statics"]);
    inject_init_call_into_main(&mut ctx, init);
    assert!(ctx.mir.blocks[entry.0].statements.is_empty());
}

#[test]
fn closure_and_bound_method_names() {
    let mut ctx = LoweringContext::new();
    let f = function(&mut ctx, &["Test", "outer"]);
    ctx.enter_function(f);
    let (c, e) = generate_closure_names(&mut ctx, 0);
    assert_eq!(ctx.mir.names[c.0], vec!["Test", "outer.closure.0"]);
    assert_eq!(ctx.mir.names[e.0], vec!["Test", "outer.closure.0.env"]);
    let (c2, _) = generate_closure_names(&mut ctx, 12);
    assert_eq!(ctx.mir.names[c2.0], vec!["Test", "outer.closure.12"]);
    let (bnd, benv) = generate_bound_method_names(&mut ctx, 3);
    assert_eq!(ctx.mir.names[bnd.0], vec!["Test", "outer.bound.3"]);
    assert_eq!(ctx.mir.names[benv.0], vec!["Test", "outer.bound.3.env"]);
    let (again, _) = generate_closure_names(&mut ctx, 0);
    assert_eq!(again, c);
}

#[test]
fn effective_params_declared_implicit_or_none() {
    let ty = Rc::new(SemTy::Int(IntBits::I64));
    let declared = Some(vec![
        ClosureParam { name: "a".to_string(), ty: ty.clone(), local_id: SemLocalId(1) },
        ClosureParam { name: "b".to_string(), ty: ty.clone(), local_id: SemLocalId(2) },
    ]);
    let implicit = Some((SemLocalId(9), Rc::new(SemTy::Bool), Span { file_id: 0, start: 0, end: 1 }));
    let r = build_effective_params(&declared, &implicit);
    assert_eq!(r.len(), 2);
    assert_eq!((r[0].name.as_str(), r[0].local_id), ("a", SemLocalId(1)));
    assert_eq!((r[1].name.as_str(), r[1].local_id), ("b", SemLocalId(2)));
    let r = build_effective_params(&None, &implicit);
    assert_eq!(r.len(), 1);
    assert_eq!((r[0].name.as_str(), r[0].local_id), ("it", SemLocalId(9)));
    assert!(matches!(*r[0].ty, SemTy::Bool));
    assert!(build_effective_params(&None, &None).is_empty());
}

#[test]
fn closure_return_type() {
    let f = SemTy::Function { params: vec![Rc::new(SemTy::Bool)], ret: Rc::new(SemTy::Str) };
    assert!(matches!(*extract_return_type(&f), SemTy::Str));
    assert!(matches!(*extract_return_type(&SemTy::Bool), SemTy::Unit));
}

#[test]
fn access_paths_project_the_scrutinee() {
    let path = vec![
        PathElement::Downcast("Some".to_string()),
        PathElement::Index(0),
        PathElement::Field("x".to_string()),
    ];
    let p = apply_path(&Place::local(LocalId(4)), &path);
    assert_eq!(
        format!("{:?}", p),
        "Field(Index(Downcast(Local(LocalId(4)), \"Some\"), 0), \"x\")"
    );
    assert_eq!(format!("{:?}", apply_path(&Place::local(LocalId(4)), &vec![])), "Local(LocalId(4))");
}

#[test]
fn literal_constructors_are_detected() {
    let cases = vec![(Constructor::True, 0u8), (Constructor::False, 1u8)];
    assert!(!has_literal_constructors(&cases));
    let cases = vec![
        (Constructor::Variant { name: "A".to_string(), arity: 0 }, 0u8),
        (Constructor::IntRange { start: 1, end: 9 }, 1u8),
    ];
    assert!(has_literal_constructors(&cases));
    let cases = vec![(Constructor::StringLiteral("x".to_string()), ())];
    assert!(has_literal_constructors(&cases));
    let empty: Vec<(Constructor, ())> = vec![];
    assert!(!has_literal_constructors(&empty));
}

#[test]
fn passing_modes_follow_access_modes() {
    assert_eq!(access_mode_to_passing_mode(ParameterAccessMode::Borrow, false), PassingMode::Ref);
    assert_eq!(access_mode_to_passing_mode(ParameterAccessMode::Mutating, true), PassingMode::MutRef);
    assert_eq!(access_mode_to_passing_mode(ParameterAccessMode::Consuming, true), PassingMode::Copy);
    assert_eq!(access_mode_to_passing_mode(ParameterAccessMode::Consuming, false), PassingMode::Move);
}

#[test]
fn indirect_call_arguments_pass_by_value() {
    let args = vec![
        Value::Place(Place::local(LocalId(0))),
        Value::Place(Place::local(LocalId(1))),
        Value::Immediate(Immediate::Int(IntBits::I64, 3)),
    ];
    let r = build_indirect_call_args(args, &vec![true, false]);
    let modes: Vec<PassingMode> = r.iter().map(|a| a.mode).collect();
    assert_eq!(modes, vec![PassingMode::Copy, PassingMode::Move, PassingMode::Copy]);
    assert_eq!(format!("{:?}", r[2].value), "Immediate(Int(I64, 3))");
}

#[test]
fn locals_of_values() {
    assert_eq!(try_get_local_from_value(&Value::Place(Place::local(LocalId(3)))), Some(LocalId(3)));
    assert_eq!(
        try_get_local_from_value(&Value::Place(Place::local(LocalId(3)).field("x"))),
        None
    );
    assert_eq!(try_get_local_from_value(&Value::Immediate(Immediate::Bool(true))), None);
}

#[test]
fn moved_arguments_mark_locals() {
    let mut ctx = LoweringContext::new();
    let f = function(&mut ctx, &["Test", "f"]);
    ctx.enter_function(f);
    ctx.enter_scope();
    ctx.track_local(LocalId(0), true, None);
    ctx.track_local(LocalId(1), true, None);
    ctx.track_local(LocalId(2), true, None);
    let args = vec![
        CallArg::moving(Value::Place(Place::local(LocalId(0)))),
        CallArg::borrow(Value::Place(Place::local(LocalId(1)))),
        CallArg::new(Value::Place(Place::local(LocalId(2)).field("x")), PassingMode::Move),
    ];
    mark_moved_args(&mut ctx, &args);
    assert_eq!(ctx.get_current_deinit_status(LocalId(0)), Some(DeinitStatus::Moved));
    assert_eq!(ctx.get_current_deinit_status(LocalId(1)), Some(DeinitStatus::Valid));
    assert_eq!(ctx.get_current_deinit_status(LocalId(2)), Some(DeinitStatus::Valid));
}

fn prim(is_int: bool, is_unsigned: bool, bit_width: u32) -> PrimitiveInfo {
    PrimitiveInfo { is_int, is_float: !is_int, is_unsigned, bit_width }
}

#[test]
fn cast_kinds() {
    assert_eq!(determine_cast_kind(prim(true, false, 32), prim(true, false, 64)), CastKind::IntWiden);
    assert_eq!(determine_cast_kind(prim(true, true, 8), prim(true, false, 64)), CastKind::IntUnsignedWiden);
    assert_eq!(determine_cast_kind(prim(true, false, 64), prim(true, true, 16)), CastKind::IntTruncate);
    assert_eq!(determine_cast_kind(prim(true, false, 32), prim(true, false, 32)), CastKind::IntTruncate);
    assert_eq!(determine_cast_kind(prim(false, false, 32), prim(false, false, 64)), CastKind::FloatWiden);
    assert_eq!(determine_cast_kind(prim(false, false, 64), prim(false, false, 16)), CastKind::FloatTruncate);
    assert_eq!(determine_cast_kind(prim(true, false, 64), prim(false, false, 64)), CastKind::IntToFloat);
    assert_eq!(determine_cast_kind(prim(false, false, 64), prim(true, true, 8)), CastKind::FloatToInt);
}

#[test]
fn bindings_copy_matched_values_into_new_locals() {
    let mut ctx = LoweringContext::new();
    let f = function(&mut ctx, &["Test", "f"]);
    ctx.enter_function(f);
    let b = ctx.create_block();
    ctx.set_current_block(b);
    let int_ty = ctx.mir.ty_unit();
    let first = ctx.mir.locals.len();
    let bindings = vec![
        Binding {
            name: "x".to_string(),
            local_id: SemLocalId(11),
            path: vec![PathElement::Downcast("Some".to_string()), PathElement::Index(0)],
            ty: int_ty,
        },
        Binding { name: "whole".to_string(), local_id: SemLocalId(12), path: vec![], ty: int_ty },
    ];
    emit_bindings(&mut ctx, &bindings, &Place::local(LocalId(0)));
    assert_eq!(ctx.mir.locals[first].name, "x");
    assert_eq!(ctx.mir.locals[first + 1].name, "whole");
    assert_eq!(ctx.get_local(SemLocalId(11)), Some(LocalId(first)));
    assert_eq!(ctx.get_local(SemLocalId(12)), Some(LocalId(first + 1)));
    let s: Vec<String> = ctx.mir.blocks[b.0].statements.iter().map(|s| format!("{:?}", s)).collect();
    assert_eq!(
        s[0],
        format!(
            "Assign {{ dest: Local(LocalId({})), rvalue: Copy(Index(Downcast(Local(LocalId(0)), \"Some\"), 0)) }}",
            first
        )
    );
    assert_eq!(
        s[1],
        format!("Assign {{ dest: Local(LocalId({})), rvalue: Copy(Local(LocalId(0))) }}", first + 1)
    );
}

#[test]
fn references_to_places_and_immediates() {
    let mut ctx = LoweringContext::new();
    let f = function(&mut ctx, &["Test", "f"]);
    ctx.enter_function(f);
    let b = ctx.create_block();
    ctx.set_current_block(b);
    let base = ctx.mir.ty_bool();
    let first = ctx.mir.locals.len();
    let r = create_ref(&mut ctx, &Value::Place(Place::local(LocalId(0))), base, false);
    assert_eq!(format!("{:?}", r), format!("Place(Local(LocalId({})))", first));
    assert_eq!(ctx.mir.locals[first].name, "arg_ref_0");
    assert_eq!(ctx.mir.types[ctx.mir.locals[first].ty.0], MirTy::Ref(base));
    let r2 = create_ref(&mut ctx, &Value::Immediate(Immediate::Int(IntBits::I64, 5)), base, true);
    assert_eq!(format!("{:?}", r2), format!("Place(Local(LocalId({})))", first + 2));
    assert_eq!(ctx.mir.locals[first + 1].name, "arg_temp_1");
    assert_eq!(ctx.mir.locals[first + 1].ty, base);
    assert_eq!(ctx.mir.locals[first + 2].name, "arg_ref_2");
    assert_eq!(ctx.mir.types[ctx.mir.locals[first + 2].ty.0], MirTy::RefMut(base));
    let s: Vec<String> = ctx.mir.blocks[b.0].statements.iter().map(|s| format!("{:?}", s)).collect();
    assert_eq!(s.len(), 3);
    assert_eq!(s[0], format!("Assign {{ dest: Local(LocalId({})), rvalue: Ref(Local(LocalId(0))) }}", first));
    assert_eq!(s[1], format!("Assign {{ dest: Local(LocalId({})), rvalue: Use(Int(I64, 5)) }}", first + 1));
    assert_eq!(
        s[2],
        format!("Assign {{ dest: Local(LocalId({})), rvalue: RefMut(Local(LocalId({}))) }}", first + 2, first + 1)
    );
    let r3 = create_ref(&mut ctx, &Value::Unreachable, base, false);
    assert!(matches!(r3, Value::Unreachable));
    assert_eq!(ctx.mir.locals.len(), first + 3);
}
