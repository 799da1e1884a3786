use kestrel_execution_graph_lowering::sem::IntBits;
use kestrel_execution_graph_lowering::call_args::{
    build_call_args, emit_clone_call, ArgType, CallableParams, CloneableLookup, ReceiverKind,
};
use kestrel_execution_graph_lowering::context::LoweringContext;
use kestrel_execution_graph_lowering::error::Severity;
use kestrel_execution_graph_lowering::expr::ParameterAccessMode;
use kestrel_execution_graph_lowering::mir::{BlockId, Immediate, LocalId, MirTy, Place, TyId, Value};
use kestrel_execution_graph_lowering::sem::{SymbolKind, SymbolNode};

fn node(kind: SymbolKind, name: &str, parent: Option<SymbolNode>) -> SymbolNode {
    SymbolNode {
        kind,
        name: name.to_string(),
        parent: parent.map(Box::new),
        callable: None,
        subscript: None,
        extension_target: None,
        is_static: false,
        is_namespace_scope: false,
        is_computed: false,
    }
}

fn cloneable_protocol() -> SymbolNode {
    let root = node(SymbolKind::Module, "<root>", None);
    let mut std_mod = node(SymbolKind::Module, "std", Some(root));
    std_mod.is_namespace_scope = true;
    node(SymbolKind::Protocol, "Cloneable", Some(std_mod))
}

fn in_block() -> (LoweringContext, BlockId) {
    let mut ctx = LoweringContext::new();
    let name = ctx.mir.intern_name_parts(&["Test", "f"]);
    let unit = ctx.mir.ty_unit();
    let f = ctx.mir.add_function(name, unit);
    ctx.enter_function(f);
    let b = ctx.create_block();
    ctx.set_current_block(b);
    (ctx, b)
}

fn stmts(ctx: &LoweringContext, b: BlockId) -> Vec<String> {
    ctx.mir.blocks[b.0].statements.iter().map(|s| format!("{:?}", s)).collect()
}

fn args(ctx_args: &[kestrel_execution_graph_lowering::mir::CallArg]) -> Vec<String> {
    ctx_args.iter().map(|a| format!("{:?}", a)).collect()
}

fn local(i: usize) -> Value {
    Value::Place(Place::local(LocalId(i)))
}

fn arg_type(copyable: bool, cloneable: bool, ty: TyId) -> ArgType {
    ArgType { copyable, cloneable, ty }
}

#[test]
fn indirect_call_passes_everything_by_reference() {
    let (mut ctx, b) = in_block();
    let locals = ctx.mir.locals.len();
    let r = build_call_args(
        &mut ctx,
        vec![local(0), Value::Immediate(Immediate::Int(IntBits::I64, 3))],
        &Vec::new(),
        None,
        false,
        &CloneableLookup::NotRegistered,
    );
    assert_eq!(
        args(&r),
        vec![
            "CallArg { value: Place(Local(LocalId(0))), mode: Ref }".to_string(),
            "CallArg { value: Immediate(Int(I64, 3)), mode: Ref }".to_string(),
        ]
    );
    assert_eq!(ctx.mir.locals.len(), locals);
    assert!(stmts(&ctx, b).is_empty());
    assert!(ctx.diagnostics.is_empty());
}

#[test]
fn instance_receivers_follow_the_receiver_kind() {
    let (mut ctx, b) = in_block();
    let ty = ctx.mir.ty_bool();
    let cases = [
        (Some(ReceiverKind::Borrowing), true, "Ref"),
        (None, true, "Ref"),
        (Some(ReceiverKind::Mutating), true, "MutRef"),
        (Some(ReceiverKind::Initializing), true, "MutRef"),
        (Some(ReceiverKind::Consuming), true, "Copy"),
        (Some(ReceiverKind::Consuming), false, "Move"),
    ];
    for (receiver, copyable, mode) in cases {
        let params = CallableParams { receiver, modes: Vec::new() };
        let r = build_call_args(
            &mut ctx,
            vec![local(0)],
            &vec![arg_type(copyable, false, ty)],
            Some(&params),
            true,
            &CloneableLookup::NotRegistered,
        );
        assert_eq!(args(&r), vec![format!("CallArg {{ value: Place(Local(LocalId(0))), mode: {} }}", mode)]);
    }
    let params = CallableParams { receiver: Some(ReceiverKind::Consuming), modes: Vec::new() };
    let r = build_call_args(&mut ctx, vec![local(0)], &Vec::new(), Some(&params), true, &CloneableLookup::NotRegistered);
    assert_eq!(args(&r), vec!["CallArg { value: Place(Local(LocalId(0))), mode: Move }".to_string()]);
    assert!(stmts(&ctx, b).is_empty());
}

#[test]
fn borrowed_parameters_get_reference_temporaries() {
    let (mut ctx, b) = in_block();
    let ty = ctx.mir.ty_bool();
    let first = ctx.mir.locals.len();
    let params = CallableParams {
        receiver: Some(ReceiverKind::Borrowing),
        modes: vec![ParameterAccessMode::Borrow, ParameterAccessMode::Mutating],
    };
    let r = build_call_args(
        &mut ctx,
        vec![local(0), local(1), Value::Immediate(Immediate::Int(IntBits::I64, 7))],
        &vec![arg_type(true, false, ty), arg_type(true, false, ty), arg_type(true, false, ty)],
        Some(&params),
        true,
        &CloneableLookup::NotRegistered,
    );
    assert_eq!(
        args(&r),
        vec![
            "CallArg { value: Place(Local(LocalId(0))), mode: Ref }".to_string(),
            format!("CallArg {{ value: Place(Local(LocalId({}))), mode: Copy }}", first),
            format!("CallArg {{ value: Place(Local(LocalId({}))), mode: Copy }}", first + 2),
        ]
    );
    assert_eq!(ctx.mir.locals[first].name, "arg_ref_0");
    assert_eq!(ctx.mir.types[ctx.mir.locals[first].ty.0], MirTy::Ref(ty));
    assert_eq!(ctx.mir.locals[first + 1].name, "arg_temp_1");
    assert_eq!(ctx.mir.locals[first + 2].name, "arg_ref_2");
    assert_eq!(ctx.mir.types[ctx.mir.locals[first + 2].ty.0], MirTy::RefMut(ty));
    assert_eq!(
        stmts(&ctx, b),
        vec![
            format!("Assign {{ dest: Local(LocalId({})), rvalue: Ref(Local(LocalId(1))) }}", first),
            format!("Assign {{ dest: Local(LocalId({})), rvalue: Use(Int(I64, 7)) }}", first + 1),
            format!(
                "Assign {{ dest: Local(LocalId({})), rvalue: RefMut(Local(LocalId({}))) }}",
                first + 2,
                first + 1
            ),
        ]
    );
}

#[test]
fn consumed_parameters_copy_move_or_clone() {
    let (mut ctx, b) = in_block();
    let ty = ctx.mir.ty_bool();
    let first = ctx.mir.locals.len();
    let protocol = cloneable_protocol();
    let params = CallableParams {
        receiver: None,
        modes: vec![ParameterAccessMode::Consuming, ParameterAccessMode::Consuming, ParameterAccessMode::Consuming],
    };
    let r = build_call_args(
        &mut ctx,
        vec![local(0), local(1), local(2)],
        &vec![arg_type(true, false, ty), arg_type(false, false, ty), arg_type(false, true, ty)],
        Some(&params),
        false,
        &CloneableLookup::Found(protocol),
    );
    assert_eq!(
        args(&r),
        vec![
            "CallArg { value: Place(Local(LocalId(0))), mode: Copy }".to_string(),
            "CallArg { value: Place(Local(LocalId(1))), mode: Move }".to_string(),
            format!("CallArg {{ value: Place(Local(LocalId({}))), mode: Move }}", first),
        ]
    );
    assert_eq!(ctx.mir.locals[first].name, "cloned_0");
    assert_eq!(ctx.mir.locals[first].ty, ty);
    let pid = ctx.mir.intern_name_parts(&["std", "Cloneable"]);
    assert_eq!(
        stmts(&ctx, b),
        vec![format!(
            "Assign {{ dest: Local(LocalId({})), rvalue: Call {{ callee: Witness {{ protocol: {:?}, method: \"clone\", for_type: {:?}, type_args: [] }}, args: [CallArg {{ value: Place(Local(LocalId(2))), mode: Ref }}] }} }}",
            first, pid, ty
        )]
    );
    assert!(ctx.diagnostics.is_empty());
}

#[test]
fn unknown_argument_types_and_missing_parameters() {
    let (mut ctx, b) = in_block();
    let params = CallableParams {
        receiver: None,
        modes: vec![ParameterAccessMode::Borrow, ParameterAccessMode::Mutating, ParameterAccessMode::Consuming],
    };
    let r = build_call_args(
        &mut ctx,
        vec![local(0), local(1), local(2), local(3)],
        &Vec::new(),
        Some(&params),
        false,
        &CloneableLookup::NotRegistered,
    );
    assert_eq!(
        args(&r),
        vec![
            "CallArg { value: Place(Local(LocalId(0))), mode: Ref }".to_string(),
            "CallArg { value: Place(Local(LocalId(1))), mode: MutRef }".to_string(),
            "CallArg { value: Place(Local(LocalId(2))), mode: Copy }".to_string(),
            "CallArg { value: Place(Local(LocalId(3))), mode: Ref }".to_string(),
        ]
    );
    assert!(stmts(&ctx, b).is_empty());
}

#[test]
fn clone_without_the_protocol_reports_an_internal_error() {
    let (mut ctx, b) = in_block();
    let ty = ctx.mir.ty_unit();
    let first = ctx.mir.locals.len();
    let r = emit_clone_call(&mut ctx, &local(0), ty, &CloneableLookup::NotRegistered);
    assert!(matches!(r, Value::Immediate(Immediate::Unit)));
    assert_eq!(ctx.mir.locals[first].name, "cloned_0");
    assert_eq!(ctx.diagnostics.len(), 1);
    assert_eq!(ctx.diagnostics[0].severity, Severity::Bug);
    assert_eq!(ctx.diagnostics[0].message, "internal lowering error: Cloneable builtin protocol not registered");
    let r = emit_clone_call(&mut ctx, &local(0), ty, &CloneableLookup::SymbolMissing);
    assert!(matches!(r, Value::Immediate(Immediate::Unit)));
    assert_eq!(ctx.mir.locals[first + 1].name, "cloned_1");
    assert_eq!(
        ctx.diagnostics[1].message,
        "internal lowering error: Cloneable protocol symbol not found in registry"
    );
    assert!(stmts(&ctx, b).is_empty());
}
