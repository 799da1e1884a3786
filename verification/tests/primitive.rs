use kestrel_execution_graph_lowering::sem::IntBits;
use kestrel_execution_graph_lowering::context::LoweringContext;
use kestrel_execution_graph_lowering::error::{Severity, Span};
use kestrel_execution_graph_lowering::mir::{BlockId, Immediate, LocalId, MirTy, Place, TyId, Value};
use kestrel_execution_graph_lowering::primitive::{
    begin_primitive_method_call, finish_primitive_method_call, PrimitiveMethod,
};

fn in_block() -> (LoweringContext, BlockId) {
    let mut ctx = LoweringContext::new();
    let name = ctx.mir.intern_name_parts(&["Test", "f"]);
    let unit = ctx.mir.ty_unit();
    let f = ctx.mir.add_function(name, unit);
    ctx.enter_function(f);
    let b = ctx.create_block();
    ctx.set_current_block(b);
    (ctx, b)
}

fn stmts(ctx: &LoweringContext, b: BlockId) -> Vec<String> {
    ctx.mir.blocks[b.0].statements.iter().map(|s| format!("{:?}", s)).collect()
}

fn local(i: usize) -> Value {
    Value::Place(Place::local(LocalId(i)))
}

/// Runs a whole primitive call on a reachable receiver; returns the result temporary
/// and the call's value.
fn call(
    ctx: &mut LoweringContext,
    method: PrimitiveMethod,
    receiver: Value,
    argument: Option<Value>,
    result_ty: TyId,
    int_ty: TyId,
) -> (usize, Value) {
    let prim = begin_primitive_method_call(ctx, &receiver, result_ty).unwrap();
    let v = finish_primitive_method_call(ctx, method, prim, receiver, argument, result_ty, int_ty, None);
    (prim.0, v)
}

#[test]
fn unreachable_receiver_emits_nothing() {
    let (mut ctx, b) = in_block();
    let ty = ctx.mir.ty_bool();
    let locals = ctx.mir.locals.len();
    assert!(begin_primitive_method_call(&mut ctx, &Value::Unreachable, ty).is_none());
    assert_eq!(ctx.mir.locals.len(), locals);
    assert!(stmts(&ctx, b).is_empty());
}

#[test]
fn unary_operators_and_string_builtins() {
    let (mut ctx, b) = in_block();
    let ty = ctx.mir.ty_bool();
    let cases = [
        (PrimitiveMethod::IntNeg, "UnaryOp { op: Neg, operand: Place(Local(LocalId(0))) }"),
        (PrimitiveMethod::FloatNeg, "UnaryOp { op: FNeg, operand: Place(Local(LocalId(0))) }"),
        (PrimitiveMethod::BoolNot, "UnaryOp { op: BoolNot, operand: Place(Local(LocalId(0))) }"),
        (PrimitiveMethod::IntBitNot, "UnaryOp { op: Not, operand: Place(Local(LocalId(0))) }"),
        (PrimitiveMethod::StringLength, "StrLen(Place(Local(LocalId(0))))"),
        (PrimitiveMethod::StringUnsafePtr, "StrPtr(Place(Local(LocalId(0))))"),
    ];
    for (i, (method, rvalue)) in cases.iter().enumerate() {
        let (prim, v) = call(&mut ctx, *method, local(0), None, ty, ty);
        assert_eq!(format!("{:?}", v), format!("Place(Local(LocalId({})))", prim));
        assert_eq!(ctx.mir.locals[prim].name, format!("prim_{}", i));
        assert_eq!(stmts(&ctx, b)[i], format!("Assign {{ dest: Local(LocalId({})), rvalue: {} }}", prim, rvalue));
    }
    assert!(ctx.diagnostics.is_empty());
}

#[test]
fn binary_operators_use_the_argument() {
    let (mut ctx, b) = in_block();
    let ty = ctx.mir.ty_bool();
    let cases = [
        (PrimitiveMethod::IntAdd, "AddSigned"),
        (PrimitiveMethod::IntShr, "ShrSigned"),
        (PrimitiveMethod::IntLt, "LtSigned"),
        (PrimitiveMethod::FloatGe, "FGe"),
        (PrimitiveMethod::BoolOr, "BoolOr"),
        (PrimitiveMethod::BoolNe, "Ne"),
        (PrimitiveMethod::StringEq, "StrEq"),
        (PrimitiveMethod::StringNe, "Ne"),
    ];
    for (i, (method, op)) in cases.iter().enumerate() {
        let (prim, v) = call(&mut ctx, *method, local(0), Some(Value::Immediate(Immediate::Int(IntBits::I64, 2))), ty, ty);
        assert_eq!(format!("{:?}", v), format!("Place(Local(LocalId({})))", prim));
        assert_eq!(
            stmts(&ctx, b)[i],
            format!(
                "Assign {{ dest: Local(LocalId({})), rvalue: BinaryOp {{ op: {}, lhs: Place(Local(LocalId(0))), rhs: Immediate(Int(I64, 2)) }} }}",
                prim, op
            )
        );
    }
}

#[test]
fn binary_operator_without_argument_is_an_internal_error() {
    let (mut ctx, b) = in_block();
    let ty = ctx.mir.ty_bool();
    let prim = begin_primitive_method_call(&mut ctx, &local(0), ty).unwrap();
    let span = Span { file_id: 0, start: 4, end: 9 };
    let v = finish_primitive_method_call(&mut ctx, PrimitiveMethod::IntMul, prim, local(0), None, ty, ty, Some(span));
    assert!(matches!(v, Value::Immediate(Immediate::Error)));
    assert!(stmts(&ctx, b).is_empty());
    assert_eq!(ctx.diagnostics.len(), 1);
    assert_eq!(ctx.diagnostics[0].severity, Severity::Bug);
    assert_eq!(ctx.diagnostics[0].message, "internal lowering error: binary primitive method with no arguments");
    assert_eq!(ctx.diagnostics[0].labels.len(), 1);
    assert_eq!(ctx.diagnostics[0].labels[0].start, 4);
    assert_eq!(ctx.diagnostics[0].labels[0].end, 9);
}

#[test]
fn is_empty_compares_the_length_with_zero() {
    let (mut ctx, b) = in_block();
    let ty = ctx.mir.ty_bool();
    let (prim, v) = call(&mut ctx, PrimitiveMethod::StringIsEmpty, local(0), None, ty, ty);
    assert_eq!(format!("{:?}", v), format!("Place(Local(LocalId({})))", prim));
    let len = prim + 1;
    assert_eq!(ctx.mir.locals[len].name, "len_1");
    assert_eq!(ctx.mir.types[ctx.mir.locals[len].ty.0], MirTy::Int(IntBits::I64));
    assert_eq!(
        stmts(&ctx, b),
        vec![
            format!("Assign {{ dest: Local(LocalId({})), rvalue: StrLen(Place(Local(LocalId(0)))) }}", len),
            format!(
                "Assign {{ dest: Local(LocalId({})), rvalue: BinaryOp {{ op: Eq, lhs: Place(Local(LocalId({}))), rhs: Immediate(Int(I64, 0)) }} }}",
                prim, len
            ),
        ]
    );
}

#[test]
fn to_string_uses_a_fresh_temporary() {
    let (mut ctx, b) = in_block();
    let ty = ctx.mir.ty_unit();
    let (prim, v) = call(&mut ctx, PrimitiveMethod::IntToString, local(0), None, ty, ty);
    assert_eq!(format!("{:?}", v), format!("Place(Local(LocalId({})))", prim + 1));
    assert_eq!(ctx.mir.locals[prim + 1].name, "str_1");
    assert_eq!(ctx.mir.locals[prim + 1].ty, ty);
    assert_eq!(
        stmts(&ctx, b),
        vec![format!("Assign {{ dest: Local(LocalId({})), rvalue: IntToString(Place(Local(LocalId(0)))) }}", prim + 1)]
    );
}

#[test]
fn abs_branches_on_the_sign() {
    let (mut ctx, b) = in_block();
    let int_ty = ctx.mir.intern_type(MirTy::Int(IntBits::I8));
    let blocks = ctx.mir.blocks.len();
    let (prim, v) = call(&mut ctx, PrimitiveMethod::IntAbs, Value::Immediate(Immediate::Int(IntBits::I8, -3)), None, int_ty, int_ty);
    assert_eq!(format!("{:?}", v), format!("Place(Local(LocalId({})))", prim));
    let input = prim + 1;
    let cmp = prim + 2;
    assert_eq!(ctx.mir.locals[input].name, "abs_input_1");
    assert_eq!(ctx.mir.locals[input].ty, int_ty);
    assert_eq!(ctx.mir.locals[cmp].name, "is_neg_2");
    assert_eq!(ctx.mir.types[ctx.mir.locals[cmp].ty.0], MirTy::Bool);
    let (neg, pos, join) = (BlockId(blocks), BlockId(blocks + 1), BlockId(blocks + 2));
    assert_eq!(ctx.mir.blocks.len(), blocks + 3);
    assert_eq!(
        stmts(&ctx, b),
        vec![
            format!("Assign {{ dest: Local(LocalId({})), rvalue: Use(Int(I8, -3)) }}", input),
            format!(
                "Assign {{ dest: Local(LocalId({})), rvalue: BinaryOp {{ op: LtSigned, lhs: Place(Local(LocalId({}))), rhs: Immediate(Int(I8, 0)) }} }}",
                cmp, input
            ),
        ]
    );
    assert_eq!(
        format!("{:?}", ctx.mir.blocks[b.0].terminator),
        format!(
            "Some(Branch {{ condition: Place(Local(LocalId({}))), then_block: {:?}, else_block: {:?} }})",
            cmp, neg, pos
        )
    );
    assert_eq!(
        stmts(&ctx, neg),
        vec![format!(
            "Assign {{ dest: Local(LocalId({})), rvalue: UnaryOp {{ op: Neg, operand: Place(Local(LocalId({}))) }} }}",
            prim, input
        )]
    );
    assert_eq!(
        stmts(&ctx, pos),
        vec![format!("Assign {{ dest: Local(LocalId({})), rvalue: Copy(Local(LocalId({}))) }}", prim, input)]
    );
    assert_eq!(format!("{:?}", ctx.mir.blocks[neg.0].terminator), format!("Some(Jump({:?}))", join));
    assert_eq!(format!("{:?}", ctx.mir.blocks[pos.0].terminator), format!("Some(Jump({:?}))", join));
    assert!(ctx.mir.blocks[join.0].terminator.is_none());
    assert_eq!(ctx.current_block(), Some(join));
}
