//! Calls of primitive methods (the operators and built-in methods of integers,
//! floats, booleans and strings) lowered to MIR operations, once the receiver and
//! the argument have been lowered.

use vstd::prelude::*;

use crate::call_args::{a_stmt, a_temp, a_type, args_frame, args_state, diag_view, ArgsState, DiagV};
use crate::context::LoweringContext;
use crate::error::{Diagnostic, LoweringError, Severity, Span};
use crate::sem::IntBits;
use crate::let_pattern::{add_block, emitting, goto, put_term, WalkState};
use crate::mir::{
    type_pos, BinOp, BlockId, Immediate, ImmediateV, LocalId, MirTy, Place, PlaceV, Rvalue, RvalueV, StmtV, TermV,
    TerminatorKind, TyId, UnOp, Value, ValueV,
};

verus! {

/// A method of a primitive type that lowers to a MIR operation.
#[derive(Clone, Copy, PartialEq, Eq, Debug, Structural)]
pub enum PrimitiveMethod {
    IntNeg,
    FloatNeg,
    BoolNot,
    IntBitNot,
    StringLength,
    StringIsEmpty,
    StringUnsafePtr,
    IntAbs,
    IntToString,
    IntAdd,
    IntSub,
    IntMul,
    IntDiv,
    IntRem,
    IntEq,
    IntNe,
    IntLt,
    IntLe,
    IntGt,
    IntGe,
    IntBitAnd,
    IntBitOr,
    IntBitXor,
    IntShl,
    IntShr,
    FloatAdd,
    FloatSub,
    FloatMul,
    FloatDiv,
    FloatEq,
    FloatNe,
    FloatLt,
    FloatLe,
    FloatGt,
    FloatGe,
    BoolAnd,
    BoolOr,
    BoolEq,
    BoolNe,
    StringEq,
    StringNe,
}

/// The unary operator a method is, if it is one.
pub open spec fn unary_op(m: PrimitiveMethod) -> Option<UnOp> {
    match m {
        PrimitiveMethod::IntNeg => Some(UnOp::Neg),
        PrimitiveMethod::FloatNeg => Some(UnOp::FNeg),
        PrimitiveMethod::BoolNot => Some(UnOp::BoolNot),
        PrimitiveMethod::IntBitNot => Some(UnOp::Not),
        _ => None,
    }
}

/// The binary operator a method is, if it is one: signed integer arithmetic,
/// comparison and bitwise operators, float arithmetic and comparison, boolean
/// connectives and equality, and string equality (string inequality is the generic
/// `Ne`).
pub open spec fn binary_op(m: PrimitiveMethod) -> Option<BinOp> {
    match m {
        PrimitiveMethod::IntAdd => Some(BinOp::AddSigned),
        PrimitiveMethod::IntSub => Some(BinOp::SubSigned),
        PrimitiveMethod::IntMul => Some(BinOp::MulSigned),
        PrimitiveMethod::IntDiv => Some(BinOp::DivSigned),
        PrimitiveMethod::IntRem => Some(BinOp::RemSigned),
        PrimitiveMethod::IntEq => Some(BinOp::Eq),
        PrimitiveMethod::IntNe => Some(BinOp::Ne),
        PrimitiveMethod::IntLt => Some(BinOp::LtSigned),
        PrimitiveMethod::IntLe => Some(BinOp::LeSigned),
        PrimitiveMethod::IntGt => Some(BinOp::GtSigned),
        PrimitiveMethod::IntGe => Some(BinOp::GeSigned),
        PrimitiveMethod::IntBitAnd => Some(BinOp::And),
        PrimitiveMethod::IntBitOr => Some(BinOp::Or),
        PrimitiveMethod::IntBitXor => Some(BinOp::Xor),
        PrimitiveMethod::IntShl => Some(BinOp::Shl),
        PrimitiveMethod::IntShr => Some(BinOp::ShrSigned),
        PrimitiveMethod::FloatAdd => Some(BinOp::FAdd),
        PrimitiveMethod::FloatSub => Some(BinOp::FSub),
        PrimitiveMethod::FloatMul => Some(BinOp::FMul),
        PrimitiveMethod::FloatDiv => Some(BinOp::FDiv),
        PrimitiveMethod::FloatEq => Some(BinOp::FEq),
        PrimitiveMethod::FloatNe => Some(BinOp::FNe),
        PrimitiveMethod::FloatLt => Some(BinOp::FLt),
        PrimitiveMethod::FloatLe => Some(BinOp::FLe),
        PrimitiveMethod::FloatGt => Some(BinOp::FGt),
        PrimitiveMethod::FloatGe => Some(BinOp::FGe),
        PrimitiveMethod::BoolAnd => Some(BinOp::BoolAnd),
        PrimitiveMethod::BoolOr => Some(BinOp::BoolOr),
        PrimitiveMethod::BoolEq => Some(BinOp::Eq),
        PrimitiveMethod::BoolNe => Some(BinOp::Ne),
        PrimitiveMethod::StringEq => Some(BinOp::StrEq),
        PrimitiveMethod::StringNe => Some(BinOp::Ne),
        _ => None,
    }
}

// ---------------------------------------------------------------------------
// The emitted code
// ---------------------------------------------------------------------------

/// The emission state `w` in place of that of `s`.
pub open spec fn with_w(s: ArgsState, w: WalkState) -> ArgsState {
    ArgsState { w, ..s }
}

/// `rv` assigned to local `dest` in the current block.
pub open spec fn assign(s: ArgsState, dest: nat, rv: RvalueV) -> ArgsState {
    a_stmt(s, StmtV::Assign { dest: PlaceV::Local(LocalId(dest as usize)), rvalue: rv })
}

/// An internal error reported, labelled at the span when there is one.
pub open spec fn a_report(s: ArgsState, msg: Seq<char>, span: Option<Span>) -> ArgsState {
    ArgsState {
        diags: s.diags.push(
            DiagV {
                severity: Severity::Bug,
                message: "internal lowering error: "@ + msg,
                labels: match span {
                    Some(sp) => seq![(sp.file_id, sp.start, sp.end, "error occurred here"@)],
                    None => Seq::empty(),
                },
            },
        ),
        ..s
    }
}

/// The place `abs` reads its operand from: the receiver's place, or a temporary
/// `abs_input` of the integer type holding an immediate receiver.
pub open spec fn abs_input(s: ArgsState, recv: ValueV, int_ty: TyId) -> (ArgsState, PlaceV) {
    let n = s.w.locals.len();
    match recv {
        ValueV::Immediate(imm) => (
            assign(a_temp(s, "abs_input"@, int_ty), n, RvalueV::Use(imm)),
            PlaceV::Local(LocalId(n as usize)),
        ),
        ValueV::Place(p) => (s, p),
        ValueV::Unreachable => (s, PlaceV::Local(LocalId(n as usize))),
    }
}

/// The zero of the integer type `ty` among the interned types: a constant of its
/// width, or a 64-bit zero when `ty` is not an interned integer type.
pub open spec fn zero_for(types: Seq<MirTy>, ty: TyId) -> ImmediateV {
    if ty.0 < types.len() && types[ty.0 as int] is Int {
        ImmediateV::Int(types[ty.0 as int]->Int_0, 0)
    } else {
        ImmediateV::Int(IntBits::I64, 0)
    }
}

/// The zero of the integer type `ty` (see `zero_for`).
fn int_zero(types: &Vec<MirTy>, ty: TyId) -> (r: Immediate)
    ensures
        r@ == zero_for(types@, ty),
{
    if ty.0 < types.len() {
        match types[ty.0] {
            MirTy::Int(b) => return Immediate::Int(b, 0),
            _ => {},
        }
    }
    Immediate::Int(IntBits::I64, 0)
}

/// The absolute value of an integer into local `r`: three new blocks (negative,
/// non-negative, join); a boolean temporary `is_neg` that holds whether the operand
/// is below zero (a zero of the operand's width, see `zero_for`) branches to the first or the second; the first assigns the negated
/// operand, the second a copy of it, and both jump to the join block, where emission
/// continues.
pub open spec fn abs_code(s: ArgsState, r: LocalId, recv: ValueV, int_ty: TyId) -> ArgsState {
    let (s1, p) = abs_input(s, recv, int_ty);
    let b = s1.w.blocks.len();
    let s2 = with_w(s1, add_block(add_block(add_block(s1.w))));
    let c = s2.w.locals.len();
    let bool_ty = TyId(type_pos(s2.w.types, MirTy::Bool) as usize);
    let s2b = a_temp(a_type(s2, MirTy::Bool), "is_neg"@, bool_ty);
    let s3 = assign(
        s2b,
        c,
        RvalueV::BinaryOp {
            op: BinOp::LtSigned,
            lhs: ValueV::Place(p),
            rhs: ValueV::Immediate(zero_for(s2b.w.types, int_ty)),
        },
    );
    let s4 = with_w(
        s3,
        put_term(
            s3.w,
            TermV::Branch {
                condition: ValueV::Place(PlaceV::Local(LocalId(c as usize))),
                then_block: BlockId(b as usize),
                else_block: BlockId((b + 1) as usize),
            },
        ),
    );
    let s5 = assign(with_w(s4, goto(s4.w, b)), r.0 as nat, RvalueV::UnaryOp { op: UnOp::Neg, operand: ValueV::Place(p) });
    let s6 = with_w(s5, put_term(s5.w, TermV::Jump(BlockId((b + 2) as usize))));
    let s7 = assign(with_w(s6, goto(s6.w, b + 1)), r.0 as nat, RvalueV::Copy(p));
    let s8 = with_w(s7, put_term(s7.w, TermV::Jump(BlockId((b + 2) as usize))));
    with_w(s8, goto(s8.w, b + 2))
}

/// What a primitive method call emits after its result temporary `r`, and the value
/// it gives, for a reachable receiver `recv` and the lowered argument `arg` (none when
/// the call has no argument):
/// - a unary operator, string length or string pointer: the operation on the
///   receiver assigned to `r`;
/// - `isEmpty`: the length into a temporary `len` of the 64-bit integer type, then
///   whether it equals zero into `r`;
/// - `abs`: see `abs_code`;
/// - `toString`: the decimal text of the receiver into a new temporary `str` of the
///   result type, which is the value;
/// - a binary operator: the operation on the receiver and the argument into `r`, or,
///   without an argument, an internal error (labelled at the call's span, if any) and the
///   error value.
/// The value is `r` but where said otherwise.
pub open spec fn prim_code(
    s: ArgsState,
    m: PrimitiveMethod,
    r: LocalId,
    recv: ValueV,
    arg: Option<ValueV>,
    result_ty: TyId,
    int_ty: TyId,
    span: Option<Span>,
) -> (ArgsState, ValueV) {
    let res = ValueV::Place(PlaceV::Local(r));
    let n = s.w.locals.len();
    if unary_op(m) is Some {
        (assign(s, r.0 as nat, RvalueV::UnaryOp { op: unary_op(m).unwrap(), operand: recv }), res)
    } else {
        match m {
            PrimitiveMethod::StringLength => (assign(s, r.0 as nat, RvalueV::StrLen(recv)), res),
            PrimitiveMethod::StringUnsafePtr => (assign(s, r.0 as nat, RvalueV::StrPtr(recv)), res),
            PrimitiveMethod::StringIsEmpty => {
                let len_ty = TyId(type_pos(s.w.types, MirTy::Int(IntBits::I64)) as usize);
                let s1 = assign(a_temp(a_type(s, MirTy::Int(IntBits::I64)), "len"@, len_ty), n, RvalueV::StrLen(recv));
                (
                    assign(
                        s1,
                        r.0 as nat,
                        RvalueV::BinaryOp {
                            op: BinOp::Eq,
                            lhs: ValueV::Place(PlaceV::Local(LocalId(n as usize))),
                            rhs: ValueV::Immediate(ImmediateV::Int(IntBits::I64, 0)),
                        },
                    ),
                    res,
                )
            },
            PrimitiveMethod::IntAbs => (abs_code(s, r, recv, int_ty), res),
            PrimitiveMethod::IntToString => (
                assign(a_temp(s, "str"@, result_ty), n, RvalueV::IntToString(recv)),
                ValueV::Place(PlaceV::Local(LocalId(n as usize))),
            ),
            _ => match arg {
                Some(a) => (
                    assign(s, r.0 as nat, RvalueV::BinaryOp { op: binary_op(m).unwrap(), lhs: recv, rhs: a }),
                    res,
                ),
                None => (
                    a_report(s, "binary primitive method with no arguments"@, span),
                    ValueV::Immediate(ImmediateV::Error),
                ),
            },
        }
    }
}

// ---------------------------------------------------------------------------
// Emission steps
// ---------------------------------------------------------------------------

impl LoweringContext {
    /// Creates an empty block (a primitive-call step).
    fn prim_block(&mut self) -> (r: BlockId)
        requires
            emitting(old(self)),
        ensures
            args_frame(old(self), final(self)),
            r.0 == old(self).mir.blocks@.len(),
            args_state(final(self)) == with_w(args_state(old(self)), add_block(args_state(old(self)).w)),
    {
        self.walk_new_block()
    }

    /// Continues in block `b` (a primitive-call step).
    fn prim_goto(&mut self, b: BlockId)
        requires
            emitting(old(self)),
            b.0 < args_state(old(self)).w.blocks.len(),
        ensures
            args_frame(old(self), final(self)),
            args_state(final(self)) == with_w(args_state(old(self)), goto(args_state(old(self)).w, b.0 as nat)),
    {
        assert(crate::mir::blocks_view(self.mir.blocks@).len() == self.mir.blocks@.len());
        self.walk_goto(b);
    }

    /// Terminates the current block (a primitive-call step).
    fn prim_term(&mut self, kind: TerminatorKind)
        requires
            emitting(old(self)),
        ensures
            args_frame(old(self), final(self)),
            args_state(final(self)) == with_w(args_state(old(self)), put_term(args_state(old(self)).w, kind@)),
    {
        self.walk_term(kind);
    }

    /// Interns a type (a primitive-call step).
    pub(crate) fn prim_type(&mut self, ty: MirTy) -> (r: TyId)
        requires
            emitting(old(self)),
        ensures
            args_frame(old(self), final(self)),
            r.0 == type_pos(old(self).mir.types@, ty),
            args_state(final(self)) == a_type(args_state(old(self)), ty),
    {
        self.mir.intern_type(ty)
    }

    /// Reports an internal error at an optional span (a primitive-call step).
    pub(crate) fn prim_error(&mut self, message: &str, span: Option<Span>)
        requires
            emitting(old(self)),
        ensures
            args_frame(old(self), final(self)),
            args_state(final(self)) == a_report(args_state(old(self)), message@, span),
    {
        let e = LoweringError::internal(message, span);
        self.emit_error(e);
        proof {
            let o = args_state(old(self));
            let d = self.diags().last();
            assert(diag_view(d).labels =~= match span {
                Some(sp) => seq![(sp.file_id, sp.start, sp.end, "error occurred here"@)],
                None => Seq::empty(),
            });
            assert(diag_view(d) == DiagV {
                severity: Severity::Bug,
                message: "internal lowering error: "@ + message@,
                labels: match span {
                    Some(sp) => seq![(sp.file_id, sp.start, sp.end, "error occurred here"@)],
                    None => Seq::empty(),
                },
            });
            assert(self.diags().map_values(|d: Diagnostic| diag_view(d)) =~= o.diags.push(diag_view(d)));
        }
    }
}

// ---------------------------------------------------------------------------
// Emission
// ---------------------------------------------------------------------------

/// Starts a primitive method call on a lowered receiver: for a reachable receiver
/// the temporary `prim` of the (lowered) result type, which holds the result; `None`
/// (and nothing emitted) for an unreachable one.
pub fn begin_primitive_method_call(ctx: &mut LoweringContext, receiver: &Value, result_ty: TyId) -> (r: Option<
    LocalId,
>)
    requires
        !(receiver is Unreachable) ==> emitting(old(ctx)) && old(ctx).temp_count() < u32::MAX,
    ensures
        receiver is Unreachable ==> r is None && *final(ctx) == *old(ctx),
        !(receiver is Unreachable) ==> {
            &&& r == Some(LocalId(old(ctx).mir.locals@.len() as usize))
            &&& args_frame(old(ctx), final(ctx))
            &&& args_state(final(ctx)) == a_temp(args_state(old(ctx)), "prim"@, result_ty)
        },
{
    if let Value::Unreachable = receiver {
        return None;
    }
    Some(ctx.args_temp("prim", result_ty))
}

/// Emits a primitive method call (see `prim_code`) into its result temporary
/// `result`, with the lowered receiver, the lowered argument (none when the call has
/// none; a unary method ignores it), the lowered result type, the lowered type of the
/// receiver (which `abs` uses), and the call's span.
pub fn finish_primitive_method_call(
    ctx: &mut LoweringContext,
    method: PrimitiveMethod,
    result: LocalId,
    receiver: Value,
    argument: Option<Value>,
    result_ty: TyId,
    int_ty: TyId,
    span: Option<Span>,
) -> (r: Value)
    requires
        emitting(old(ctx)),
        !(receiver is Unreachable),
        old(ctx).temp_count() + 2 <= u32::MAX,
    ensures
        args_frame(old(ctx), final(ctx)),
        ({
            let arg = match argument {
                Some(a) => Some(a@),
                None => None,
            };
            let (s, v) = prim_code(args_state(old(ctx)), method, result, receiver@, arg, result_ty, int_ty, span);
            args_state(final(ctx)) == s && r@ == v
        }),
{
    let res = Value::Place(Place::local(result));
    match method {
        PrimitiveMethod::IntNeg => {
            ctx.args_assign(result, Rvalue::UnaryOp { op: UnOp::Neg, operand: receiver });
            res
        },
        PrimitiveMethod::FloatNeg => {
            ctx.args_assign(result, Rvalue::UnaryOp { op: UnOp::FNeg, operand: receiver });
            res
        },
        PrimitiveMethod::BoolNot => {
            ctx.args_assign(result, Rvalue::UnaryOp { op: UnOp::BoolNot, operand: receiver });
            res
        },
        PrimitiveMethod::IntBitNot => {
            ctx.args_assign(result, Rvalue::UnaryOp { op: UnOp::Not, operand: receiver });
            res
        },
        PrimitiveMethod::StringLength => {
            ctx.args_assign(result, Rvalue::StrLen(receiver));
            res
        },
        PrimitiveMethod::StringUnsafePtr => {
            ctx.args_assign(result, Rvalue::StrPtr(receiver));
            res
        },
        PrimitiveMethod::StringIsEmpty => {
            let len_ty = ctx.prim_type(MirTy::Int(IntBits::I64));
            let len_local = ctx.args_temp("len", len_ty);
            ctx.args_assign(len_local, Rvalue::StrLen(receiver));
            ctx.args_assign(
                result,
                Rvalue::BinaryOp {
                    op: BinOp::Eq,
                    lhs: Value::Place(Place::local(len_local)),
                    rhs: Value::Immediate(Immediate::Int(IntBits::I64, 0)),
                },
            );
            res
        },
        PrimitiveMethod::IntAbs => {
            emit_abs(ctx, result, receiver, int_ty);
            res
        },
        PrimitiveMethod::IntToString => {
            let str_local = ctx.args_temp("str", result_ty);
            ctx.args_assign(str_local, Rvalue::IntToString(receiver));
            Value::Place(Place::local(str_local))
        },
        _ => {
            match argument {
                None => {
                    ctx.prim_error("binary primitive method with no arguments", span);
                    Value::Immediate(Immediate::Error)
                },
                Some(rhs) => {
                    let op = binary_operator(method);
                    ctx.args_assign(result, Rvalue::BinaryOp { op, lhs: receiver, rhs });
                    res
                },
            }
        },
    }
}

/// The binary operator of a binary method.
fn binary_operator(m: PrimitiveMethod) -> (r: BinOp)
    requires
        binary_op(m) is Some,
    ensures
        r == binary_op(m).unwrap(),
{
    match m {
        PrimitiveMethod::IntAdd => BinOp::AddSigned,
        PrimitiveMethod::IntSub => BinOp::SubSigned,
        PrimitiveMethod::IntMul => BinOp::MulSigned,
        PrimitiveMethod::IntDiv => BinOp::DivSigned,
        PrimitiveMethod::IntRem => BinOp::RemSigned,
        PrimitiveMethod::IntEq => BinOp::Eq,
        PrimitiveMethod::IntNe => BinOp::Ne,
        PrimitiveMethod::IntLt => BinOp::LtSigned,
        PrimitiveMethod::IntLe => BinOp::LeSigned,
        PrimitiveMethod::IntGt => BinOp::GtSigned,
        PrimitiveMethod::IntGe => BinOp::GeSigned,
        PrimitiveMethod::IntBitAnd => BinOp::And,
        PrimitiveMethod::IntBitOr => BinOp::Or,
        PrimitiveMethod::IntBitXor => BinOp::Xor,
        PrimitiveMethod::IntShl => BinOp::Shl,
        PrimitiveMethod::IntShr => BinOp::ShrSigned,
        PrimitiveMethod::FloatAdd => BinOp::FAdd,
        PrimitiveMethod::FloatSub => BinOp::FSub,
        PrimitiveMethod::FloatMul => BinOp::FMul,
        PrimitiveMethod::FloatDiv => BinOp::FDiv,
        PrimitiveMethod::FloatEq => BinOp::FEq,
        PrimitiveMethod::FloatNe => BinOp::FNe,
        PrimitiveMethod::FloatLt => BinOp::FLt,
        PrimitiveMethod::FloatLe => BinOp::FLe,
        PrimitiveMethod::FloatGt => BinOp::FGt,
        PrimitiveMethod::FloatGe => BinOp::FGe,
        PrimitiveMethod::BoolAnd => BinOp::BoolAnd,
        PrimitiveMethod::BoolOr => BinOp::BoolOr,
        PrimitiveMethod::BoolEq => BinOp::Eq,
        PrimitiveMethod::BoolNe => BinOp::Ne,
        PrimitiveMethod::StringEq => BinOp::StrEq,
        _ => BinOp::Ne,
    }
}

/// Emits the absolute value of an integer into `result` (see `abs_code`).
fn emit_abs(ctx: &mut LoweringContext, result: LocalId, receiver: Value, int_ty: TyId)
    requires
        emitting(old(ctx)),
        !(receiver is Unreachable),
        old(ctx).temp_count() + 2 <= u32::MAX,
    ensures
        args_frame(old(ctx), final(ctx)),
        args_state(final(ctx)) == abs_code(args_state(old(ctx)), result, receiver@, int_ty),
{
    let operand = match receiver {
        Value::Place(p) => p,
        Value::Immediate(imm) => {
            let temp = ctx.args_temp("abs_input", int_ty);
            ctx.args_assign(temp, Rvalue::Use(imm));
            Place::local(temp)
        },
        Value::Unreachable => Place::local(result),
    };
    let neg_block = ctx.prim_block();
    let pos_block = ctx.prim_block();
    let join_block = ctx.prim_block();
    let bool_ty = ctx.prim_type(MirTy::Bool);
    let cmp_local = ctx.args_temp("is_neg", bool_ty);
    let zero = int_zero(&ctx.mir.types, int_ty);
    ctx.args_assign(
        cmp_local,
        Rvalue::BinaryOp {
            op: BinOp::LtSigned,
            lhs: Value::Place(operand.duplicate()),
            rhs: Value::Immediate(zero),
        },
    );
    ctx.prim_term(
        TerminatorKind::Branch {
            condition: Value::Place(Place::local(cmp_local)),
            then_block: neg_block,
            else_block: pos_block,
        },
    );
    ctx.prim_goto(neg_block);
    ctx.args_assign(result, Rvalue::UnaryOp { op: UnOp::Neg, operand: Value::Place(operand.duplicate()) });
    ctx.prim_term(TerminatorKind::Jump(join_block));
    ctx.prim_goto(pos_block);
    ctx.args_assign(result, Rvalue::Copy(operand));
    ctx.prim_term(TerminatorKind::Jump(join_block));
    ctx.prim_goto(join_block);
}

} // verus!

verus! {

/// The operation a binary method emits into its result `r`, on the receiver and
/// the argument.
pub open spec fn binary_emitted(s: ArgsState, r: LocalId, recv: ValueV, arg: ValueV, op: BinOp) -> ArgsState {
    assign(s, r.0 as nat, RvalueV::BinaryOp { op, lhs: recv, rhs: arg })
}

/// Each binary method is lowered to the MIR operator of its own operation, whatever
/// the receiver, the argument and the state: integer addition, subtraction,
/// multiplication, division and remainder to the signed arithmetic operators,
/// integer comparisons to the signed comparisons (equality and inequality to `Eq`
/// and `Ne`), the bitwise methods to the bitwise operators with a signed right
/// shift, the float methods to the float operators, the boolean connectives to
/// `BoolAnd` and `BoolOr` (boolean equality to `Eq` and `Ne`), and string equality
/// to `StrEq` (string inequality to `Ne`); the call's value is its result.
pub proof fn law_binary_methods_lower_to_their_operators(
    s: ArgsState,
    r: LocalId,
    recv: ValueV,
    arg: ValueV,
    result_ty: TyId,
    int_ty: TyId,
    span: Option<Span>,
)
    ensures
        ({
            let code = |m: PrimitiveMethod| prim_code(s, m, r, recv, Some(arg), result_ty, int_ty, span);
            let emitted = |op: BinOp| (binary_emitted(s, r, recv, arg, op), ValueV::Place(PlaceV::Local(r)));
            &&& code(PrimitiveMethod::IntAdd) == emitted(BinOp::AddSigned)
            &&& code(PrimitiveMethod::IntSub) == emitted(BinOp::SubSigned)
            &&& code(PrimitiveMethod::IntMul) == emitted(BinOp::MulSigned)
            &&& code(PrimitiveMethod::IntDiv) == emitted(BinOp::DivSigned)
            &&& code(PrimitiveMethod::IntRem) == emitted(BinOp::RemSigned)
            &&& code(PrimitiveMethod::IntEq) == emitted(BinOp::Eq)
            &&& code(PrimitiveMethod::IntNe) == emitted(BinOp::Ne)
            &&& code(PrimitiveMethod::IntLt) == emitted(BinOp::LtSigned)
            &&& code(PrimitiveMethod::IntLe) == emitted(BinOp::LeSigned)
            &&& code(PrimitiveMethod::IntGt) == emitted(BinOp::GtSigned)
            &&& code(PrimitiveMethod::IntGe) == emitted(BinOp::GeSigned)
            &&& code(PrimitiveMethod::IntBitAnd) == emitted(BinOp::And)
            &&& code(PrimitiveMethod::IntBitOr) == emitted(BinOp::Or)
            &&& code(PrimitiveMethod::IntBitXor) == emitted(BinOp::Xor)
            &&& code(PrimitiveMethod::IntShl) == emitted(BinOp::Shl)
            &&& code(PrimitiveMethod::IntShr) == emitted(BinOp::ShrSigned)
            &&& code(PrimitiveMethod::FloatAdd) == emitted(BinOp::FAdd)
            &&& code(PrimitiveMethod::FloatSub) == emitted(BinOp::FSub)
            &&& code(PrimitiveMethod::FloatMul) == emitted(BinOp::FMul)
            &&& code(PrimitiveMethod::FloatDiv) == emitted(BinOp::FDiv)
            &&& code(PrimitiveMethod::FloatEq) == emitted(BinOp::FEq)
            &&& code(PrimitiveMethod::FloatNe) == emitted(BinOp::FNe)
            &&& code(PrimitiveMethod::FloatLt) == emitted(BinOp::FLt)
            &&& code(PrimitiveMethod::FloatLe) == emitted(BinOp::FLe)
            &&& code(PrimitiveMethod::FloatGt) == emitted(BinOp::FGt)
            &&& code(PrimitiveMethod::FloatGe) == emitted(BinOp::FGe)
            &&& code(PrimitiveMethod::BoolAnd) == emitted(BinOp::BoolAnd)
            &&& code(PrimitiveMethod::BoolOr) == emitted(BinOp::BoolOr)
            &&& code(PrimitiveMethod::BoolEq) == emitted(BinOp::Eq)
            &&& code(PrimitiveMethod::BoolNe) == emitted(BinOp::Ne)
            &&& code(PrimitiveMethod::StringEq) == emitted(BinOp::StrEq)
            &&& code(PrimitiveMethod::StringNe) == emitted(BinOp::Ne)
        }),
{
}

/// The unary methods are lowered to their own operators on the receiver: integer
/// negation to `Neg`, float negation to `FNeg`, boolean negation to `BoolNot` and
/// the bitwise complement to `Not`; string length and data pointer to `StrLen` and
/// `StrPtr`; the argument is not read.
pub proof fn law_unary_methods_lower_to_their_operators(
    s: ArgsState,
    r: LocalId,
    recv: ValueV,
    arg: Option<ValueV>,
    result_ty: TyId,
    int_ty: TyId,
    span: Option<Span>,
)
    ensures
        ({
            let code = |m: PrimitiveMethod| prim_code(s, m, r, recv, arg, result_ty, int_ty, span);
            let res = ValueV::Place(PlaceV::Local(r));
            let un = |op: UnOp| (assign(s, r.0 as nat, RvalueV::UnaryOp { op, operand: recv }), res);
            &&& code(PrimitiveMethod::IntNeg) == un(UnOp::Neg)
            &&& code(PrimitiveMethod::FloatNeg) == un(UnOp::FNeg)
            &&& code(PrimitiveMethod::BoolNot) == un(UnOp::BoolNot)
            &&& code(PrimitiveMethod::IntBitNot) == un(UnOp::Not)
            &&& code(PrimitiveMethod::StringLength) == (assign(s, r.0 as nat, RvalueV::StrLen(recv)), res)
            &&& code(PrimitiveMethod::StringUnsafePtr) == (assign(s, r.0 as nat, RvalueV::StrPtr(recv)), res)
        }),
{
}

} // verus!
