//! Argument passing for calls: how each argument of a call is passed, given how
//! the callee receives `self` and each parameter, and what the arguments' types
//! allow. Borrowed and mutated parameters get references, consuming ones get a
//! copy or the value itself, and a cloneable value passed to a consuming parameter
//! is cloned through its `Cloneable` conformance first.
//!
//! The emitted code is described by a model over the emission state of a decision
//! tree (see `let_pattern`), the interned names and the diagnostics.

use vstd::prelude::*;

use crate::context::LoweringContext;
use crate::error::{Diagnostic, Label, LoweringError, Severity};
use crate::expr::{ref_rvalue, ref_ty, temp_name, ParameterAccessMode};
use crate::let_pattern::{emitting, locals_view, put_stmt, walk_state, WalkState};
use crate::mir::{
    args_view, blocks_view, interned, name_pos, names_view, type_pos, types_interned, values_view, CallArg, CallArgV,
    Callee, CalleeV, Immediate, ImmediateV, LocalId, MirTy, NameId, PassingMode, Place, PlaceV, Rvalue, RvalueV, StmtV,
    TyId, Value, ValueV,
};
use crate::text::owned;
use crate::name::{name_segments, qualified_name_for_symbol};
use crate::sem::SymbolNode;

verus! {

/// The view of a diagnostic: its severity, message and labels (file, start, end and
/// message of each).
pub struct DiagV {
    pub severity: Severity,
    pub message: Seq<char>,
    pub labels: Seq<(usize, usize, usize, Seq<char>)>,
}

/// The view of a label.
pub open spec fn label_view(l: Label) -> (usize, usize, usize, Seq<char>) {
    (l.file_id, l.start, l.end, l.message@)
}

/// The view of a diagnostic.
pub open spec fn diag_view(d: Diagnostic) -> DiagV {
    DiagV { severity: d.severity, message: d.message@, labels: d.labels@.map_values(|l: Label| label_view(l)) }
}

/// What argument passing changes: the emission state, the interned names and the
/// diagnostics.
#[verifier::ext_equal]
pub struct ArgsState {
    pub w: WalkState,
    pub names: Seq<Seq<Seq<char>>>,
    pub diags: Seq<DiagV>,
}

/// The argument-passing state of a context inside a function and a block.
pub open spec fn args_state(ctx: &LoweringContext) -> ArgsState {
    ArgsState {
        w: walk_state(ctx),
        names: names_view(ctx.mir.names@),
        diags: ctx.diags().map_values(|d: Diagnostic| diag_view(d)),
    }
}

/// Nothing that the argument-passing model leaves out changed, and emission can go on.
pub open spec fn args_frame(old: &LoweringContext, new: &LoweringContext) -> bool {
    let f = old.cur_function().unwrap().0 as int;
    &&& emitting(new)
    &&& new.cur_function() == old.cur_function()
    &&& new.mir.statics == old.mir.statics
    &&& new.mir.functions@.len() == old.mir.functions@.len()
    &&& forall|j: int| 0 <= j < old.mir.functions@.len() && j != f ==> new.mir.functions@[j] == old.mir.functions@[j]
    &&& new.mir.functions@[f].name == old.mir.functions@[f].name
    &&& new.mir.functions@[f].params == old.mir.functions@[f].params
    &&& new.mir.functions@[f].return_ty == old.mir.functions@[f].return_ty
    &&& new.mir.functions@[f].entry_block == old.mir.functions@[f].entry_block
    &&& new.type_param_view() == old.type_param_view()
    &&& new.loops() == old.loops()
    &&& new.scopes() == old.scopes()
    &&& new.temps() == old.temps()
    &&& new.closure_count() == old.closure_count()
    &&& new.flag_count() == old.flag_count()
}

// ---------------------------------------------------------------------------
// Steps
// ---------------------------------------------------------------------------

/// A temporary named from `prefix` and the counter, of type `ty`, added as a local of
/// the function.
pub open spec fn a_temp(s: ArgsState, prefix: Seq<char>, ty: TyId) -> ArgsState {
    ArgsState {
        w: WalkState {
            locals: s.w.locals.push((temp_name(prefix, s.w.temps), ty)),
            fn_locals: s.w.fn_locals.push(LocalId(s.w.locals.len() as usize)),
            temps: s.w.temps + 1,
            ..s.w
        },
        ..s
    }
}

/// A statement appended to the current block.
pub open spec fn a_stmt(s: ArgsState, st: StmtV) -> ArgsState {
    ArgsState { w: put_stmt(s.w, st), ..s }
}

/// The type `t` interned (its id is `type_pos(s.w.types, t)`).
pub open spec fn a_type(s: ArgsState, t: MirTy) -> ArgsState {
    ArgsState { w: WalkState { types: types_interned(s.w.types, t), ..s.w }, ..s }
}

/// The name `segs` interned (its id is `name_pos(s.names, segs)`).
pub open spec fn a_name(s: ArgsState, segs: Seq<Seq<char>>) -> ArgsState {
    ArgsState { names: interned(s.names, segs), ..s }
}

/// An internal error with message `msg` reported.
pub open spec fn a_error(s: ArgsState, msg: Seq<char>) -> ArgsState {
    ArgsState {
        diags: s.diags.push(
            DiagV { severity: Severity::Bug, message: "internal lowering error: "@ + msg, labels: Seq::empty() },
        ),
        ..s
    }
}

impl LoweringContext {
    /// Creates a temporary (an argument-passing step).
    pub(crate) fn args_temp(&mut self, prefix: &str, ty: TyId) -> (r: LocalId)
        requires
            emitting(old(self)),
            old(self).temp_count() < u32::MAX,
        ensures
            args_frame(old(self), final(self)),
            r.0 == old(self).mir.locals@.len(),
            args_state(final(self)) == a_temp(args_state(old(self)), prefix@, ty),
    {
        let ghost f = self.current_function.unwrap();
        let r = self.create_temp(prefix, ty);
        proof {
            let e = a_temp(args_state(old(self)), prefix@, ty);
            assert(locals_view(self.mir.locals@) =~= e.w.locals) by {
                assert(self.mir.locals@ =~= old(self).mir.locals@.push(self.mir.locals@.last()));
            }
            assert(self.mir.functions@[f.0 as int].locals@ =~= e.w.fn_locals);
        }
        r
    }

    /// Assigns `rvalue` to local `dest` in the current block (an argument-passing step).
    pub(crate) fn args_assign(&mut self, dest: LocalId, rvalue: Rvalue)
        requires
            emitting(old(self)),
        ensures
            args_frame(old(self), final(self)),
            args_state(final(self)) == a_stmt(
                args_state(old(self)),
                StmtV::Assign { dest: PlaceV::Local(dest), rvalue: rvalue@ },
            ),
    {
        let ghost rv = rvalue@;
        let ghost b = self.current_block.unwrap();
        self.emit_assign(Place::local(dest), rvalue);
        proof {
            let e = a_stmt(args_state(old(self)), StmtV::Assign { dest: PlaceV::Local(dest), rvalue: rv });
            assert(blocks_view(self.mir.blocks@) =~= e.w.blocks) by {
                assert forall|j: int| 0 <= j < self.mir.blocks@.len() implies blocks_view(self.mir.blocks@)[j]
                    == e.w.blocks[j] by {
                    if j != b.0 {
                        assert(self.mir.blocks@[j] == old(self).mir.blocks@[j]);
                    }
                }
            }
        }
    }

    /// Interns the reference type to `base` (an argument-passing step).
    pub(crate) fn args_ref_type(&mut self, base: TyId, is_mutable: bool) -> (r: TyId)
        requires
            emitting(old(self)),
        ensures
            args_frame(old(self), final(self)),
            r.0 == type_pos(old(self).mir.types@, ref_ty(base, is_mutable)),
            args_state(final(self)) == a_type(args_state(old(self)), ref_ty(base, is_mutable)),
    {
        if is_mutable {
            self.mir.ty_ref_mut(base)
        } else {
            self.mir.ty_ref(base)
        }
    }

    /// Interns the qualified name of a symbol (an argument-passing step).
    pub(crate) fn args_name(&mut self, symbol: &SymbolNode) -> (r: NameId)
        requires
            emitting(old(self)),
        ensures
            args_frame(old(self), final(self)),
            r.0 == name_pos(names_view(old(self).mir.names@), name_segments(symbol)),
            args_state(final(self)) == a_name(args_state(old(self)), name_segments(symbol)),
            r.0 < final(self).mir.names@.len(),
            final(self).mir.name_view(r) == name_segments(symbol),
    {
        qualified_name_for_symbol(self, symbol)
    }

    /// Reports an internal error without a span (an argument-passing step).
    fn args_error(&mut self, message: &str)
        requires
            emitting(old(self)),
        ensures
            args_frame(old(self), final(self)),
            args_state(final(self)) == a_error(args_state(old(self)), message@),
    {
        let e = LoweringError::internal(message, None);
        self.emit_error(e);
        proof {
            let o = args_state(old(self));
            let d = self.diags().last();
            assert(diag_view(d).labels =~= Seq::empty());
            assert(diag_view(d) == DiagV {
                severity: Severity::Bug,
                message: "internal lowering error: "@ + message@,
                labels: Seq::empty(),
            });
            assert(self.diags().map_values(|d: Diagnostic| diag_view(d)) =~= o.diags.push(diag_view(d)));
        }
    }
}


impl LoweringContext {
    /// Assigns the result of a call to local `dest` (an argument-passing step).
    pub(crate) fn args_call(&mut self, dest: LocalId, callee: Callee, args: Vec<CallArg>)
        requires
            emitting(old(self)),
        ensures
            args_frame(old(self), final(self)),
            args_state(final(self)) == a_stmt(
                args_state(old(self)),
                StmtV::Assign {
                    dest: PlaceV::Local(dest),
                    rvalue: RvalueV::Call { callee: callee@, args: crate::mir::args_view(args@) },
                },
            ),
    {
        let ghost cv = callee@;
        let ghost av = crate::mir::args_view(args@);
        let ghost b = self.current_block.unwrap();
        self.emit_call_with_modes(Place::local(dest), callee, args);
        proof {
            let e = a_stmt(
                args_state(old(self)),
                StmtV::Assign { dest: PlaceV::Local(dest), rvalue: RvalueV::Call { callee: cv, args: av } },
            );
            assert(blocks_view(self.mir.blocks@) =~= e.w.blocks) by {
                assert forall|j: int| 0 <= j < self.mir.blocks@.len() implies blocks_view(self.mir.blocks@)[j]
                    == e.w.blocks[j] by {
                    if j != b.0 {
                        assert(self.mir.blocks@[j] == old(self).mir.blocks@[j]);
                    }
                }
            }
        }
    }
}

// ---------------------------------------------------------------------------
// The callee's side
// ---------------------------------------------------------------------------

/// How an instance method receives `self`.
#[derive(Clone, Copy, PartialEq, Eq, Debug, Structural)]
pub enum ReceiverKind {
    Borrowing,
    Mutating,
    Consuming,
    Initializing,
}

/// What argument passing reads of a callable: how it receives `self` (if it says)
/// and how each of its declared parameters is accessed.
#[derive(Debug)]
pub struct CallableParams {
    pub receiver: Option<ReceiverKind>,
    pub modes: Vec<ParameterAccessMode>,
}

/// What argument passing reads of an argument's type: whether it is copyable and
/// cloneable, and the type lowered to MIR.
#[derive(Clone, Copy, Debug)]
pub struct ArgType {
    pub copyable: bool,
    pub cloneable: bool,
    pub ty: TyId,
}

/// The outcome of looking up the `Cloneable` protocol: found (its symbol), not
/// registered as a builtin, or registered without a symbol.
#[derive(Debug)]
pub enum CloneableLookup {
    Found(SymbolNode),
    NotRegistered,
    SymbolMissing,
}

/// The lookup outcome, with the protocol by its qualified name.
pub enum CloneLookupV {
    Found(Seq<Seq<char>>),
    NotRegistered,
    SymbolMissing,
}

/// The view of a lookup outcome.
pub open spec fn lookup_view(l: &CloneableLookup) -> CloneLookupV {
    match l {
        CloneableLookup::Found(sym) => CloneLookupV::Found(name_segments(sym)),
        CloneableLookup::NotRegistered => CloneLookupV::NotRegistered,
        CloneableLookup::SymbolMissing => CloneLookupV::SymbolMissing,
    }
}

// ---------------------------------------------------------------------------
// The emitted code
// ---------------------------------------------------------------------------

/// A reference to a value: a place gets a temporary `arg_ref` holding a reference
/// to it; an immediate is first stored in a temporary `arg_temp` of type `base`,
/// which then gets a reference temporary; an unreachable value stays unreachable.
/// The reference type to `base` is interned before its temporary is made.
pub open spec fn ref_step(s: ArgsState, v: ValueV, base: TyId, m: bool) -> (ArgsState, ValueV) {
    let n = s.w.locals.len();
    match v {
        ValueV::Place(p) => {
            let rt = TyId(type_pos(s.w.types, ref_ty(base, m)) as usize);
            let s1 = a_temp(a_type(s, ref_ty(base, m)), "arg_ref"@, rt);
            (
                a_stmt(s1, StmtV::Assign { dest: PlaceV::Local(LocalId(n as usize)), rvalue: ref_rvalue(p, m) }),
                ValueV::Place(PlaceV::Local(LocalId(n as usize))),
            )
        },
        ValueV::Immediate(imm) => {
            let s1 = a_stmt(
                a_temp(s, "arg_temp"@, base),
                StmtV::Assign { dest: PlaceV::Local(LocalId(n as usize)), rvalue: RvalueV::Use(imm) },
            );
            let rt = TyId(type_pos(s1.w.types, ref_ty(base, m)) as usize);
            let s2 = a_temp(a_type(s1, ref_ty(base, m)), "arg_ref"@, rt);
            (
                a_stmt(
                    s2,
                    StmtV::Assign {
                        dest: PlaceV::Local(LocalId((n + 1) as usize)),
                        rvalue: ref_rvalue(PlaceV::Local(LocalId(n as usize)), m),
                    },
                ),
                ValueV::Place(PlaceV::Local(LocalId((n + 1) as usize))),
            )
        },
        ValueV::Unreachable => (s, ValueV::Unreachable),
    }
}

/// A clone of a value of type `ty`: a temporary `cloned` of that type, then, when
/// the `Cloneable` protocol is found, the call of its `clone` witness for `ty` on a
/// shared reference to the value into the temporary (the protocol's name interned
/// first); when it is not, an internal error and the unit value.
pub open spec fn clone_step(s: ArgsState, v: ValueV, ty: TyId, lookup: CloneLookupV) -> (ArgsState, ValueV) {
    let n = s.w.locals.len();
    let s1 = a_temp(s, "cloned"@, ty);
    match lookup {
        CloneLookupV::Found(segs) => {
            let pid = NameId(name_pos(s1.names, segs) as usize);
            (
                a_stmt(
                    a_name(s1, segs),
                    StmtV::Assign {
                        dest: PlaceV::Local(LocalId(n as usize)),
                        rvalue: RvalueV::Call {
                            callee: CalleeV::Witness { protocol: pid, method: "clone"@, for_type: ty, type_args: Seq::empty() },
                            args: seq![CallArgV { value: v, mode: PassingMode::Ref }],
                        },
                    },
                ),
                ValueV::Place(PlaceV::Local(LocalId(n as usize))),
            )
        },
        CloneLookupV::NotRegistered => (
            a_error(s1, "Cloneable builtin protocol not registered"@),
            ValueV::Immediate(ImmediateV::Unit),
        ),
        CloneLookupV::SymbolMissing => (
            a_error(s1, "Cloneable protocol symbol not found in registry"@),
            ValueV::Immediate(ImmediateV::Unit),
        ),
    }
}

/// The passing mode of a parameter whose argument's type is unknown: by reference,
/// by mutable reference, or (consuming) by copy.
pub open spec fn fallback_mode(m: ParameterAccessMode) -> PassingMode {
    match m {
        ParameterAccessMode::Borrow => PassingMode::Ref,
        ParameterAccessMode::Mutating => PassingMode::MutRef,
        ParameterAccessMode::Consuming => PassingMode::Copy,
    }
}

/// The copy or move of a value of a type that is copyable or not.
pub open spec fn copy_or_move(copyable: bool) -> PassingMode {
    if copyable {
        PassingMode::Copy
    } else {
        PassingMode::Move
    }
}

/// How argument `i` (value `v`) is passed, with what it emits. Without a callable,
/// by reference. The receiver of an instance method (argument 0) by reference when
/// borrowed (or unsaid), by mutable reference when mutated or initialized, and when
/// consumed by copy or move as its type allows. Any other argument by its parameter:
/// a cloneable value for a consuming parameter is cloned and the clone moved; a
/// borrowed or mutated one is referenced and the reference copied; a consumed one is
/// copied or moved; with no argument type, by the parameter's mode alone; with no
/// parameter, by reference.
pub open spec fn arg_step(
    s: ArgsState,
    i: int,
    v: ValueV,
    tys: Seq<ArgType>,
    beh: Option<(Option<ReceiverKind>, Seq<ParameterAccessMode>)>,
    inst: bool,
    lookup: CloneLookupV,
) -> (ArgsState, CallArgV) {
    match beh {
        None => (s, CallArgV { value: v, mode: PassingMode::Ref }),
        Some((recv, modes)) => if inst && i == 0 {
            match recv {
                Some(ReceiverKind::Mutating) | Some(ReceiverKind::Initializing) => (
                    s,
                    CallArgV { value: v, mode: PassingMode::MutRef },
                ),
                Some(ReceiverKind::Consuming) => if tys.len() > 0 {
                    (s, CallArgV { value: v, mode: copy_or_move(tys[0].copyable) })
                } else {
                    (s, CallArgV { value: v, mode: PassingMode::Move })
                },
                _ => (s, CallArgV { value: v, mode: PassingMode::Ref }),
            }
        } else {
            let pi = if inst {
                i - 1
            } else {
                i
            };
            if 0 <= pi < modes.len() {
                if i < tys.len() {
                    let at = tys[i];
                    if modes[pi] == ParameterAccessMode::Consuming && at.cloneable {
                        let (s1, cv) = clone_step(s, v, at.ty, lookup);
                        (s1, CallArgV { value: cv, mode: PassingMode::Move })
                    } else {
                        match modes[pi] {
                            ParameterAccessMode::Borrow => {
                                let (s1, rv) = ref_step(s, v, at.ty, false);
                                (s1, CallArgV { value: rv, mode: PassingMode::Copy })
                            },
                            ParameterAccessMode::Mutating => {
                                let (s1, rv) = ref_step(s, v, at.ty, true);
                                (s1, CallArgV { value: rv, mode: PassingMode::Copy })
                            },
                            ParameterAccessMode::Consuming => (
                                s,
                                CallArgV { value: v, mode: copy_or_move(at.copyable) },
                            ),
                        }
                    }
                } else {
                    (s, CallArgV { value: v, mode: fallback_mode(modes[pi]) })
                }
            } else {
                (s, CallArgV { value: v, mode: PassingMode::Ref })
            }
        },
    }
}

/// How the arguments from `i` on are passed, in order, with what they emit.
pub open spec fn args_fold(
    s: ArgsState,
    vals: Seq<ValueV>,
    i: nat,
    tys: Seq<ArgType>,
    beh: Option<(Option<ReceiverKind>, Seq<ParameterAccessMode>)>,
    inst: bool,
    lookup: CloneLookupV,
) -> (ArgsState, Seq<CallArgV>)
    decreases vals.len() - i,
{
    if i >= vals.len() {
        (s, Seq::empty())
    } else {
        let (s1, a) = arg_step(s, i as int, vals[i as int], tys, beh, inst, lookup);
        let (s2, rest) = args_fold(s1, vals, i + 1, tys, beh, inst, lookup);
        (s2, seq![a] + rest)
    }
}

/// The callable's view for argument passing.
pub open spec fn params_view(b: Option<&CallableParams>) -> Option<(Option<ReceiverKind>, Seq<ParameterAccessMode>)> {
    match b {
        Some(p) => Some((p.receiver, p.modes@)),
        None => None,
    }
}


proof fn lemma_arg_temps(
    s: ArgsState,
    i: int,
    v: ValueV,
    tys: Seq<ArgType>,
    beh: Option<(Option<ReceiverKind>, Seq<ParameterAccessMode>)>,
    inst: bool,
    lookup: CloneLookupV,
)
    ensures
        arg_step(s, i, v, tys, beh, inst, lookup).0.w.temps >= s.w.temps,
{
}

proof fn lemma_fold_temps(
    s: ArgsState,
    vals: Seq<ValueV>,
    i: nat,
    tys: Seq<ArgType>,
    beh: Option<(Option<ReceiverKind>, Seq<ParameterAccessMode>)>,
    inst: bool,
    lookup: CloneLookupV,
)
    ensures
        args_fold(s, vals, i, tys, beh, inst, lookup).0.w.temps >= s.w.temps,
    decreases vals.len() - i,
{
    if i < vals.len() {
        lemma_arg_temps(s, i as int, vals[i as int], tys, beh, inst, lookup);
        let s1 = arg_step(s, i as int, vals[i as int], tys, beh, inst, lookup).0;
        lemma_fold_temps(s1, vals, i + 1, tys, beh, inst, lookup);
    }
}

/// Every argument gets exactly one passed argument, in order: the argument list from
/// `i` on is as long as the values from `i` on.
pub proof fn law_one_passed_argument_per_value(
    s: ArgsState,
    vals: Seq<ValueV>,
    i: nat,
    tys: Seq<ArgType>,
    beh: Option<(Option<ReceiverKind>, Seq<ParameterAccessMode>)>,
    inst: bool,
    lookup: CloneLookupV,
)
    requires
        i <= vals.len(),
    ensures
        args_fold(s, vals, i, tys, beh, inst, lookup).1.len() == vals.len() - i,
    decreases vals.len() - i,
{
    if i < vals.len() {
        let s1 = arg_step(s, i as int, vals[i as int], tys, beh, inst, lookup).0;
        law_one_passed_argument_per_value(s1, vals, i + 1, tys, beh, inst, lookup);
    }
}

/// Without a callable (an indirect call) every argument is passed by reference as it
/// is, and nothing is emitted.
pub proof fn law_indirect_call_passes_by_reference(
    s: ArgsState,
    vals: Seq<ValueV>,
    i: nat,
    tys: Seq<ArgType>,
    inst: bool,
    lookup: CloneLookupV,
)
    requires
        i <= vals.len(),
    ensures
        args_fold(s, vals, i, tys, None, inst, lookup).0 == s,
        args_fold(s, vals, i, tys, None, inst, lookup).1 == vals.skip(i as int).map_values(
            |v: ValueV| CallArgV { value: v, mode: PassingMode::Ref },
        ),
    decreases vals.len() - i,
{
    if i < vals.len() {
        law_indirect_call_passes_by_reference(s, vals, i + 1, tys, inst, lookup);
        let rest = args_fold(s, vals, i + 1, tys, None, inst, lookup).1;
        assert(seq![CallArgV { value: vals[i as int], mode: PassingMode::Ref }] + rest =~= vals.skip(
            i as int,
        ).map_values(|v: ValueV| CallArgV { value: v, mode: PassingMode::Ref }));
    } else {
        assert(vals.skip(i as int).map_values(|v: ValueV| CallArgV { value: v, mode: PassingMode::Ref })
            =~= Seq::<CallArgV>::empty());
    }
}

/// An argument for a consuming parameter whose type is known is copied when its type
/// is copyable and not cloneable, cloned and the clone moved when it is cloneable, and
/// moved otherwise.
pub proof fn law_consuming_parameters(
    s: ArgsState,
    i: int,
    v: ValueV,
    tys: Seq<ArgType>,
    recv: Option<ReceiverKind>,
    modes: Seq<ParameterAccessMode>,
    inst: bool,
    lookup: CloneLookupV,
)
    requires
        0 <= i < tys.len(),
        !(inst && i == 0),
        ({
            let pi = if inst { i - 1 } else { i };
            0 <= pi < modes.len() && modes[pi] == ParameterAccessMode::Consuming
        }),
    ensures
        ({
            let (s1, a) = arg_step(s, i, v, tys, Some((recv, modes)), inst, lookup);
            if tys[i].cloneable {
                (s1, a) == ({
                    let (s2, cv) = clone_step(s, v, tys[i].ty, lookup);
                    (s2, CallArgV { value: cv, mode: PassingMode::Move })
                })
            } else if tys[i].copyable {
                s1 == s && a == CallArgV { value: v, mode: PassingMode::Copy }
            } else {
                s1 == s && a == CallArgV { value: v, mode: PassingMode::Move }
            }
        }),
{
}

// ---------------------------------------------------------------------------
// Emission
// ---------------------------------------------------------------------------

/// A reference to a value, as a call argument passed by reference (see `ref_step`);
/// `base` is the value's type, lowered.
pub fn create_ref(ctx: &mut LoweringContext, value: &Value, base: TyId, is_mutable: bool) -> (r: Value)
    requires
        !(value is Unreachable) ==> emitting(old(ctx)),
        !(value is Unreachable) ==> ref_step(args_state(old(ctx)), value@, base, is_mutable).0.w.temps <= u32::MAX,
    ensures
        value is Unreachable ==> *final(ctx) == *old(ctx) && r@ == ValueV::Unreachable,
        !(value is Unreachable) ==> {
            &&& args_frame(old(ctx), final(ctx))
            &&& args_state(final(ctx)) == ref_step(args_state(old(ctx)), value@, base, is_mutable).0
            &&& r@ == ref_step(args_state(old(ctx)), value@, base, is_mutable).1
        },
{
    match value {
        Value::Place(place) => {
            let ref_ty_id = ctx.args_ref_type(base, is_mutable);
            let ref_local = ctx.args_temp("arg_ref", ref_ty_id);
            let rvalue = if is_mutable {
                Rvalue::RefMut(place.duplicate())
            } else {
                Rvalue::Ref(place.duplicate())
            };
            ctx.args_assign(ref_local, rvalue);
            Value::Place(Place::local(ref_local))
        },
        Value::Immediate(imm) => {
            let temp_local = ctx.args_temp("arg_temp", base);
            ctx.args_assign(temp_local, Rvalue::Use(imm.duplicate()));
            let ref_ty_id = ctx.args_ref_type(base, is_mutable);
            let ref_local = ctx.args_temp("arg_ref", ref_ty_id);
            let rvalue = if is_mutable {
                Rvalue::RefMut(Place::local(temp_local))
            } else {
                Rvalue::Ref(Place::local(temp_local))
            };
            ctx.args_assign(ref_local, rvalue);
            Value::Place(Place::local(ref_local))
        },
        Value::Unreachable => Value::Unreachable,
    }
}

/// A clone of a value of type `ty` (lowered) through the `Cloneable` protocol found
/// by `lookup` (see `clone_step`).
pub fn emit_clone_call(ctx: &mut LoweringContext, value: &Value, ty: TyId, lookup: &CloneableLookup) -> (r: Value)
    requires
        emitting(old(ctx)),
        old(ctx).temp_count() < u32::MAX,
    ensures
        args_frame(old(ctx), final(ctx)),
        args_state(final(ctx)) == clone_step(args_state(old(ctx)), value@, ty, lookup_view(lookup)).0,
        r@ == clone_step(args_state(old(ctx)), value@, ty, lookup_view(lookup)).1,
{
    let cloned_local = ctx.args_temp("cloned", ty);
    match lookup {
        CloneableLookup::Found(symbol) => {
            let protocol = ctx.args_name(symbol);
            let callee = Callee::Witness { protocol, method: owned("clone"), for_type: ty, type_args: Vec::new() };
            let args = vec![CallArg::borrow(value.duplicate())];
            proof {
                assert(args_view(args@) =~= seq![CallArgV { value: value@, mode: PassingMode::Ref }]);
            }
            ctx.args_call(cloned_local, callee, args);
            Value::Place(Place::local(cloned_local))
        },
        CloneableLookup::NotRegistered => {
            ctx.args_error("Cloneable builtin protocol not registered");
            Value::Immediate(Immediate::unit())
        },
        CloneableLookup::SymbolMissing => {
            ctx.args_error("Cloneable protocol symbol not found in registry");
            Value::Immediate(Immediate::unit())
        },
    }
}

/// How argument `i` is passed, with what that emits (see `arg_step`).
fn pass_arg(
    ctx: &mut LoweringContext,
    i: usize,
    value: Value,
    arg_types: &Vec<ArgType>,
    behavior: Option<&CallableParams>,
    is_instance_method: bool,
    cloneable: &CloneableLookup,
) -> (r: CallArg)
    requires
        emitting(old(ctx)),
        arg_step(args_state(old(ctx)), i as int, value@, arg_types@, params_view(behavior), is_instance_method, lookup_view(cloneable)).0.w.temps
            <= u32::MAX,
    ensures
        args_frame(old(ctx), final(ctx)),
        args_state(final(ctx)) == arg_step(
            args_state(old(ctx)),
            i as int,
            value@,
            arg_types@,
            params_view(behavior),
            is_instance_method,
            lookup_view(cloneable),
        ).0,
        r@ == arg_step(
            args_state(old(ctx)),
            i as int,
            value@,
            arg_types@,
            params_view(behavior),
            is_instance_method,
            lookup_view(cloneable),
        ).1,
{
    match behavior {
        None => CallArg::borrow(value),
        Some(beh) => {
            if is_instance_method && i == 0 {
                match beh.receiver {
                    Some(ReceiverKind::Mutating) | Some(ReceiverKind::Initializing) => CallArg::mutating(value),
                    Some(ReceiverKind::Consuming) => {
                        if arg_types.len() > 0 {
                            let mode = if arg_types[0].copyable {
                                PassingMode::Copy
                            } else {
                                PassingMode::Move
                            };
                            CallArg::new(value, mode)
                        } else {
                            CallArg::moving(value)
                        }
                    },
                    _ => CallArg::borrow(value),
                }
            } else {
                let param_idx = if is_instance_method {
                    i - 1
                } else {
                    i
                };
                if param_idx < beh.modes.len() {
                    let mode = beh.modes[param_idx];
                    if i < arg_types.len() {
                        let at = arg_types[i];
                        if mode == ParameterAccessMode::Consuming && at.cloneable {
                            let cloned = emit_clone_call(ctx, &value, at.ty, cloneable);
                            CallArg::new(cloned, PassingMode::Move)
                        } else {
                            match mode {
                                ParameterAccessMode::Borrow => {
                                    let r = create_ref(ctx, &value, at.ty, false);
                                    CallArg::new(r, PassingMode::Copy)
                                },
                                ParameterAccessMode::Mutating => {
                                    let r = create_ref(ctx, &value, at.ty, true);
                                    CallArg::new(r, PassingMode::Copy)
                                },
                                ParameterAccessMode::Consuming => {
                                    let m = if at.copyable {
                                        PassingMode::Copy
                                    } else {
                                        PassingMode::Move
                                    };
                                    CallArg::new(value, m)
                                },
                            }
                        }
                    } else {
                        let m = match mode {
                            ParameterAccessMode::Borrow => PassingMode::Ref,
                            ParameterAccessMode::Mutating => PassingMode::MutRef,
                            ParameterAccessMode::Consuming => PassingMode::Copy,
                        };
                        CallArg::new(value, m)
                    }
                } else {
                    CallArg::borrow(value)
                }
            }
        },
    }
}

/// The arguments of a call as passed to the callee, in order, with the references
/// and clones they need emitted in the current block (see `arg_step`): `arg_types`
/// describes each argument's type (for an instance method, the receiver's first),
/// `behavior` the callee's receiver and parameters (none for an indirect call), and
/// `cloneable` the outcome of looking up the `Cloneable` protocol.
pub fn build_call_args(
    ctx: &mut LoweringContext,
    arg_values: Vec<Value>,
    arg_types: &Vec<ArgType>,
    behavior: Option<&CallableParams>,
    is_instance_method: bool,
    cloneable: &CloneableLookup,
) -> (r: Vec<CallArg>)
    requires
        emitting(old(ctx)),
        args_fold(
            args_state(old(ctx)),
            values_view(arg_values@),
            0,
            arg_types@,
            params_view(behavior),
            is_instance_method,
            lookup_view(cloneable),
        ).0.w.temps <= u32::MAX,
    ensures
        args_frame(old(ctx), final(ctx)),
        args_state(final(ctx)) == args_fold(
            args_state(old(ctx)),
            values_view(arg_values@),
            0,
            arg_types@,
            params_view(behavior),
            is_instance_method,
            lookup_view(cloneable),
        ).0,
        args_view(r@) == args_fold(
            args_state(old(ctx)),
            values_view(arg_values@),
            0,
            arg_types@,
            params_view(behavior),
            is_instance_method,
            lookup_view(cloneable),
        ).1,
{
    let ghost vals = values_view(arg_values@);
    let ghost beh = params_view(behavior);
    let ghost lk = lookup_view(cloneable);
    let ghost whole = args_fold(args_state(ctx), vals, 0, arg_types@, beh, is_instance_method, lk);
    let mut out: Vec<CallArg> = Vec::new();
    let mut i: usize = 0;
    while i < arg_values.len()
        invariant
            i <= arg_values@.len(),
            vals == values_view(arg_values@),
            beh == params_view(behavior),
            lk == lookup_view(cloneable),
            emitting(ctx),
            args_frame(old(ctx), ctx),
            args_fold(args_state(ctx), vals, i as nat, arg_types@, beh, is_instance_method, lk).0 == whole.0,
            args_view(out@) + args_fold(args_state(ctx), vals, i as nat, arg_types@, beh, is_instance_method, lk).1
                == whole.1,
            whole.0.w.temps <= u32::MAX,
        decreases arg_values.len() - i,
    {
        let ghost sc = args_state(ctx);
        let ghost step = arg_step(sc, i as int, vals[i as int], arg_types@, beh, is_instance_method, lk);
        proof {
            lemma_fold_temps(step.0, vals, (i + 1) as nat, arg_types@, beh, is_instance_method, lk);
        }
        let a = pass_arg(ctx, i, arg_values[i].duplicate(), arg_types, behavior, is_instance_method, cloneable);
        let ghost before = args_view(out@);
        out.push(a);
        proof {
            assert(args_view(out@) =~= before.push(step.1));
            let rest = args_fold(step.0, vals, (i + 1) as nat, arg_types@, beh, is_instance_method, lk).1;
            assert(args_view(out@) + rest =~= before + (seq![step.1] + rest));
        }
        i = i + 1;
    }
    proof {
        assert(args_view(out@) + Seq::<CallArgV>::empty() =~= args_view(out@));
    }
    out
}

} // verus!
