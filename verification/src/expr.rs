//! The parts of expression lowering that decide how arguments are passed, which
//! locals a call moves, which conversion a primitive cast performs, how a value is
//! referenced, and which method type parameters a call's argument types bind.

use vstd::prelude::*;

use crate::context::{apply_updates, moved_local, status_maps, same_shape, DeinitStatus, LoweringContext};
use crate::mir::{
    args_view, values_view, CallArg, CallArgV, CastKind, LocalId, MirTy, PassingMode, PlaceV, RvalueV, TyId,
    Value, ValueV,
};
use crate::sem::{SymbolId, SymbolKind};
use crate::table::Table;
use crate::text::{decimal, str_equal};

verus! {

/// How a parameter receives its argument.
#[derive(Clone, Copy, PartialEq, Eq, Debug, Structural)]
pub enum ParameterAccessMode {
    /// Read-only access.
    Borrow,
    /// Read-write access.
    Mutating,
    /// Ownership passes to the callee.
    Consuming,
}

/// A primitive type of a cast, by what the cast decision reads of it.
#[derive(Clone, Copy, PartialEq, Eq, Debug, Structural)]
pub struct PrimitiveInfo {
    pub is_int: bool,
    pub is_float: bool,
    pub is_unsigned: bool,
    pub bit_width: u32,
}

/// The passing mode for an argument: a borrowed parameter takes a reference, a
/// mutating one a mutable reference, and a consuming one a copy when the
/// argument's type is copyable, else the value itself (moved).
pub fn access_mode_to_passing_mode(mode: ParameterAccessMode, arg_copyable: bool) -> (r: PassingMode)
    ensures
        r == match mode {
            ParameterAccessMode::Borrow => PassingMode::Ref,
            ParameterAccessMode::Mutating => PassingMode::MutRef,
            ParameterAccessMode::Consuming => if arg_copyable {
                PassingMode::Copy
            } else {
                PassingMode::Move
            },
        },
{
    match mode {
        ParameterAccessMode::Borrow => PassingMode::Ref,
        ParameterAccessMode::Mutating => PassingMode::MutRef,
        ParameterAccessMode::Consuming => {
            if arg_copyable {
                PassingMode::Copy
            } else {
                PassingMode::Move
            }
        },
    }
}

/// The local a value names, when it is a bare local place.
pub fn try_get_local_from_value(value: &Value) -> (r: Option<LocalId>)
    ensures
        r == moved_local(value@),
{
    match value {
        Value::Place(place) => place.as_local(),
        _ => None,
    }
}

/// The status updates a call makes: every argument passed by move that is a bare
/// local becomes moved, in argument order.
pub open spec fn moved_updates(args: Seq<CallArgV>) -> Seq<(LocalId, DeinitStatus)>
    decreases args.len(),
{
    if args.len() == 0 {
        Seq::empty()
    } else {
        let prev = moved_updates(args.drop_last());
        let a = args.last();
        if a.mode == PassingMode::Move && moved_local(a.value) is Some {
            prev.push((moved_local(a.value).unwrap(), DeinitStatus::Moved))
        } else {
            prev
        }
    }
}

/// Marks as moved every local passed by move.
pub fn mark_moved_args(ctx: &mut LoweringContext, call_args: &Vec<CallArg>)
    requires
        old(ctx).inv(),
    ensures
        final(ctx).inv(),
        final(ctx).mir == old(ctx).mir,
        same_shape(old(ctx).scopes(), final(ctx).scopes()),
        status_maps(final(ctx).scopes()) == apply_updates(status_maps(old(ctx).scopes()), moved_updates(args_view(call_args@))),
        final(ctx).cur_function() == old(ctx).cur_function(),
        final(ctx).type_param_view() == old(ctx).type_param_view(),
        final(ctx).cur_block() == old(ctx).cur_block(),
        final(ctx).local_map_view() == old(ctx).local_map_view(),
        final(ctx).loops() == old(ctx).loops(),
        final(ctx).temps() == old(ctx).temps(),
        final(ctx).diags() == old(ctx).diags(),
        final(ctx).temp_count() == old(ctx).temp_count(),
        final(ctx).closure_count() == old(ctx).closure_count(),
        final(ctx).flag_count() == old(ctx).flag_count(),
{
    let ghost av = args_view(call_args@);
    let mut i: usize = 0;
    assert(av.take(0) =~= Seq::<CallArgV>::empty());
    while i < call_args.len()
        invariant
            av == args_view(call_args@),
            i <= call_args@.len(),
            ctx.inv(),
            ctx.mir == old(ctx).mir,
            same_shape(old(ctx).scopes(), ctx.scopes()),
            status_maps(ctx.scopes()) == apply_updates(status_maps(old(ctx).scopes()), moved_updates(av.take(i as int))),
            ctx.cur_function() == old(ctx).cur_function(),
            ctx.type_param_view() == old(ctx).type_param_view(),
            ctx.cur_block() == old(ctx).cur_block(),
            ctx.local_map_view() == old(ctx).local_map_view(),
            ctx.loops() == old(ctx).loops(),
            ctx.temps() == old(ctx).temps(),
            ctx.diags() == old(ctx).diags(),
            ctx.temp_count() == old(ctx).temp_count(),
            ctx.closure_count() == old(ctx).closure_count(),
            ctx.flag_count() == old(ctx).flag_count(),
        decreases call_args.len() - i,
    {
        let arg = &call_args[i];
        proof {
            assert(av.take(i + 1).drop_last() =~= av.take(i as int));
            assert(av.take(i + 1).last() == arg@);
        }
        let ghost prev = ctx.scope_stack@;
        if arg.mode == PassingMode::Move {
            match try_get_local_from_value(&arg.value) {
                Some(local) => {
                    ctx.mark_moved(local);
                    proof {
                        let ups = moved_updates(av.take(i as int));
                        assert(moved_updates(av.take(i + 1)) == ups.push((local, DeinitStatus::Moved)));
                        assert(ups.push((local, DeinitStatus::Moved)).drop_last() =~= ups);
                        assert forall|j: int| 0 <= j < old(ctx).scopes().len() implies {
                            &&& #[trigger] old(ctx).scopes()[j].locals == ctx.scopes()[j].locals
                            &&& old(ctx).scopes()[j].local_types == ctx.scopes()[j].local_types
                            &&& old(ctx).scopes()[j].deinit_status.keys() == ctx.scopes()[j].deinit_status.keys()
                            &&& old(ctx).scopes()[j].wf() == ctx.scopes()[j].wf()
                        } by {
                            assert(prev[j].locals == ctx.scopes()[j].locals);
                        }
                    }
                },
                None => {},
            }
        }
        i = i + 1;
    }
    assert(av.take(i as int) =~= av);
}

/// The arguments of an indirect call (a closure or function value), passed by
/// value: by copy when the argument's type is copyable, by move otherwise, and by
/// copy when its type is not known (`copyable[i]` is known for `i` below its length).
pub fn build_indirect_call_args(arg_values: Vec<Value>, copyable: &Vec<bool>) -> (r: Vec<CallArg>)
    ensures
        args_view(r@) == indirect_args(values_view(arg_values@), copyable@),
{
    let ghost vs = values_view(arg_values@);
    let ghost n = vs.len();
    let mut rest = arg_values;
    let mut out: Vec<CallArg> = Vec::new();
    while rest.len() > 0
        invariant
            vs.len() == n,
            out@.len() + rest@.len() == n,
            values_view(rest@) == vs.skip(out@.len() as int),
            args_view(out@) == indirect_args(vs, copyable@).take(out@.len() as int),
        decreases rest.len(),
    {
        let k = out.len();
        let ghost r0 = rest@;
        let ghost o0 = out@;
        let v = rest.remove(0);
        let ghost vv = v@;
        proof {
            assert(values_view(r0)[0] == vv);
            assert(values_view(rest@) =~= values_view(r0).drop_first());
            assert(vs.skip(k as int)[0] == vs[k as int]);
            assert(vs.skip(k as int).drop_first() =~= vs.skip(k + 1));
        }
        let mode = if k < copyable.len() {
            if copyable[k] {
                PassingMode::Copy
            } else {
                PassingMode::Move
            }
        } else {
            PassingMode::Copy
        };
        out.push(CallArg::new(v, mode));
        proof {
            assert forall|i: int| 0 <= i < k + 1 implies #[trigger] args_view(out@)[i] == indirect_args(vs, copyable@).take(
                k + 1,
            )[i] by {
                if i < k {
                    assert(out@[i] == o0[i]);
                    assert(args_view(o0)[i] == indirect_args(vs, copyable@).take(k as int)[i]);
                }
            }
            assert(args_view(out@) =~= indirect_args(vs, copyable@).take(k + 1));
        }
    }
    assert(indirect_args(vs, copyable@).take(n as int) =~= indirect_args(vs, copyable@));
    out
}

/// The arguments of an indirect call (see `build_indirect_call_args`).
pub open spec fn indirect_args(vs: Seq<ValueV>, copyable: Seq<bool>) -> Seq<CallArgV> {
    Seq::new(
        vs.len(),
        |i: int|
            CallArgV {
                value: vs[i],
                mode: if i < copyable.len() && !copyable[i] {
                    PassingMode::Move
                } else {
                    PassingMode::Copy
                },
            },
    )
}

/// The conversion of a cast between primitive types: between floats a widening or
/// truncation by width; between an integer and a float the matching conversion;
/// between integers a widening (zero-extending from an unsigned source) or a
/// truncation by width; anything else a truncation.
pub fn determine_cast_kind(from: PrimitiveInfo, to: PrimitiveInfo) -> (r: CastKind)
    ensures
        r == (if from.is_float && to.is_float {
            if from.bit_width < to.bit_width { CastKind::FloatWiden } else { CastKind::FloatTruncate }
        } else if from.is_int && to.is_float {
            CastKind::IntToFloat
        } else if from.is_float && to.is_int {
            CastKind::FloatToInt
        } else if from.is_int && to.is_int {
            if from.bit_width < to.bit_width {
                if from.is_unsigned { CastKind::IntUnsignedWiden } else { CastKind::IntWiden }
            } else {
                CastKind::IntTruncate
            }
        } else {
            CastKind::IntTruncate
        }),
{
    if from.is_float && to.is_float {
        if from.bit_width < to.bit_width {
            return CastKind::FloatWiden;
        } else {
            return CastKind::FloatTruncate;
        }
    }
    if from.is_int && to.is_float {
        return CastKind::IntToFloat;
    }
    if from.is_float && to.is_int {
        return CastKind::FloatToInt;
    }
    if from.is_int && to.is_int {
        if from.bit_width < to.bit_width {
            if from.is_unsigned {
                return CastKind::IntUnsignedWiden;
            }
            return CastKind::IntWiden;
        } else {
            return CastKind::IntTruncate;
        }
    }
    CastKind::IntTruncate
}


/// The reference type to `base`: mutable or shared.
pub open spec fn ref_ty(base: TyId, is_mutable: bool) -> MirTy {
    if is_mutable {
        MirTy::RefMut(base)
    } else {
        MirTy::Ref(base)
    }
}

/// Taking a (mutable or shared) reference to a place.
pub open spec fn ref_rvalue(p: PlaceV, is_mutable: bool) -> RvalueV {
    if is_mutable {
        RvalueV::RefMut(p)
    } else {
        RvalueV::Ref(p)
    }
}

/// The temporary name with the given prefix and counter value.
pub open spec fn temp_name(prefix: Seq<char>, n: nat) -> Seq<char> {
    prefix + "_"@ + decimal(n)
}



/// The kind of a nominal type.
#[derive(Clone, Copy, PartialEq, Eq, Debug, Structural)]
pub enum NominalKind {
    Struct,
    Enum,
    Protocol,
    TypeAlias,
}

/// A semantic type as type-parameter inference reads it: type parameters, tuples,
/// function types, pointers and nominal types with their substitutions are looked
/// into; any other type is a leaf that the caller identifies by a number.
#[derive(Debug)]
pub enum InferTy {
    TypeParameter(SymbolId),
    Tuple(Vec<InferTy>),
    Function { params: Vec<InferTy>, ret: Box<InferTy> },
    Pointer(Box<InferTy>),
    Nominal { kind: NominalKind, symbol: SymbolId, substitutions: Vec<(SymbolId, InferTy)> },
    Leaf(u64),
}

/// The view of an inference type, with sequences for its parts.
pub enum InferTyV {
    TypeParameter(SymbolId),
    Tuple(Seq<InferTyV>),
    Function { params: Seq<InferTyV>, ret: Box<InferTyV> },
    Pointer(Box<InferTyV>),
    Nominal { kind: NominalKind, symbol: SymbolId, substitutions: Seq<(SymbolId, InferTyV)> },
    Leaf(u64),
}

/// The view of an inference type.
pub open spec fn ty_view(t: InferTy) -> InferTyV
    decreases t,
{
    match t {
        InferTy::TypeParameter(id) => InferTyV::TypeParameter(id),
        InferTy::Tuple(ts) => InferTyV::Tuple(
            Seq::new(ts@.len(), |i: int| if 0 <= i < ts@.len() { ty_view(ts@[i]) } else { InferTyV::Leaf(0) }),
        ),
        InferTy::Function { params, ret } => InferTyV::Function {
            params: Seq::new(
                params@.len(),
                |i: int| if 0 <= i < params@.len() { ty_view(params@[i]) } else { InferTyV::Leaf(0) },
            ),
            ret: Box::new(ty_view(*ret)),
        },
        InferTy::Pointer(inner) => InferTyV::Pointer(Box::new(ty_view(*inner))),
        InferTy::Nominal { kind, symbol, substitutions } => InferTyV::Nominal {
            kind,
            symbol,
            substitutions: Seq::new(
                substitutions@.len(),
                |i: int|
                    if 0 <= i < substitutions@.len() {
                        (substitutions@[i].0, ty_view(substitutions@[i].1))
                    } else {
                        (SymbolId(0), InferTyV::Leaf(0))
                    },
            ),
        },
        InferTy::Leaf(n) => InferTyV::Leaf(n),
    }
}


/// The number of parts of a type that inference walks pairwise.
pub open spec fn parts_len(t: InferTyV) -> nat {
    match t {
        InferTyV::Tuple(ts) => ts.len(),
        InferTyV::Function { params, .. } => params.len(),
        InferTyV::Nominal { substitutions, .. } => substitutions.len(),
        _ => 0,
    }
}

/// The first substitution for `key` among `es` from position `j` on.
pub open spec fn subst_for(es: Seq<(SymbolId, InferTyV)>, key: SymbolId, j: nat) -> Option<InferTyV>
    decreases es.len() - j,
{
    if j >= es.len() {
        None
    } else if es[j as int].0 == key {
        Some(es[j as int].1)
    } else {
        subst_for(es, key, j + 1)
    }
}

/// The substitutions after matching parameter type `p` against argument type `a`: a
/// method type parameter not yet bound is bound to the argument type; tuples match
/// element by element (as far as both go), function types parameter by parameter
/// and then their return types (when they have as many parameters), pointers by
/// their pointee, and nominal types of the same kind and symbol by each of the
/// parameter's substitutions that the argument also has; anything else binds nothing.
pub open spec fn collect_subs(
    p: InferTyV,
    a: InferTyV,
    ids: Set<SymbolId>,
    subs: Map<SymbolId, InferTyV>,
) -> Map<SymbolId, InferTyV>
    decreases p, parts_len(p) + 1,
{
    match p {
        InferTyV::TypeParameter(id) => if ids.contains(id) && !subs.contains_key(id) {
            subs.insert(id, a)
        } else {
            subs
        },
        InferTyV::Tuple(_) => parts_collect(p, a, 0, ids, subs),
        InferTyV::Function { params, ret } => match a {
            InferTyV::Function { params: aps, ret: ar } => if params.len() == aps.len() {
                collect_subs(*ret, *ar, ids, parts_collect(p, a, 0, ids, subs))
            } else {
                subs
            },
            _ => subs,
        },
        InferTyV::Pointer(pi) => match a {
            InferTyV::Pointer(ai) => collect_subs(*pi, *ai, ids, subs),
            _ => subs,
        },
        InferTyV::Nominal { kind, symbol, .. } => match a {
            InferTyV::Nominal { kind: ak, symbol: asym, .. } => if kind == ak && symbol == asym {
                parts_collect(p, a, 0, ids, subs)
            } else {
                subs
            },
            _ => subs,
        },
        InferTyV::Leaf(_) => subs,
    }
}

/// The substitutions after matching the parts of `p` and `a` from part `i` on.
pub open spec fn parts_collect(
    p: InferTyV,
    a: InferTyV,
    i: nat,
    ids: Set<SymbolId>,
    subs: Map<SymbolId, InferTyV>,
) -> Map<SymbolId, InferTyV>
    decreases p, parts_len(p) - i,
{
    match p {
        InferTyV::Tuple(ps) => match a {
            InferTyV::Tuple(aps) => if i < ps.len() && i < aps.len() {
                parts_collect(p, a, i + 1, ids, collect_subs(ps[i as int], aps[i as int], ids, subs))
            } else {
                subs
            },
            _ => subs,
        },
        InferTyV::Function { params: ps, .. } => match a {
            InferTyV::Function { params: aps, .. } => if i < ps.len() && i < aps.len() {
                parts_collect(p, a, i + 1, ids, collect_subs(ps[i as int], aps[i as int], ids, subs))
            } else {
                subs
            },
            _ => subs,
        },
        InferTyV::Nominal { substitutions: ps, .. } => match a {
            InferTyV::Nominal { substitutions: aps, .. } => if i < ps.len() {
                let s1 = match subst_for(aps, ps[i as int].0, 0) {
                    Some(x) => collect_subs(ps[i as int].1, x, ids, subs),
                    None => subs,
                };
                parts_collect(p, a, i + 1, ids, s1)
            } else {
                subs
            },
            _ => subs,
        },
        _ => subs,
    }
}

/// The substitutions of a table, by view.
pub open spec fn subs_view(t: Table<SymbolId, InferTy>) -> Map<SymbolId, InferTyV> {
    Map::new(|k: SymbolId| t.map().contains_key(k), |k: SymbolId| ty_view(t.map()[k]))
}

impl InferTy {
    /// A copy of this type.
    pub fn duplicate(&self) -> (r: InferTy)
        ensures
            ty_view(r) == ty_view(*self),
        decreases self,
    {
        match self {
            InferTy::TypeParameter(id) => InferTy::TypeParameter(*id),
            InferTy::Tuple(ts) => {
                let r = InferTy::Tuple(duplicate_all(ts));
                proof {
                    if let InferTyV::Tuple(rs) = ty_view(r) {
                        if let InferTyV::Tuple(ss) = ty_view(*self) {
                            assert(rs =~= ss);
                        }
                    }
                }
                r
            },
            InferTy::Function { params, ret } => {
                let ps = duplicate_all(params);
                let d = ret.duplicate();
                let r = InferTy::Function { params: ps, ret: Box::new(d) };
                proof {
                    if let InferTyV::Function { params: rs, .. } = ty_view(r) {
                        if let InferTyV::Function { params: ss, .. } = ty_view(*self) {
                            assert(rs =~= ss);
                        }
                    }
                }
                r
            },
            InferTy::Pointer(inner) => InferTy::Pointer(Box::new(inner.duplicate())),
            InferTy::Nominal { kind, symbol, substitutions } => {
                let es = duplicate_entries(substitutions);
                let r = InferTy::Nominal { kind: *kind, symbol: *symbol, substitutions: es };
                proof {
                    if let InferTyV::Nominal { substitutions: rs, .. } = ty_view(r) {
                        if let InferTyV::Nominal { substitutions: ss, .. } = ty_view(*self) {
                            assert(rs =~= ss);
                        }
                    }
                }
                r
            },
            InferTy::Leaf(n) => InferTy::Leaf(*n),
        }
    }
}

/// Copies of the types, in order.
fn duplicate_all(ts: &Vec<InferTy>) -> (r: Vec<InferTy>)
    ensures
        r@.len() == ts@.len(),
        forall|k: int| 0 <= k < ts@.len() ==> ty_view(#[trigger] r@[k]) == ty_view(ts@[k]),
    decreases ts,
{
    let mut out: Vec<InferTy> = Vec::new();
    let mut i: usize = 0;
    while i < ts.len()
        invariant
            i <= ts@.len(),
            out@.len() == i,
            forall|k: int| 0 <= k < i ==> ty_view(#[trigger] out@[k]) == ty_view(ts@[k]),
        decreases ts.len() - i,
    {
        let d = ts[i].duplicate();
        out.push(d);
        i = i + 1;
    }
    out
}

/// Copies of the substitutions, in order.
fn duplicate_entries(es: &Vec<(SymbolId, InferTy)>) -> (r: Vec<(SymbolId, InferTy)>)
    ensures
        r@.len() == es@.len(),
        forall|k: int| 0 <= k < es@.len() ==> #[trigger] r@[k].0 == es@[k].0 && ty_view(r@[k].1) == ty_view(es@[k].1),
    decreases es,
{
    let mut out: Vec<(SymbolId, InferTy)> = Vec::new();
    let mut i: usize = 0;
    while i < es.len()
        invariant
            i <= es@.len(),
            out@.len() == i,
            forall|k: int| 0 <= k < i ==> #[trigger] out@[k].0 == es@[k].0 && ty_view(out@[k].1) == ty_view(es@[k].1),
        decreases es.len() - i,
    {
        let d = es[i].1.duplicate();
        out.push((es[i].0, d));
        i = i + 1;
    }
    out
}


/// The views of substitution entries.
pub open spec fn entries_view(es: Seq<(SymbolId, InferTy)>) -> Seq<(SymbolId, InferTyV)> {
    Seq::new(
        es.len(),
        |i: int|
            if 0 <= i < es.len() {
                (es[i].0, ty_view(es[i].1))
            } else {
                (SymbolId(0), InferTyV::Leaf(0))
            },
    )
}

/// Whether the identifier is among `ids`.
fn contains_id(ids: &Vec<SymbolId>, id: SymbolId) -> (r: bool)
    ensures
        r == ids@.contains(id),
{
    let mut i: usize = 0;
    while i < ids.len()
        invariant
            i <= ids@.len(),
            forall|k: int| 0 <= k < i ==> ids@[k] != id,
        decreases ids.len() - i,
    {
        if ids[i].0 == id.0 {
            assert(ids@[i as int] == id);
            return true;
        }
        i = i + 1;
    }
    false
}

/// The first substitution for `key` among the entries.
fn find_subst(es: &Vec<(SymbolId, InferTy)>, key: SymbolId) -> (r: Option<&InferTy>)
    ensures
        match r {
            Some(x) => subst_for(entries_view(es@), key, 0) == Some(ty_view(*x)),
            None => subst_for(entries_view(es@), key, 0) is None,
        },
{
    let ghost ev = entries_view(es@);
    let mut j: usize = 0;
    while j < es.len()
        invariant
            j <= es@.len(),
            ev == entries_view(es@),
            subst_for(ev, key, j as nat) == subst_for(ev, key, 0),
        decreases es.len() - j,
    {
        if es[j].0.0 == key.0 {
            assert(ev[j as int].0 == key);
            return Some(&es[j].1);
        }
        j = j + 1;
    }
    None
}

/// Records the method type parameters bound by matching a parameter type against an
/// argument type (see `collect_subs`): a binding already present is kept.
pub fn collect_type_param_substitutions(
    param_ty: &InferTy,
    arg_ty: &InferTy,
    method_param_ids: &Vec<SymbolId>,
    subs: &mut Table<SymbolId, InferTy>,
)
    requires
        old(subs).wf(),
    ensures
        final(subs).wf(),
        subs_view(*final(subs)) == collect_subs(
            ty_view(*param_ty),
            ty_view(*arg_ty),
            method_param_ids@.to_set(),
            subs_view(*old(subs)),
        ),
    decreases param_ty, 2nat,
{
    match param_ty {
        InferTy::TypeParameter(id) => bind_type_param(*id, arg_ty, method_param_ids, subs),
        InferTy::Tuple(_) => collect_parts(param_ty, arg_ty, method_param_ids, subs),
        InferTy::Function { ret, .. } => {
            let same_arity = match arg_ty {
                InferTy::Function { params: aps, .. } => match param_ty {
                    InferTy::Function { params, .. } => params.len() == aps.len(),
                    _ => false,
                },
                _ => false,
            };
            if same_arity {
                collect_parts(param_ty, arg_ty, method_param_ids, subs);
                match arg_ty {
                    InferTy::Function { ret: ar, .. } => collect_type_param_substitutions(ret, ar, method_param_ids, subs),
                    _ => {},
                }
            } else {
                proof {
                    assert(subs_view(*subs) =~= subs_view(*old(subs)));
                }
            }
        },
        InferTy::Pointer(pi) => {
            match arg_ty {
                InferTy::Pointer(ai) => collect_type_param_substitutions(pi, ai, method_param_ids, subs),
                _ => {
                    proof {
                        assert(subs_view(*subs) =~= subs_view(*old(subs)));
                    }
                },
            }
        },
        InferTy::Nominal { kind, symbol, .. } => {
            let same = match arg_ty {
                InferTy::Nominal { kind: ak, symbol: asym, .. } => *kind == *ak && symbol.0 == asym.0,
                _ => false,
            };
            if same {
                collect_parts(param_ty, arg_ty, method_param_ids, subs);
            } else {
                proof {
                    assert(subs_view(*subs) =~= subs_view(*old(subs)));
                }
            }
        },
        InferTy::Leaf(_) => {
            proof {
                assert(subs_view(*subs) =~= subs_view(*old(subs)));
            }
        },
    }
}

/// Binds method type parameter `id` to the argument type unless it is bound already.
fn bind_type_param(id: SymbolId, arg_ty: &InferTy, method_param_ids: &Vec<SymbolId>, subs: &mut Table<SymbolId, InferTy>)
    requires
        old(subs).wf(),
    ensures
        final(subs).wf(),
        subs_view(*final(subs)) == collect_subs(
            InferTyV::TypeParameter(id),
            ty_view(*arg_ty),
            method_param_ids@.to_set(),
            subs_view(*old(subs)),
        ),
{
    if contains_id(method_param_ids, id) && !subs.contains(id) {
        let v = arg_ty.duplicate();
        let ghost vv = ty_view(v);
        subs.insert(id, v);
        proof {
            assert(subs_view(*subs) =~= subs_view(*old(subs)).insert(id, vv));
        }
    } else {
        proof {
            assert(subs_view(*subs) =~= subs_view(*old(subs)));
        }
    }
}

/// Matches the parts of a tuple, function or nominal parameter type against those of
/// the argument type (see `parts_collect`).
fn collect_parts(
    param_ty: &InferTy,
    arg_ty: &InferTy,
    method_param_ids: &Vec<SymbolId>,
    subs: &mut Table<SymbolId, InferTy>,
)
    requires
        old(subs).wf(),
    ensures
        final(subs).wf(),
        subs_view(*final(subs)) == parts_collect(
            ty_view(*param_ty),
            ty_view(*arg_ty),
            0,
            method_param_ids@.to_set(),
            subs_view(*old(subs)),
        ),
    decreases param_ty, 1nat,
{
    let ghost ids = method_param_ids@.to_set();
    let ghost pv = ty_view(*param_ty);
    let ghost av = ty_view(*arg_ty);
    match param_ty {
        InferTy::Tuple(ps) => {
            match arg_ty {
                InferTy::Tuple(aps) => {
                    let mut i: usize = 0;
                    while i < ps.len() && i < aps.len()
                        invariant
                            param_ty is Tuple && param_ty->Tuple_0 == *ps,
                            arg_ty is Tuple && arg_ty->Tuple_0 == *aps,
                            pv == ty_view(*param_ty),
                            av == ty_view(*arg_ty),
                            ids == method_param_ids@.to_set(),
                            subs.wf(),
                            parts_collect(pv, av, i as nat, ids, subs_view(*subs))
                                == parts_collect(pv, av, 0, ids, subs_view(*old(subs))),
                        decreases ps.len() - i,
                    {
                        collect_type_param_substitutions(&ps[i], &aps[i], method_param_ids, subs);
                        i = i + 1;
                    }
                },
                _ => {
                    proof {
                        assert(subs_view(*subs) =~= subs_view(*old(subs)));
                    }
                },
            }
        },
        InferTy::Function { params, .. } => {
            match arg_ty {
                InferTy::Function { params: aps, .. } => {
                    let mut i: usize = 0;
                    while i < params.len() && i < aps.len()
                        invariant
                            param_ty is Function && param_ty->params == *params,
                            arg_ty is Function && arg_ty->params == *aps,
                            pv == ty_view(*param_ty),
                            av == ty_view(*arg_ty),
                            ids == method_param_ids@.to_set(),
                            subs.wf(),
                            parts_collect(pv, av, i as nat, ids, subs_view(*subs))
                                == parts_collect(pv, av, 0, ids, subs_view(*old(subs))),
                        decreases params.len() - i,
                    {
                        collect_type_param_substitutions(&params[i], &aps[i], method_param_ids, subs);
                        i = i + 1;
                    }
                },
                _ => {
                    proof {
                        assert(subs_view(*subs) =~= subs_view(*old(subs)));
                    }
                },
            }
        },
        InferTy::Nominal { substitutions, .. } => {
            match arg_ty {
                InferTy::Nominal { substitutions: aes, .. } => {
                    proof {
                        if let InferTyV::Nominal { substitutions: avs, .. } = av {
                            assert(avs =~= entries_view(aes@));
                        }
                    }
                    let mut i: usize = 0;
                    while i < substitutions.len()
                        invariant
                            param_ty is Nominal && param_ty->substitutions == *substitutions,
                            arg_ty is Nominal && arg_ty->substitutions == *aes,
                            pv == ty_view(*param_ty),
                            av == ty_view(*arg_ty),
                            av is Nominal && av->substitutions == entries_view(aes@),
                            ids == method_param_ids@.to_set(),
                            subs.wf(),
                            parts_collect(pv, av, i as nat, ids, subs_view(*subs))
                                == parts_collect(pv, av, 0, ids, subs_view(*old(subs))),
                        decreases substitutions.len() - i,
                    {
                        let found = find_subst(aes, substitutions[i].0);
                        match found {
                            Some(a_sub) => {
                                collect_type_param_substitutions(&substitutions[i].1, a_sub, method_param_ids, subs);
                            },
                            None => {},
                        }
                        i = i + 1;
                    }
                },
                _ => {
                    proof {
                        assert(subs_view(*subs) =~= subs_view(*old(subs)));
                    }
                },
            }
        },
        _ => {
            proof {
                assert(subs_view(*subs) =~= subs_view(*old(subs)));
            }
        },
    }
}


/// `new` extends `old`: every binding of `old` is kept, and every new key is a
/// method type parameter.
pub open spec fn extends_bindings(old: Map<SymbolId, InferTyV>, new: Map<SymbolId, InferTyV>, ids: Set<SymbolId>) -> bool {
    &&& forall|k: SymbolId| #[trigger] old.contains_key(k) ==> new.contains_key(k) && new[k] == old[k]
    &&& forall|k: SymbolId| #[trigger] new.contains_key(k) ==> old.contains_key(k) || ids.contains(k)
}

proof fn lemma_collect_extends(p: InferTyV, a: InferTyV, ids: Set<SymbolId>, subs: Map<SymbolId, InferTyV>)
    ensures
        extends_bindings(subs, collect_subs(p, a, ids, subs), ids),
    decreases p, parts_len(p) + 1,
{
    match p {
        InferTyV::Tuple(_) => lemma_parts_extends(p, a, 0, ids, subs),
        InferTyV::Function { params, ret } => match a {
            InferTyV::Function { params: aps, ret: ar } => if params.len() == aps.len() {
                lemma_parts_extends(p, a, 0, ids, subs);
                let s1 = parts_collect(p, a, 0, ids, subs);
                lemma_collect_extends(*ret, *ar, ids, s1);
            },
            _ => {},
        },
        InferTyV::Pointer(pi) => match a {
            InferTyV::Pointer(ai) => lemma_collect_extends(*pi, *ai, ids, subs),
            _ => {},
        },
        InferTyV::Nominal { kind, symbol, .. } => match a {
            InferTyV::Nominal { kind: ak, symbol: asym, .. } => if kind == ak && symbol == asym {
                lemma_parts_extends(p, a, 0, ids, subs);
            },
            _ => {},
        },
        _ => {},
    }
}

proof fn lemma_parts_extends(p: InferTyV, a: InferTyV, i: nat, ids: Set<SymbolId>, subs: Map<SymbolId, InferTyV>)
    ensures
        extends_bindings(subs, parts_collect(p, a, i, ids, subs), ids),
    decreases p, parts_len(p) - i,
{
    match p {
        InferTyV::Tuple(ps) => match a {
            InferTyV::Tuple(aps) => if i < ps.len() && i < aps.len() {
                lemma_collect_extends(ps[i as int], aps[i as int], ids, subs);
                let s1 = collect_subs(ps[i as int], aps[i as int], ids, subs);
                lemma_parts_extends(p, a, i + 1, ids, s1);
            },
            _ => {},
        },
        InferTyV::Function { params: ps, .. } => match a {
            InferTyV::Function { params: aps, .. } => if i < ps.len() && i < aps.len() {
                lemma_collect_extends(ps[i as int], aps[i as int], ids, subs);
                let s1 = collect_subs(ps[i as int], aps[i as int], ids, subs);
                lemma_parts_extends(p, a, i + 1, ids, s1);
            },
            _ => {},
        },
        InferTyV::Nominal { substitutions: ps, .. } => match a {
            InferTyV::Nominal { substitutions: aps, .. } => if i < ps.len() {
                let s1 = match subst_for(aps, ps[i as int].0, 0) {
                    Some(x) => {
                        lemma_collect_extends(ps[i as int].1, x, ids, subs);
                        collect_subs(ps[i as int].1, x, ids, subs)
                    },
                    None => subs,
                };
                lemma_parts_extends(p, a, i + 1, ids, s1);
            },
            _ => {},
        },
        _ => {},
    }
}

/// Type-parameter inference only adds bindings: a type parameter bound before keeps
/// its binding (the first match wins), and every new binding is of a method type
/// parameter.
pub proof fn law_inference_keeps_bindings(
    param_ty: InferTyV,
    arg_ty: InferTyV,
    method_params: Set<SymbolId>,
    subs: Map<SymbolId, InferTyV>,
)
    ensures
        extends_bindings(subs, collect_subs(param_ty, arg_ty, method_params, subs), method_params),
{
    lemma_collect_extends(param_ty, arg_ty, method_params, subs);
}


/// A field that a struct or enum declares, as the semantic model lists it: for a
/// struct its stored and computed fields, for an enum its field members.
#[derive(Debug)]
pub struct FieldEntry {
    pub name: String,
    pub field_id: SymbolId,
    pub is_computed: bool,
}

/// `i` is the position of the first field named `name`.
pub open spec fn first_field_at(fields: Seq<FieldEntry>, name: Seq<char>, i: int) -> bool {
    &&& 0 <= i < fields.len()
    &&& fields[i].name@ == name
    &&& forall|j: int| 0 <= j < i ==> fields[j].name@ != name
}

/// The symbol of the field named `field_name` among those a type declares, and
/// whether it is computed; the first such field wins, and `None` means that the type
/// declares no field of that name.
pub fn find_field_info(fields: &Vec<FieldEntry>, field_name: &str) -> (r: Option<(SymbolId, bool)>)
    ensures
        r matches Some((id, computed)) ==> exists|i: int|
            #![trigger fields@[i]]
            first_field_at(fields@, field_name@, i) && id == fields@[i].field_id && computed
                == fields@[i].is_computed,
        r is None <==> forall|i: int| 0 <= i < fields@.len() ==> fields@[i].name@ != field_name@,
{
    let mut i: usize = 0;
    while i < fields.len()
        invariant
            i <= fields@.len(),
            forall|j: int| 0 <= j < i ==> fields@[j].name@ != field_name@,
        decreases fields.len() - i,
    {
        if str_equal(fields[i].name.as_str(), field_name) {
            proof {
                assert(first_field_at(fields@, field_name@, i as int));
            }
            return Some((fields[i].field_id, fields[i].is_computed));
        }
        i = i + 1;
    }
    None
}

/// A member of a protocol: its kind and name.
#[derive(Debug)]
pub struct MemberEntry {
    pub kind: SymbolKind,
    pub name: String,
}

/// A conformance that an extension adds: whether it is a protocol type, and the
/// members of that protocol.
#[derive(Debug)]
pub struct ConformanceEntry {
    pub is_protocol: bool,
    pub members: Vec<MemberEntry>,
}

/// The conformance is a protocol that declares a function named `name`.
pub open spec fn declares_method(c: ConformanceEntry, name: Seq<char>) -> bool {
    &&& c.is_protocol
    &&& exists|k: int|
        0 <= k < c.members@.len() && c.members@[k].kind == SymbolKind::Function && #[trigger] c.members@[k].name@
            == name
}

/// No conformance in `cs` is a protocol that declares a function named `name`.
pub open spec fn none_declares(cs: Seq<ConformanceEntry>, name: Seq<char>) -> bool {
    forall|j: int| 0 <= j < cs.len() ==> !declares_method(#[trigger] cs[j], name)
}

/// The protocol whose method an extension method implements: the position, among the
/// conformances the extension adds (`None` when it adds none), of the first protocol
/// that declares a function of that name; `None` when no protocol does.
pub fn find_protocol_for_extension_method(conformances: Option<&Vec<ConformanceEntry>>, method_name: &str) -> (r:
    Option<usize>)
    ensures
        r matches Some(i) ==> conformances is Some && i < conformances.unwrap()@.len() && declares_method(
            conformances.unwrap()@[i as int],
            method_name@,
        ) && none_declares(conformances.unwrap()@.take(i as int), method_name@),
        r is None <==> (conformances is None || none_declares(conformances.unwrap()@, method_name@)),
{
    let cs = match conformances {
        Some(cs) => cs,
        None => return None,
    };
    let mut i: usize = 0;
    while i < cs.len()
        invariant
            conformances == Some(cs),
            i <= cs@.len(),
            forall|j: int| 0 <= j < i ==> !declares_method(#[trigger] cs@[j], method_name@),
        decreases cs.len() - i,
    {
        let c = &cs[i];
        if c.is_protocol {
            let mut k: usize = 0;
            while k < c.members.len()
                invariant
                    conformances == Some(cs),
                    i < cs@.len(),
                    forall|j: int| 0 <= j < i ==> !declares_method(#[trigger] cs@[j], method_name@),
                    k <= c.members@.len(),
                    c == cs@[i as int],
                    c.is_protocol,
                    forall|m: int|
                        0 <= m < k ==> !(c.members@[m].kind == SymbolKind::Function && #[trigger] c.members@[m].name@
                            == method_name@),
                decreases c.members.len() - k,
            {
                let member = &c.members[k];
                if member.kind == SymbolKind::Function && str_equal(member.name.as_str(), method_name) {
                    proof {
                        assert(c.members@[k as int].name@ == method_name@);
                        assert(declares_method(cs@[i as int], method_name@));
                    }
                    return Some(i);
                }
                k = k + 1;
            }
        }
        i = i + 1;
    }
    None
}

} // verus!
