//! Closure lowering: the names of a closure's call function and environment
//! struct, its effective parameters, its return type, the values it captures, and
//! the thick callable value made by partial application.
//!
//! A closure in function `f` gets the call function `f.closure.N` (the last segment
//! of `f`'s name extended) and the environment struct `f.closure.N.env`.

use vstd::prelude::*;

use crate::context::LoweringContext;
use crate::error::Span;
use crate::expr::temp_name;
use crate::match_lowering::same_but_block_temps;
use crate::mir::{
    interned, name_pos, names_view, values_view, LocalId, NameId, Place, PlaceV, Rvalue, RvalueV, StmtV, TyId, Value,
    ValueV,
};
use crate::name::{current_function_name, derived_names, has_named_function, suffixed};
use crate::sem::{share_ty, SemLocalId, SemTy, TyRef};
use crate::text::{copy_string, decimal, owned};

verus! {

/// A declared closure parameter.
#[derive(Debug)]
pub struct ClosureParam {
    pub name: String,
    pub ty: TyRef,
    pub local_id: SemLocalId,
}

/// A parameter the closure's call function takes: a declared one, or the implicit `it`.
#[derive(Debug)]
pub struct EffectiveParam {
    pub name: String,
    pub ty: TyRef,
    pub local_id: SemLocalId,
}

/// Interns the names of the `idx`-th closure of the current function: its call
/// function (`.closure.idx` appended to the function's last segment) and its
/// environment struct (that name with `.env` appended).
pub fn generate_closure_names(ctx: &mut LoweringContext, idx: u32) -> (r: (NameId, NameId))
    requires
        has_named_function(old(ctx)),
    ensures
        final(ctx).same_state(old(ctx)),
        final(ctx).mir.same_but_names(&old(ctx).mir),
        ({
            let ns = names_view(old(ctx).mir.names@);
            let f = suffixed(current_function_name(old(ctx)), ".closure."@ + decimal(idx as nat));
            let e = suffixed(f, ".env"@);
            &&& r.0.0 == name_pos(ns, f)
            &&& r.1.0 == name_pos(interned(ns, f), e)
            &&& names_view(final(ctx).mir.names@) == interned(interned(ns, f), e)
        }),
{
    derived_names(ctx, ".closure.", idx)
}

/// The closure's parameters: the declared ones when given, else the implicit `it`
/// when the closure has one, else none.
pub fn build_effective_params(
    params: &Option<Vec<ClosureParam>>,
    implicit_param: &Option<(SemLocalId, TyRef, Span)>,
) -> (r: Vec<EffectiveParam>)
    ensures
        match params {
            Some(ps) => {
                &&& r@.len() == ps@.len()
                &&& forall|i: int| 0 <= i < ps@.len() ==> {
                    &&& (#[trigger] r@[i]).name@ == ps@[i].name@
                    &&& r@[i].ty == ps@[i].ty
                    &&& r@[i].local_id == ps@[i].local_id
                }
            },
            None => match implicit_param {
                Some((l, t, _)) => {
                    &&& r@.len() == 1
                    &&& r@[0].name@ == "it"@
                    &&& r@[0].ty == *t
                    &&& r@[0].local_id == *l
                },
                None => r@.len() == 0,
            },
        },
{
    match params {
        Some(ps) => {
            let mut r: Vec<EffectiveParam> = Vec::new();
            let mut i: usize = 0;
            while i < ps.len()
                invariant
                    i <= ps@.len(),
                    r@.len() == i,
                    forall|k: int| 0 <= k < i ==> {
                        &&& (#[trigger] r@[k]).name@ == ps@[k].name@
                        &&& r@[k].ty == ps@[k].ty
                        &&& r@[k].local_id == ps@[k].local_id
                    },
                decreases ps.len() - i,
            {
                let p = &ps[i];
                r.push(EffectiveParam { name: copy_string(&p.name), ty: share_ty(&p.ty), local_id: p.local_id });
                i = i + 1;
            }
            r
        },
        None => match implicit_param {
            Some((local_id, ty, _span)) => {
                let mut r: Vec<EffectiveParam> = Vec::new();
                r.push(EffectiveParam { name: owned("it"), ty: share_ty(ty), local_id: *local_id });
                r
            },
            None => Vec::new(),
        },
    }
}

/// The return type of a closure's function type (unit when the type is not a
/// function type).
pub fn extract_return_type(ty: &SemTy) -> (r: TyRef)
    ensures
        *r == match ty {
            SemTy::Function { ret, .. } => **ret,
            _ => SemTy::Unit,
        },
{
    match ty {
        SemTy::Function { ret, .. } => share_ty(ret),
        _ => std::rc::Rc::new(SemTy::Unit),
    }
}


/// The values a closure captures, read in the enclosing function: each captured
/// semantic local's MIR local, in order.
pub fn closure_capture_values(ctx: &LoweringContext, captures: &Vec<SemLocalId>) -> (r: Vec<Value>)
    requires
        ctx.inv(),
        forall|i: int| 0 <= i < captures@.len() ==> ctx.local_map_view().contains_key(#[trigger] captures@[i]),
    ensures
        values_view(r@) == Seq::new(
            captures@.len(),
            |i: int| ValueV::Place(PlaceV::Local(ctx.local_map_view()[captures@[i]])),
        ),
{
    let mut values: Vec<Value> = Vec::new();
    let mut i: usize = 0;
    while i < captures.len()
        invariant
            ctx.inv(),
            i <= captures@.len(),
            forall|k: int| 0 <= k < captures@.len() ==> ctx.local_map_view().contains_key(#[trigger] captures@[k]),
            values_view(values@) == Seq::new(
                i as nat,
                |k: int| ValueV::Place(PlaceV::Local(ctx.local_map_view()[captures@[k]])),
            ),
        decreases captures.len() - i,
    {
        let local = ctx.get_local_unwrap(captures[i]);
        let ghost before = values_view(values@);
        values.push(Value::Place(Place::local(local)));
        proof {
            assert(values_view(values@) =~= before.push(ValueV::Place(PlaceV::Local(local))));
            assert(values_view(values@) =~= Seq::new(
                (i + 1) as nat,
                |k: int| ValueV::Place(PlaceV::Local(ctx.local_map_view()[captures@[k]])),
            ));
        }
        i = i + 1;
    }
    values
}

/// Makes a thick callable: creates a temporary of the thick function type `thick_ty`,
/// named from `prefix`, assigns it the partial application of function `func` to
/// `captures` in the current block, and returns it. This is the value of a closure
/// (`closure`), a bound method (`bound_method`) or a static method reference
/// (`static_method_ref`).
pub fn emit_apply_partial(
    ctx: &mut LoweringContext,
    prefix: &str,
    func: NameId,
    thick_ty: TyId,
    captures: Vec<Value>,
) -> (r: Value)
    requires
        old(ctx).inv(),
        old(ctx).cur_function() is Some,
        old(ctx).cur_block() is Some,
        old(ctx).temp_count() < u32::MAX,
    ensures
        final(ctx).inv(),
        r@ == ValueV::Place(PlaceV::Local(LocalId(old(ctx).mir.locals@.len() as usize))),
        ({
            let b = old(ctx).cur_block().unwrap();
            let f = old(ctx).cur_function().unwrap();
            &&& crate::context::local_added(
                &old(ctx).mir,
                &crate::mir::MirContext { blocks: old(ctx).mir.blocks, ..final(ctx).mir },
                f,
                temp_name(prefix@, old(ctx).temp_count() as nat),
                thick_ty,
            )
            &&& final(ctx).mir.blocks@.len() == old(ctx).mir.blocks@.len()
            &&& forall|j: int| 0 <= j < old(ctx).mir.blocks@.len() && j != b.0
                ==> final(ctx).mir.blocks@[j] == old(ctx).mir.blocks@[j]
            &&& final(ctx).mir.stmts_of(b) == old(ctx).mir.stmts_of(b).push(
                StmtV::Assign {
                    dest: PlaceV::Local(LocalId(old(ctx).mir.locals@.len() as usize)),
                    rvalue: RvalueV::ApplyPartial { func, captures: values_view(captures@) },
                },
            )
            &&& final(ctx).mir.term_of(b) == old(ctx).mir.term_of(b)
        }),
        final(ctx).cur_block() == old(ctx).cur_block(),
        final(ctx).temp_count() == old(ctx).temp_count() + 1,
        same_but_block_temps(final(ctx), old(ctx)),
{
    let local = ctx.create_temp(prefix, thick_ty);
    ctx.emit_assign(Place::local(local), Rvalue::ApplyPartial { func, captures });
    Value::Place(Place::local(local))
}

} // verus!
