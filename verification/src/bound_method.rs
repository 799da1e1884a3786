//! Bound method lowering: the names of a bound method's call function and of the
//! environment struct that holds its receiver, and the value of a reference to a
//! static method.
//!
//! A bound method taken in function `f` gets the call function `f.bound.N` (the last
//! segment of `f`'s name extended) and the environment struct `f.bound.N.env`.

use vstd::prelude::*;

use crate::context::LoweringContext;
use crate::closure::emit_apply_partial;
use crate::expr::temp_name;
use crate::match_lowering::same_but_block_temps;
use crate::mir::{interned, name_pos, names_view, values_view, LocalId, NameId, PlaceV, RvalueV, StmtV, TyId, Value, ValueV};
use crate::name::{current_function_name, derived_names, has_named_function, suffixed};
use crate::text::decimal;

verus! {

/// Interns the names of the `idx`-th bound method of the current function: its call
/// function (`.bound.idx` appended to the function's last segment) and its
/// environment struct (that name with `.env` appended).
pub fn generate_bound_method_names(ctx: &mut LoweringContext, idx: u32) -> (r: (NameId, NameId))
    requires
        has_named_function(old(ctx)),
    ensures
        final(ctx).same_state(old(ctx)),
        final(ctx).mir.same_but_names(&old(ctx).mir),
        ({
            let ns = names_view(old(ctx).mir.names@);
            let f = suffixed(current_function_name(old(ctx)), ".bound."@ + decimal(idx as nat));
            let e = suffixed(f, ".env"@);
            &&& r.0.0 == name_pos(ns, f)
            &&& r.1.0 == name_pos(interned(ns, f), e)
            &&& names_view(final(ctx).mir.names@) == interned(interned(ns, f), e)
        }),
{
    derived_names(ctx, ".bound.", idx)
}


/// The value of a reference to a static method: a thick callable of type
/// `thick_ty` (a `static_method_ref` temporary) that applies `func_name` to nothing.
pub fn create_static_method_reference(ctx: &mut LoweringContext, func_name: NameId, thick_ty: TyId) -> (r: Value)
    requires
        old(ctx).inv(),
        old(ctx).cur_function() is Some,
        old(ctx).cur_block() is Some,
        old(ctx).temp_count() < u32::MAX,
    ensures
        final(ctx).inv(),
        r@ == ValueV::Place(PlaceV::Local(LocalId(old(ctx).mir.locals@.len() as usize))),
        ({
            let b = old(ctx).cur_block().unwrap();
            let f = old(ctx).cur_function().unwrap();
            &&& crate::context::local_added(
                &old(ctx).mir,
                &crate::mir::MirContext { blocks: old(ctx).mir.blocks, ..final(ctx).mir },
                f,
                temp_name("static_method_ref"@, old(ctx).temp_count() as nat),
                thick_ty,
            )
            &&& final(ctx).mir.blocks@.len() == old(ctx).mir.blocks@.len()
            &&& forall|j: int| 0 <= j < old(ctx).mir.blocks@.len() && j != b.0
                ==> final(ctx).mir.blocks@[j] == old(ctx).mir.blocks@[j]
            &&& final(ctx).mir.stmts_of(b) == old(ctx).mir.stmts_of(b).push(
                StmtV::Assign {
                    dest: PlaceV::Local(LocalId(old(ctx).mir.locals@.len() as usize)),
                    rvalue: RvalueV::ApplyPartial { func: func_name, captures: Seq::empty() },
                },
            )
            &&& final(ctx).mir.term_of(b) == old(ctx).mir.term_of(b)
        }),
        final(ctx).cur_block() == old(ctx).cur_block(),
        final(ctx).temp_count() == old(ctx).temp_count() + 1,
        same_but_block_temps(final(ctx), old(ctx)),
{
    let r = emit_apply_partial(ctx, "static_method_ref", func_name, thick_ty, Vec::new());
    assert(values_view(Seq::<Value>::empty()) =~= Seq::<ValueV>::empty());
    r
}

} // verus!
