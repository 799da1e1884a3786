//! The start of an `if`, the ends of its branches, and the join of the two branches: the deinit statuses of the enclosing
//! scopes are merged, each branch that falls through sets the deinit flags of the
//! locals it left in a different state, drops its own locals and jumps to the join
//! block, and lowering continues there.

use vstd::prelude::*;

use crate::context::{
    apply_updates, deinit_flag_name, merge_all, merge_none, move_value_stmts, same_shape, snapshot_map, status_maps,
    DeinitStatus, LoweringContext, MergeOut, ScopeInfo,
};
use crate::mir::TyId;
use crate::text::decimal;
use crate::deinit::{
    at_block, emit_state, lemma_mir_grown_refl, lemma_mir_grown_trans, mir_grown, push_stmt, scope_branches,
    scope_drop_model, set_term, EmitState,
};
use crate::mir::{BlockId, Immediate, ImmediateV, LocalId, MirTy, Place, PlaceV, StatementKind, StmtV, TermV, TerminatorKind, Value, ValueV};
use crate::table::Table;

verus! {

/// How a branch of an `if` ended: the statuses of the enclosing scopes' locals at its
/// end, whether its block was terminated, its own scope (none when there was no scope
/// to leave), and the block it ended in.
#[derive(Debug)]
pub struct BranchEnd {
    pub statuses: Table<LocalId, DeinitStatus>,
    pub terminated: bool,
    pub scope: Option<ScopeInfo>,
    pub final_block: Option<BlockId>,
}

/// The flags `fs` set to `value`, in order, in the current block.
pub open spec fn set_flags(st: EmitState, fs: Seq<LocalId>, value: bool) -> EmitState
    decreases fs.len(),
{
    if fs.len() == 0 {
        st
    } else {
        push_stmt(set_flags(st, fs.drop_last(), value), StmtV::SetDeinitFlag { flag: fs.last(), value })
    }
}

/// The end of a branch that falls through, emitted in its block `b`: the flags
/// `falses` set to false and `trues` to true, the drops of its own scope's locals,
/// and the jump to the join block (when there is one).
pub open spec fn branch_model(
    st: EmitState,
    b: BlockId,
    falses: Seq<LocalId>,
    trues: Seq<LocalId>,
    scope: Option<ScopeInfo>,
    join: Option<BlockId>,
) -> EmitState {
    let s1 = set_flags(set_flags(at_block(st, b.0 as nat), falses, false), trues, true);
    let s2 = match scope {
        Some(sc) => scope_drop_model(s1, sc),
        None => s1,
    };
    match join {
        Some(j) => set_term(s2, TermV::Jump(j)),
        None => s2,
    }
}

/// The end of a branch as emitted: `branch_model` for a branch that fell through
/// (its block not terminated), nothing otherwise.
pub open spec fn tail_model(
    st: EmitState,
    final_block: Option<BlockId>,
    terminated: bool,
    falses: Seq<LocalId>,
    trues: Seq<LocalId>,
    scope: Option<ScopeInfo>,
    join: Option<BlockId>,
) -> EmitState {
    match final_block {
        Some(b) => if !terminated {
            branch_model(st, b, falses, trues, scope, join)
        } else {
            st
        },
        None => st,
    }
}

/// The branch merge of an `if`: computed (see `merge_all`) when at least one branch
/// falls through, empty otherwise.
pub open spec fn if_merge(
    before: Seq<(LocalId, DeinitStatus)>,
    then_end: &BranchEnd,
    else_end: &BranchEnd,
    first: nat,
) -> MergeOut {
    if !then_end.terminated || !else_end.terminated {
        merge_all(before, then_end.statuses.map(), else_end.statuses.map(), first)
    } else {
        merge_none()
    }
}

/// The scope of a branch can be dropped in the context.
pub open spec fn scope_droppable(ctx: &LoweringContext, scope: Option<ScopeInfo>) -> bool {
    scope matches Some(sc) ==> sc.wf() && (scope_branches(sc) ==> ctx.cur_function() is Some)
}

impl LoweringContext {
    /// Sets the flags to `value`, in order, in the current block.
    fn set_flags_to(&mut self, flags: &Vec<LocalId>, value: bool)
        requires
            old(self).inv(),
            old(self).cur_block() is Some,
        ensures
            final(self).inv(),
            final(self).same_state(old(self)),
            emit_state(final(self)) == set_flags(emit_state(old(self)), flags@, value),
            mir_grown(&old(self).mir, &final(self).mir, old(self).cur_function()),
    {
        proof {
            lemma_mir_grown_refl(&self.mir, self.cur_function());
        }
        let mut i: usize = 0;
        assert(flags@.take(0) =~= Seq::<LocalId>::empty());
        while i < flags.len()
            invariant
                i <= flags@.len(),
                self.inv(),
                self.same_state(old(self)),
                self.cur_block() is Some,
                emit_state(self) == set_flags(emit_state(old(self)), flags@.take(i as int), value),
                mir_grown(&old(self).mir, &self.mir, old(self).cur_function()),
            decreases flags.len() - i,
        {
            let ghost m0 = self.mir;
            self.push_model_stmt(StatementKind::SetDeinitFlag { flag: flags[i], value });
            proof {
                lemma_mir_grown_trans(&old(self).mir, &m0, &self.mir, old(self).cur_function());
                assert(flags@.take(i + 1).drop_last() =~= flags@.take(i as int));
            }
            i = i + 1;
        }
        assert(flags@.take(flags@.len() as int) =~= flags@);
    }

    /// Ends a branch that falls through, in its block `b` (see `branch_model`).
    fn end_branch(
        &mut self,
        b: BlockId,
        falses: &Vec<LocalId>,
        trues: &Vec<LocalId>,
        scope: &Option<ScopeInfo>,
        join: Option<BlockId>,
    )
        requires
            old(self).inv(),
            b.0 < old(self).mir.blocks@.len(),
            scope_droppable(old(self), *scope),
        ensures
            final(self).inv(),
            final(self).same_but_block(old(self)),
            final(self).cur_block() is Some,
            emit_state(final(self)) == branch_model(emit_state(old(self)), b, falses@, trues@, *scope, join),
            mir_grown(&old(self).mir, &final(self).mir, old(self).cur_function()),
    {
        let ghost f = old(self).cur_function();
        self.set_current_block(b);
        let ghost m0 = self.mir;
        proof {
            lemma_mir_grown_refl(&self.mir, f);
        }
        self.set_flags_to(falses, false);
        let ghost m1 = self.mir;
        self.set_flags_to(trues, true);
        let ghost m2 = self.mir;
        proof {
            lemma_mir_grown_trans(&m0, &m1, &m2, f);
        }
        match scope {
            Some(sc) => {
                self.emit_scope_deinits(sc);
                proof {
                    lemma_mir_grown_trans(&m0, &m2, &self.mir, f);
                }
            },
            None => {},
        }
        let ghost m3 = self.mir;
        match join {
            Some(j) => {
                self.set_model_term(TerminatorKind::Jump(j));
                proof {
                    lemma_mir_grown_trans(&m0, &m3, &self.mir, f);
                }
            },
            None => {},
        }
    }
}

/// Joins the two branches of an `if` whose result (if the branches converge) is in
/// local `result` and whose join block is `join`, with the statuses `before` the
/// branches: when a branch falls through, the branch merge is computed (creating
/// its flags); each branch that falls through gets its end (see `branch_model`) in
/// its block, the then branch first; the merge's status updates are applied; and
/// lowering continues in the join block with the result as the value, or, when the
/// branches do not converge, the value is unit.
pub fn join_if_branches(
    ctx: &mut LoweringContext,
    before: &Table<LocalId, DeinitStatus>,
    then_end: &BranchEnd,
    else_end: &BranchEnd,
    join: Option<BlockId>,
    result: Option<LocalId>,
) -> (r: Value)
    requires
        old(ctx).inv(),
        then_end.statuses.wf(),
        else_end.statuses.wf(),
        scope_droppable(old(ctx), then_end.scope),
        scope_droppable(old(ctx), else_end.scope),
        then_end.final_block matches Some(b) ==> b.0 < old(ctx).mir.blocks@.len(),
        else_end.final_block matches Some(b) ==> b.0 < old(ctx).mir.blocks@.len(),
        join matches Some(j) ==> j.0 < old(ctx).mir.blocks@.len(),
        if_merge(before.entries@, then_end, else_end, old(ctx).mir.locals@.len()).flags > 0
            ==> old(ctx).cur_function() is Some,
        old(ctx).flag_count() + if_merge(before.entries@, then_end, else_end, old(ctx).mir.locals@.len()).flags
            <= u32::MAX,
    ensures
        final(ctx).inv(),
        ({
            let out = if_merge(before.entries@, then_end, else_end, old(ctx).mir.locals@.len());
            let st1 = tail_model(
                emit_state(old(ctx)),
                then_end.final_block,
                then_end.terminated,
                out.then_false,
                out.then_true,
                then_end.scope,
                join,
            );
            let st2 = tail_model(
                st1,
                else_end.final_block,
                else_end.terminated,
                out.else_false,
                out.else_true,
                else_end.scope,
                join,
            );
            let n = old(ctx).mir.locals@.len();
            &&& emit_state(final(ctx)) == (if join is Some && result is Some {
                at_block(st2, join.unwrap().0 as nat)
            } else {
                st2
            })
            &&& r@ == (if join is Some && result is Some {
                ValueV::Place(PlaceV::Local(result.unwrap()))
            } else {
                ValueV::Immediate(ImmediateV::Unit)
            })
            &&& same_shape(old(ctx).scopes(), final(ctx).scopes())
            &&& status_maps(final(ctx).scopes()) == apply_updates(status_maps(old(ctx).scopes()), out.updates)
            &&& final(ctx).flag_count() == old(ctx).flag_count() + out.flags
            &&& final(ctx).mir.locals@.len() == n + out.flags
            &&& old(ctx).mir.locals@.is_prefix_of(final(ctx).mir.locals@)
            &&& forall|i: int|
                0 <= i < out.flags ==> {
                    &&& (#[trigger] final(ctx).mir.locals@[n + i]).name@ == deinit_flag_name(
                        (old(ctx).flag_count() + i) as nat,
                    )
                    &&& final(ctx).mir.types@[final(ctx).mir.locals@[n + i].ty.0 as int] == MirTy::Bool
                }
        }),
        final(ctx).cur_function() == old(ctx).cur_function(),
        final(ctx).type_param_view() == old(ctx).type_param_view(),
        final(ctx).local_map_view() == old(ctx).local_map_view(),
        final(ctx).loops() == old(ctx).loops(),
        final(ctx).temps() == old(ctx).temps(),
        final(ctx).diags() == old(ctx).diags(),
        final(ctx).temp_count() == old(ctx).temp_count(),
        final(ctx).closure_count() == old(ctx).closure_count(),
{
    let ghost f = old(ctx).cur_function();
    let ghost out = if_merge(before.entries@, then_end, else_end, old(ctx).mir.locals@.len());
    let merge = !then_end.terminated || !else_end.terminated;
    let (updates, then_false, then_true, else_false, else_true) = if merge {
        let m = ctx.compute_branch_merge(before, &then_end.statuses, &else_end.statuses);
        (m.updates, m.then_flag_false, m.then_flag_true, m.else_flag_false, m.else_flag_true)
    } else {
        (Vec::new(), Vec::new(), Vec::new(), Vec::new(), Vec::new())
    };
    assert(updates@ == out.updates && then_false@ == out.then_false && then_true@ == out.then_true
        && else_false@ == out.else_false && else_true@ == out.else_true);
    let ghost c1 = *ctx;
    assert(emit_state(&c1) == emit_state(old(ctx)));
    proof {
        lemma_mir_grown_refl(&ctx.mir, f);
    }
    match then_end.final_block {
        Some(b) => {
            if !then_end.terminated {
                ctx.end_branch(b, &then_false, &then_true, &then_end.scope, join);
            }
        },
        None => {},
    }
    let ghost c2 = *ctx;
    match else_end.final_block {
        Some(b) => {
            if !else_end.terminated {
                ctx.end_branch(b, &else_false, &else_true, &else_end.scope, join);
                proof {
                    lemma_mir_grown_trans(&c1.mir, &c2.mir, &ctx.mir, f);
                }
            }
        },
        None => {},
    }
    ctx.apply_merge_updates(updates);
    match (join, result) {
        (Some(jb), Some(res)) => {
            ctx.set_current_block(jb);
            Value::Place(Place::local(res))
        },
        _ => Value::Immediate(Immediate::Unit),
    }
}


/// What the start of an `if` made: the result temporary and the join block (none
/// when all branches diverge), the else block, the block where the then branch
/// starts, and the statuses of the enclosing scopes' locals before the branches.
#[derive(Debug)]
pub struct IfStart {
    pub result: Option<LocalId>,
    pub join: Option<BlockId>,
    pub else_block: BlockId,
    pub then_block: BlockId,
    pub before: Table<LocalId, DeinitStatus>,
}

/// Starts an `if` whose type is lowered to `result_ty`: unless all branches diverge
/// (the `if` has the never type), a temporary `if_result` of that type (tracked as a
/// statement temporary when the type needs deinit) and the join block; then the
/// else block and the then block, in that order; and a snapshot of the statuses.
pub fn begin_if(ctx: &mut LoweringContext, diverges: bool, result_ty: TyId, result_needs_deinit: bool) -> (r: IfStart)
    requires
        old(ctx).inv(),
        old(ctx).cur_function() is Some,
        !diverges ==> old(ctx).temp_count() < u32::MAX,
    ensures
        final(ctx).inv(),
        ({
            let nb = old(ctx).mir.blocks@.len();
            let nl = old(ctx).mir.locals@.len();
            let k: nat = if diverges { 0 } else { 1 };
            &&& r.result == (if diverges { None } else { Some(LocalId(nl as usize)) })
            &&& r.join == (if diverges { None } else { Some(BlockId(nb as usize)) })
            &&& r.else_block == BlockId((nb + k) as usize)
            &&& r.then_block == BlockId((nb + k + 1) as usize)
            &&& final(ctx).mir.blocks@.len() == nb + k + 2
            &&& forall|j: int| 0 <= j < nb ==> final(ctx).mir.blocks@[j] == old(ctx).mir.blocks@[j]
            &&& forall|j: int|
                nb <= j < nb + k + 2 ==> final(ctx).mir.blocks@[j].statements@.len() == 0
                    && final(ctx).mir.blocks@[j].terminator is None
            &&& diverges ==> final(ctx).mir.locals == old(ctx).mir.locals
            &&& !diverges ==> {
                &&& final(ctx).mir.locals@.len() == nl + 1
                &&& final(ctx).mir.locals@.drop_last() == old(ctx).mir.locals@
                &&& final(ctx).mir.locals@.last().name@ == "if_result"@ + "_"@ + decimal(old(ctx).temp_count() as nat)
                &&& final(ctx).mir.locals@.last().ty == result_ty
            }
            &&& final(ctx).temp_count() == old(ctx).temp_count() + k
            &&& final(ctx).temps() == (if !diverges && result_needs_deinit {
                old(ctx).temps().push(LocalId(nl as usize))
            } else {
                old(ctx).temps()
            })
            &&& (diverges || !result_needs_deinit || old(ctx).scopes().len() == 0) ==> final(ctx).scopes()
                == old(ctx).scopes()
            &&& (!diverges && result_needs_deinit && old(ctx).scopes().len() > 0) ==> {
                &&& final(ctx).scopes().len() == old(ctx).scopes().len()
                &&& final(ctx).scopes().drop_last() == old(ctx).scopes().drop_last()
                &&& final(ctx).scopes().last().locals == old(ctx).scopes().last().locals
                &&& final(ctx).scopes().last().deinit_status.map() == old(ctx).scopes().last().deinit_status.map().insert(
                    LocalId(nl as usize),
                    DeinitStatus::Valid,
                )
            }
        }),
        r.before.wf(),
        r.before.map() == snapshot_map(status_maps(final(ctx).scopes())),
        final(ctx).mir.names == old(ctx).mir.names,
        final(ctx).mir.types == old(ctx).mir.types,
        final(ctx).cur_function() == old(ctx).cur_function(),
        final(ctx).cur_block() == old(ctx).cur_block(),
        final(ctx).type_param_view() == old(ctx).type_param_view(),
        final(ctx).local_map_view() == old(ctx).local_map_view(),
        final(ctx).loops() == old(ctx).loops(),
        final(ctx).diags() == old(ctx).diags(),
        final(ctx).closure_count() == old(ctx).closure_count(),
        final(ctx).flag_count() == old(ctx).flag_count(),
{
    let (result, join) = if diverges {
        (None, None)
    } else {
        let local = ctx.create_temp("if_result", result_ty);
        if result_needs_deinit {
            ctx.track_statement_temp(local);
        }
        let jb = ctx.create_block();
        (Some(local), Some(jb))
    };
    let else_block = ctx.create_block();
    let then_block = ctx.create_block();
    let before = ctx.snapshot_parent_deinit_statuses();
    IfStart { result, join, else_block, then_block, before }
}

/// Assigns a branch's value to the `if`'s result: nothing when the branch's block is
/// terminated; otherwise the branch's lowered value (`value`; none when the branch
/// has no value expression) moved into the result, or, without a value expression,
/// unit; nothing when there is no result (all branches diverge).
pub fn assign_branch_value(ctx: &mut LoweringContext, result: Option<LocalId>, value: Option<Value>)
    requires
        old(ctx).inv(),
    ensures
        final(ctx).inv(),
        (old(ctx).terminated() || result is None) ==> *final(ctx) == *old(ctx),
        !old(ctx).terminated() && result is Some ==> {
            let b = old(ctx).cur_block().unwrap();
            let dest = PlaceV::Local(result.unwrap());
            &&& final(ctx).mir.only_block_changed(&old(ctx).mir, b)
            &&& final(ctx).mir.stmts_of(b) == old(ctx).mir.stmts_of(b) + match value {
                Some(v) => move_value_stmts(dest, v@),
                None => seq![StmtV::Assign { dest, rvalue: crate::mir::RvalueV::Use(ImmediateV::Unit) }],
            }
            &&& final(ctx).mir.blocks@[b.0 as int].terminator == old(ctx).mir.blocks@[b.0 as int].terminator
            &&& same_shape(old(ctx).scopes(), final(ctx).scopes())
            &&& status_maps(final(ctx).scopes()) == match value {
                Some(v) => crate::context::after_move(status_maps(old(ctx).scopes()), v@),
                None => status_maps(old(ctx).scopes()),
            }
            &&& final(ctx).cur_block() == old(ctx).cur_block()
        },
        final(ctx).cur_function() == old(ctx).cur_function(),
        final(ctx).type_param_view() == old(ctx).type_param_view(),
        final(ctx).local_map_view() == old(ctx).local_map_view(),
        final(ctx).loops() == old(ctx).loops(),
        final(ctx).temps() == old(ctx).temps(),
        final(ctx).diags() == old(ctx).diags(),
        final(ctx).temp_count() == old(ctx).temp_count(),
        final(ctx).closure_count() == old(ctx).closure_count(),
        final(ctx).flag_count() == old(ctx).flag_count(),
{
    if ctx.is_block_terminated() {
        return;
    }
    match result {
        None => {},
        Some(res) => match value {
            Some(v) => ctx.emit_move_value(Place::local(res), v),
            None => {
                let ghost b = ctx.cur_block().unwrap();
                ctx.emit_imm(Place::local(res), Immediate::Unit);
                assert(ctx.scope_stack@ == old(ctx).scope_stack@);
                assert(same_shape(old(ctx).scopes(), ctx.scopes()));
            },
        },
    }
}

/// Ends a branch of an `if`: the statuses of the enclosing scopes' locals, whether
/// its block is terminated, its scope (left without drops) and its block.
pub fn close_branch(ctx: &mut LoweringContext) -> (r: BranchEnd)
    requires
        old(ctx).inv(),
        old(ctx).scopes().len() > 0,
    ensures
        final(ctx).inv(),
        final(ctx).mir == old(ctx).mir,
        r.statuses.wf(),
        r.statuses.map() == snapshot_map(status_maps(old(ctx).scopes())),
        r.terminated == old(ctx).terminated(),
        r.scope == Some(old(ctx).scopes().last()),
        r.final_block == old(ctx).cur_block(),
        final(ctx).scopes() == old(ctx).scopes().drop_last(),
        final(ctx).cur_function() == old(ctx).cur_function(),
        final(ctx).cur_block() == old(ctx).cur_block(),
        final(ctx).type_param_view() == old(ctx).type_param_view(),
        final(ctx).local_map_view() == old(ctx).local_map_view(),
        final(ctx).loops() == old(ctx).loops(),
        final(ctx).temps() == old(ctx).temps(),
        final(ctx).diags() == old(ctx).diags(),
        final(ctx).temp_count() == old(ctx).temp_count(),
        final(ctx).closure_count() == old(ctx).closure_count(),
        final(ctx).flag_count() == old(ctx).flag_count(),
{
    let statuses = ctx.snapshot_parent_deinit_statuses();
    let terminated = ctx.is_block_terminated();
    let scope = ctx.exit_scope_no_emit();
    let final_block = ctx.current_block();
    BranchEnd { statuses, terminated, scope, final_block }
}

} // verus!
