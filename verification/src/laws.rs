//! Laws of lowering: facts relating the operations of the library, stated over the
//! spec functions that their contracts use.

use vstd::prelude::*;

use crate::context::{
    apply_updates, innermost_tracking, last_loop_with_id, last_loop_with_label,
    lemma_innermost_tracking_range, lemma_innermost_tracking_set, lemma_same_domains_tracking,
    merge_all, set_status, snapshot_map, status_in, DeinitStatus, LoopInfo,
};
use crate::deinit::{
    at_block, call_model, cases_model, drop_model, fields_model, local_drop_model, locals_drop_model,
    payloads_model, push_stmt, set_term, switch_targets, with_new_blocks, EmitState,
};
use crate::mir::{CallArgV, CalleeV, NameId, PassingMode, TermV, ValueV};
use crate::name::deinit_function_segments;
use crate::sem::{any_case_needs_deinit, needs_deinit, CaseDecl, FieldDecl, SemTy, TypeDecl};
use crate::mir::{BlockId, BlockV, PlaceV, StmtV};
use crate::sem::TyRef;
use crate::table::Table;
use crate::mir::{first_at, interned, lemma_name_pos_absent, lemma_name_pos_found, name_pos, LocalId};
use crate::text::{decimal, digit_char, lemma_decimal_nonempty};
use crate::context::outermost_maybe_flag;
use crate::error::{describes, Diagnostic, LoweringError};
use crate::module::is_error;

verus! {

// ---------------------------------------------------------------------------
// Deinit statuses
// ---------------------------------------------------------------------------

/// Setting the status of a tracked local and reading it back gives the status
/// written; setting the status of an untracked local changes nothing.
pub proof fn law_status_write_read(sv: Seq<Map<LocalId, DeinitStatus>>, local: LocalId, st: DeinitStatus)
    ensures
        status_in(sv, local) is Some ==> status_in(set_status(sv, local, st), local) == Some(st),
        status_in(sv, local) is None ==> set_status(sv, local, st) == sv,
{
    lemma_innermost_tracking_set(sv, local, st, local);
    lemma_innermost_tracking_range(sv, local);
}

/// Setting the status of one local leaves the status of every other local as it was.
pub proof fn law_status_write_other(
    sv: Seq<Map<LocalId, DeinitStatus>>,
    local: LocalId,
    st: DeinitStatus,
    other: LocalId,
)
    requires
        other != local,
    ensures
        status_in(set_status(sv, local, st), other) == status_in(sv, other),
{
    lemma_innermost_tracking_set(sv, local, st, other);
    lemma_innermost_tracking_range(sv, local);
    lemma_innermost_tracking_range(sv, other);
}

// ---------------------------------------------------------------------------
// Loops
// ---------------------------------------------------------------------------

/// After a loop is pushed, looking up its id finds it (it is the innermost loop with
/// that id), and so does looking up its label, if it has one.
pub proof fn law_find_pushed_loop(loops: Seq<LoopInfo>, info: LoopInfo)
    ensures
        last_loop_with_id(loops.push(info), info.loop_id) == loops.len(),
        info.label matches Some(l) ==> last_loop_with_label(loops.push(info), l@) == loops.len(),
{
    assert(loops.push(info).last() == info);
}

/// Popping a loop right after pushing it gives it back and restores the loop stack.
pub proof fn law_push_then_pop_loop(loops: Seq<LoopInfo>, info: LoopInfo)
    ensures
        loops.push(info).drop_last() == loops,
        loops.push(info).last() == info,
{
    assert(loops.push(info).drop_last() =~= loops);
}

// ---------------------------------------------------------------------------
// Interned names
// ---------------------------------------------------------------------------

/// Interning a name again gives the same id and adds nothing; the id names it.
pub proof fn law_intern_idempotent(ns: Seq<Seq<Seq<char>>>, segs: Seq<Seq<char>>)
    ensures
        name_pos(ns, segs) <= ns.len(),
        interned(ns, segs)[name_pos(ns, segs) as int] == segs,
        name_pos(interned(ns, segs), segs) == name_pos(ns, segs),
        interned(interned(ns, segs), segs) == interned(ns, segs),
        ns.is_prefix_of(interned(ns, segs)),
{
    let p = name_pos(ns, segs);
    if exists|i: int| first_at(ns, segs, i) {
        let c = choose|i: int| first_at(ns, segs, i);
        assert(first_at(ns, segs, c));
        lemma_name_pos_found(ns, segs, c);
    } else {
        assert forall|k: int| 0 <= k < ns.len() implies ns[k] != segs by {
            if ns[k] == segs {
                lemma_first_occurrence(ns, segs, k);
            }
        }
        lemma_name_pos_absent(ns, segs);
        let ns2 = ns.push(segs);
        assert(first_at(ns2, segs, ns.len() as int));
        lemma_name_pos_found(ns2, segs, ns.len() as int);
        assert(ns.is_prefix_of(ns2)) by {
            assert(ns2.take(ns.len() as int) =~= ns);
        }
    }
}

/// Two different names interned one after the other get different ids.
pub proof fn law_intern_distinct(ns: Seq<Seq<Seq<char>>>, a: Seq<Seq<char>>, b: Seq<Seq<char>>)
    requires
        a != b,
    ensures
        name_pos(interned(ns, a), b) != name_pos(ns, a),
{
    law_intern_idempotent(ns, a);
    let ns1 = interned(ns, a);
    law_intern_idempotent(ns1, b);
    let pa = name_pos(ns, a);
    let pb = name_pos(ns1, b);
    assert(ns1[pa as int] == a);
    assert(pa < ns1.len());
    if pb == pa {
        assert(interned(ns1, b)[pb as int] == b);
        assert(ns1.is_prefix_of(interned(ns1, b)));
        assert(interned(ns1, b)[pa as int] == ns1[pa as int]);
    }
}

proof fn lemma_first_occurrence(ns: Seq<Seq<Seq<char>>>, segs: Seq<Seq<char>>, k: int)
    requires
        0 <= k < ns.len(),
        ns[k] == segs,
    ensures
        exists|i: int| first_at(ns, segs, i),
    decreases k,
{
    if forall|j: int| 0 <= j < k ==> ns[j] != segs {
        assert(first_at(ns, segs, k));
    } else {
        let j = choose|j: int| 0 <= j < k && ns[j] == segs;
        lemma_first_occurrence(ns, segs, j);
    }
}

// ---------------------------------------------------------------------------
// Counter-based names
// ---------------------------------------------------------------------------

/// Different counter values render as different decimals.
pub proof fn law_decimal_injective(n: nat, m: nat)
    requires
        n != m,
    ensures
        decimal(n) != decimal(m),
    decreases n + m,
{
    if decimal(n) == decimal(m) {
        if n < 10 && m < 10 {
            assert(decimal(n)[0] == digit_char(n));
            assert(decimal(m)[0] == digit_char(m));
        } else if n < 10 {
            lemma_decimal_nonempty(m / 10);
            assert(decimal(m).len() >= 2);
        } else if m < 10 {
            lemma_decimal_nonempty(n / 10);
            assert(decimal(n).len() >= 2);
        } else {
            assert(decimal(n).last() == digit_char(n % 10));
            assert(decimal(m).last() == digit_char(m % 10));
            assert(n % 10 == m % 10);
            assert(decimal(n).drop_last() =~= decimal(n / 10));
            assert(decimal(m).drop_last() =~= decimal(m / 10));
            assert(n / 10 != m / 10);
            law_decimal_injective(n / 10, m / 10);
        }
    }
}

/// Names made of one prefix, `_` and different counter values (temporaries, and
/// deinit flags with their fixed prefix) are different.
pub proof fn law_counter_names_distinct(prefix: Seq<char>, n: nat, m: nat)
    requires
        n != m,
    ensures
        prefix + decimal(n) != prefix + decimal(m),
{
    law_decimal_injective(n, m);
    if prefix + decimal(n) == prefix + decimal(m) {
        assert((prefix + decimal(n)).skip(prefix.len() as int) =~= decimal(n));
        assert((prefix + decimal(m)).skip(prefix.len() as int) =~= decimal(m));
    }
}


// ---------------------------------------------------------------------------
// Snapshots of deinit statuses
// ---------------------------------------------------------------------------

/// A snapshot holds exactly the tracked locals, each with its status in the
/// innermost scope tracking it.
pub proof fn law_snapshot_is_current(sv: Seq<Map<LocalId, DeinitStatus>>, local: LocalId)
    ensures
        snapshot_map(sv).contains_key(local) == (status_in(sv, local) is Some),
        status_in(sv, local) matches Some(st) ==> snapshot_map(sv)[local] == st,
    decreases sv.len(),
{
    if sv.len() > 0 {
        law_snapshot_is_current(sv.drop_last(), local);
        lemma_innermost_tracking_range(sv, local);
        lemma_innermost_tracking_range(sv.drop_last(), local);
        if !sv.last().contains_key(local) {
            let k = innermost_tracking(sv.drop_last(), local);
            if k >= 0 {
                assert(sv.drop_last()[k] == sv[k]);
            }
        }
    }
}

proof fn lemma_apply_updates_domains(sv: Seq<Map<LocalId, DeinitStatus>>, ups: Seq<(LocalId, DeinitStatus)>)
    ensures
        apply_updates(sv, ups).len() == sv.len(),
        forall|j: int| 0 <= j < sv.len() ==> (#[trigger] apply_updates(sv, ups)[j]).dom() == sv[j].dom(),
    decreases ups.len(),
{
    if ups.len() > 0 {
        lemma_apply_updates_domains(sv, ups.drop_last());
        let prev = apply_updates(sv, ups.drop_last());
        lemma_innermost_tracking_set(prev, ups.last().0, ups.last().1, ups.last().0);
    }
}

proof fn lemma_apply_updates_untouched(
    sv: Seq<Map<LocalId, DeinitStatus>>,
    ups: Seq<(LocalId, DeinitStatus)>,
    k: LocalId,
)
    requires
        forall|i: int| 0 <= i < ups.len() ==> (#[trigger] ups[i]).0 != k,
    ensures
        status_in(apply_updates(sv, ups), k) == status_in(sv, k),
    decreases ups.len(),
{
    if ups.len() > 0 {
        assert(ups.last() == ups[ups.len() - 1]);
        lemma_apply_updates_untouched(sv, ups.drop_last(), k);
        law_status_write_other(apply_updates(sv, ups.drop_last()), ups.last().0, ups.last().1, k);
    }
}

proof fn lemma_apply_updates_last_write(
    sv: Seq<Map<LocalId, DeinitStatus>>,
    ups: Seq<(LocalId, DeinitStatus)>,
    p: int,
)
    requires
        0 <= p < ups.len(),
        forall|i: int| p < i < ups.len() ==> (#[trigger] ups[i]).0 != ups[p].0,
        status_in(sv, ups[p].0) is Some,
    ensures
        status_in(apply_updates(sv, ups), ups[p].0) == Some(ups[p].1),
    decreases ups.len(),
{
    let k = ups[p].0;
    let prev = apply_updates(sv, ups.drop_last());
    assert(ups.last() == ups[ups.len() - 1]);
    if p == ups.len() - 1 {
        lemma_apply_updates_domains(sv, ups.drop_last());
        lemma_same_domains_tracking(sv, prev, k);
        lemma_innermost_tracking_range(sv, k);
        law_status_write_read(prev, k, ups[p].1);
    } else {
        assert(ups.drop_last()[p] == ups[p]);
        assert forall|i: int| p < i < ups.drop_last().len() implies (#[trigger] ups.drop_last()[i]).0 != ups.drop_last()[p].0 by {
            assert(ups.drop_last()[i] == ups[i]);
        }
        lemma_apply_updates_last_write(sv, ups.drop_last(), p);
        law_status_write_other(prev, ups.last().0, ups.last().1, k);
    }
}

/// Restoring a snapshot (applying its entries) onto scopes that track the same
/// locals, whatever their statuses became, gives every local back the status it had
/// when the snapshot was taken.
pub proof fn law_restore_snapshot(
    before: Seq<Map<LocalId, DeinitStatus>>,
    after: Seq<Map<LocalId, DeinitStatus>>,
    snapshot: Table<LocalId, DeinitStatus>,
    local: LocalId,
)
    requires
        snapshot.wf(),
        snapshot.map() == snapshot_map(before),
        after.len() == before.len(),
        forall|j: int| 0 <= j < before.len() ==> (#[trigger] after[j]).dom() == before[j].dom(),
    ensures
        status_in(apply_updates(after, snapshot.entries@), local) == status_in(before, local),
{
    let es = snapshot.entries@;
    law_snapshot_is_current(before, local);
    lemma_same_domains_tracking(before, after, local);
    lemma_innermost_tracking_range(before, local);
    lemma_innermost_tracking_range(after, local);
    if snapshot.map().contains_key(local) {
        let p = snapshot.keys().index_of(local);
        snapshot.lemma_entry(p);
        assert(es[p].0 == local);
        assert forall|i: int| p < i < es.len() implies (#[trigger] es[i]).0 != es[p].0 by {
            assert(snapshot.keys()[i] == es[i].0);
            assert(snapshot.keys()[p] == es[p].0);
        }
        lemma_apply_updates_last_write(after, es, p);
    } else {
        assert forall|i: int| 0 <= i < es.len() implies (#[trigger] es[i]).0 != local by {
            snapshot.lemma_entry(i);
        }
        lemma_apply_updates_untouched(after, es, local);
    }
}

// ---------------------------------------------------------------------------
// Branch merging
// ---------------------------------------------------------------------------

/// The `i`-th flag created by a merge whose first new local is `first`.
pub open spec fn fresh_flag(first: nat, i: int) -> LocalId {
    LocalId((first + i) as usize)
}

/// Every flag that a branch merge creates is set to true at the end of one branch
/// (where the value is still valid) and to false at the end of the other.
pub proof fn law_merge_flags_set_in_both_branches(
    entries: Seq<(LocalId, DeinitStatus)>,
    then_m: Map<LocalId, DeinitStatus>,
    else_m: Map<LocalId, DeinitStatus>,
    first: nat,
)
    ensures
        ({
            let out = merge_all(entries, then_m, else_m, first);
            forall|i: int| #![trigger fresh_flag(first, i)]
                0 <= i < out.flags ==> {
                    let f = fresh_flag(first, i);
                    ||| out.then_true.contains(f) && out.else_false.contains(f)
                    ||| out.then_false.contains(f) && out.else_true.contains(f)
                }
        }),
    decreases entries.len(),
{
    if entries.len() > 0 {
        law_merge_flags_set_in_both_branches(entries.drop_last(), then_m, else_m, first);
        let acc = merge_all(entries.drop_last(), then_m, else_m, first);
        let out = merge_all(entries, then_m, else_m, first);
        assert forall|i: int| 0 <= i < out.flags implies {
            let f = #[trigger] fresh_flag(first, i);
            ||| out.then_true.contains(f) && out.else_false.contains(f)
            ||| out.then_false.contains(f) && out.else_true.contains(f)
        } by {
            let f = fresh_flag(first, i);
            if i < acc.flags {
                if acc.then_true.contains(f) && acc.else_false.contains(f) {
                    let a = acc.then_true.index_of(f);
                    let b = acc.else_false.index_of(f);
                    assert(out.then_true[a] == f);
                    assert(out.else_false[b] == f);
                } else {
                    let a = acc.then_false.index_of(f);
                    let b = acc.else_true.index_of(f);
                    assert(out.then_false[a] == f);
                    assert(out.else_true[b] == f);
                }
            } else {
                assert(i == acc.flags);
                if out.then_true.len() > acc.then_true.len() && out.else_false.len() > acc.else_false.len()
                    && out.then_true.last() == f && out.else_false.last() == f {
                    assert(out.then_true[out.then_true.len() - 1] == f);
                    assert(out.else_false[out.else_false.len() - 1] == f);
                } else {
                    assert(out.then_false[out.then_false.len() - 1] == f);
                    assert(out.else_true[out.else_true.len() - 1] == f);
                }
            }
        }
    }
}


// ---------------------------------------------------------------------------
// Deinits at scope exit
// ---------------------------------------------------------------------------

/// Plain deinits of the given locals, last declared first.
pub open spec fn reverse_deinits(ls: Seq<LocalId>) -> Seq<StmtV> {
    Seq::new(ls.len(), |i: int| StmtV::Deinit { place: PlaceV::Local(ls[ls.len() - 1 - i]) })
}

/// A scope whose locals are all tracked as valid, with no recorded types, is
/// cleaned up by plain deinits of its locals in reverse declaration order, appended
/// to the current block; nothing else changes.
pub proof fn law_scope_deinits_reverse_order(
    st: EmitState,
    ls: Seq<LocalId>,
    statuses: Map<LocalId, DeinitStatus>,
    types: Map<LocalId, TyRef>,
)
    requires
        0 <= st.cur < st.blocks.len(),
        forall|i: int| 0 <= i < ls.len() ==> {
            &&& statuses.contains_key(#[trigger] ls[i])
            &&& statuses[ls[i]] == DeinitStatus::Valid
            &&& !types.contains_key(ls[i])
        },
    ensures
        locals_drop_model(st, ls, statuses, types) == (EmitState {
            blocks: st.blocks.update(
                st.cur as int,
                BlockV {
                    statements: st.blocks[st.cur as int].statements + reverse_deinits(ls),
                    terminator: st.blocks[st.cur as int].terminator,
                },
            ),
            ..st
        }),
    decreases ls.len(),
{
    if ls.len() == 0 {
        assert(st.blocks[st.cur as int].statements + reverse_deinits(ls) =~= st.blocks[st.cur as int].statements);
        assert(st.blocks.update(
            st.cur as int,
            BlockV {
                statements: st.blocks[st.cur as int].statements,
                terminator: st.blocks[st.cur as int].terminator,
            },
        ) =~= st.blocks);
    } else {
        let l = ls.last();
        assert(ls[ls.len() - 1] == l);
        let st1 = push_stmt(st, StmtV::Deinit { place: PlaceV::Local(l) });
        assert(local_drop_model(st, l, statuses, types) == st1);
        assert forall|i: int| 0 <= i < ls.drop_last().len() implies {
            &&& statuses.contains_key(#[trigger] ls.drop_last()[i])
            &&& statuses[ls.drop_last()[i]] == DeinitStatus::Valid
            &&& !types.contains_key(ls.drop_last()[i])
        } by {
            assert(ls.drop_last()[i] == ls[i]);
        }
        law_scope_deinits_reverse_order(st1, ls.drop_last(), statuses, types);
        assert(reverse_deinits(ls) =~= seq![StmtV::Deinit { place: PlaceV::Local(l) }] + reverse_deinits(ls.drop_last()));
        assert(st1.blocks[st.cur as int].statements + reverse_deinits(ls.drop_last()) =~= st.blocks[st.cur as int].statements
            + reverse_deinits(ls));
        assert(st1.blocks.update(
            st.cur as int,
            BlockV {
                statements: st1.blocks[st.cur as int].statements + reverse_deinits(ls.drop_last()),
                terminator: st1.blocks[st.cur as int].terminator,
            },
        ) =~= st.blocks.update(
            st.cur as int,
            BlockV {
                statements: st.blocks[st.cur as int].statements + reverse_deinits(ls),
                terminator: st.blocks[st.cur as int].terminator,
            },
        ));
    }
}


// ---------------------------------------------------------------------------
// Drop code only appends
// ---------------------------------------------------------------------------

/// `y` starts with the statements of `x`.
pub open spec fn stmts_extend(x: Seq<StmtV>, y: Seq<StmtV>) -> bool {
    &&& x.len() <= y.len()
    &&& forall|i: int| 0 <= i < x.len() ==> #[trigger] y[i] == x[i]
}

/// `b` extends `a`: blocks only added, each existing block's statements only
/// extended, names only added, and the current block exists.
pub open spec fn emission_extends(a: EmitState, b: EmitState) -> bool {
    &&& a.blocks.len() <= b.blocks.len()
    &&& b.cur < b.blocks.len()
    &&& forall|j: int| 0 <= j < a.blocks.len() ==> #[trigger] stmts_extend(a.blocks[j].statements, b.blocks[j].statements)
    &&& a.names.len() <= b.names.len()
    &&& forall|i: int| 0 <= i < a.names.len() ==> #[trigger] b.names[i] == a.names[i]
}

proof fn lemma_extends_refl(a: EmitState)
    requires
        a.cur < a.blocks.len(),
    ensures
        emission_extends(a, a),
{
}

proof fn lemma_extends_trans(a: EmitState, b: EmitState, c: EmitState)
    requires
        emission_extends(a, b),
        emission_extends(b, c),
    ensures
        emission_extends(a, c),
{
    assert forall|j: int| 0 <= j < a.blocks.len() implies #[trigger] stmts_extend(
        a.blocks[j].statements,
        c.blocks[j].statements,
    ) by {
        let x = a.blocks[j].statements;
        let m = b.blocks[j].statements;
        let y = c.blocks[j].statements;
        assert(stmts_extend(x, m));
        assert(stmts_extend(m, y));
        assert forall|i: int| 0 <= i < x.len() implies #[trigger] y[i] == x[i] by {
            assert(m[i] == x[i]);
            assert(y[i] == m[i]);
        }
    }
    assert forall|i: int| 0 <= i < a.names.len() implies #[trigger] c.names[i] == a.names[i] by {
        assert(b.names[i] == a.names[i]);
    }
}

proof fn lemma_push_extends(st: EmitState, s: StmtV)
    requires
        st.cur < st.blocks.len(),
    ensures
        emission_extends(st, push_stmt(st, s)),
        push_stmt(st, s).blocks[st.cur as int].statements == st.blocks[st.cur as int].statements.push(s),
{
}

proof fn lemma_term_extends(st: EmitState, t: TermV)
    requires
        st.cur < st.blocks.len(),
    ensures
        emission_extends(st, set_term(st, t)),
{
}

proof fn lemma_call_extends(st: EmitState, place: PlaceV, d: &TypeDecl)
    requires
        st.cur < st.blocks.len(),
    ensures
        emission_extends(st, call_model(st, place, d)),
{
    if d.has_deinit {
        let segs = deinit_function_segments(d);
        law_intern_idempotent(st.names, segs);
        let s1 = EmitState { names: interned(st.names, segs), ..st };
        assert forall|i: int| 0 <= i < st.names.len() implies #[trigger] s1.names[i] == st.names[i] by {
            assert(s1.names.subrange(0, st.names.len() as int)[i] == s1.names[i]);
        }
        lemma_push_extends(
            s1,
            StmtV::Call {
                callee: CalleeV::Direct { name: NameId(name_pos(st.names, segs) as usize), type_args: Seq::empty() },
                args: seq![CallArgV { value: ValueV::Place(place), mode: PassingMode::MutRef }],
            },
        );
        lemma_extends_trans(st, s1, call_model(st, place, d));
    }
}

proof fn lemma_drop_extends(st: EmitState, place: PlaceV, ty: &SemTy)
    requires
        st.cur < st.blocks.len(),
    ensures
        emission_extends(st, drop_model(st, place, ty)),
    decreases ty, 4nat,
{
    match ty {
        SemTy::Struct(d) => {
            lemma_call_extends(st, place, d);
            let s1 = call_model(st, place, d);
            assert(decreases_to!(*ty => d.fields@));
            lemma_fields_extends(s1, place, d.fields@);
            lemma_extends_trans(st, s1, fields_model(s1, place, d.fields@));
        },
        SemTy::Enum(d) => {
            lemma_call_extends(st, place, d);
            let s1 = call_model(st, place, d);
            if any_case_needs_deinit(d.cases@) {
                let join = s1.blocks.len();
                let k = d.cases@.len();
                let s1b = with_new_blocks(s1, k + 2);
                assert(emission_extends(s1, s1b));
                let s2 = set_term(s1b, TermV::Switch { discriminant: place, cases: switch_targets(d.cases@, join) });
                lemma_term_extends(s1b, TermV::Switch { discriminant: place, cases: switch_targets(d.cases@, join) });
                assert(decreases_to!(*ty => d.cases@));
                lemma_cases_extends(s2, place, d.cases@, join);
                let s3 = cases_model(s2, place, d.cases@, join);
                let s3b = at_block(s3, join + 1 + k);
                lemma_term_extends(s3b, TermV::Jump(BlockId(join as usize)));
                let s4 = set_term(s3b, TermV::Jump(BlockId(join as usize)));
                lemma_extends_trans(s1, s1b, s2);
                lemma_extends_trans(s1, s2, s3);
                lemma_extends_trans(s1, s3, s4);
                lemma_extends_trans(st, s1, s4);
            }
        },
        _ => {
            lemma_push_extends(st, StmtV::Deinit { place });
        },
    }
}

proof fn lemma_fields_extends(st: EmitState, place: PlaceV, fs: Seq<FieldDecl>)
    requires
        st.cur < st.blocks.len(),
    ensures
        emission_extends(st, fields_model(st, place, fs)),
    decreases fs, 3nat,
{
    if fs.len() == 0 {
        lemma_extends_refl(st);
    } else {
        let f = fs.last();
        let st1 = if needs_deinit(&f.ty) {
            drop_model(st, PlaceV::Field(Box::new(place), f.name@), &f.ty)
        } else {
            st
        };
        if needs_deinit(&f.ty) {
            assert(decreases_to!(fs => fs[fs.len() - 1]));
            lemma_drop_extends(st, PlaceV::Field(Box::new(place), f.name@), &f.ty);
        } else {
            lemma_extends_refl(st);
        }
        lemma_fields_extends(st1, place, fs.drop_last());
        lemma_extends_trans(st, st1, fields_model(st1, place, fs.drop_last()));
    }
}

proof fn lemma_cases_extends(st: EmitState, place: PlaceV, cs: Seq<CaseDecl>, join: nat)
    requires
        st.cur < st.blocks.len(),
        join + cs.len() < st.blocks.len(),
    ensures
        emission_extends(st, cases_model(st, place, cs, join)),
        cases_model(st, place, cs, join).blocks.len() >= st.blocks.len(),
    decreases cs, 2nat,
{
    if cs.len() == 0 {
        lemma_extends_refl(st);
    } else {
        lemma_cases_extends(st, place, cs.drop_last(), join);
        let s1 = cases_model(st, place, cs.drop_last(), join);
        let c = cs.last();
        let s2 = at_block(s1, join + cs.len());
        assert(emission_extends(s1, s2));
        let s3 = match c.payload {
            Some(ps) => payloads_model(s2, PlaceV::Downcast(Box::new(place), c.name@), ps@),
            None => s2,
        };
        match c.payload {
            Some(ps) => {
                assert(decreases_to!(cs => cs[cs.len() - 1]));
                lemma_payloads_extends(s2, PlaceV::Downcast(Box::new(place), c.name@), ps@);
            },
            None => {
                lemma_extends_refl(s2);
            },
        }
        lemma_term_extends(s3, TermV::Jump(BlockId(join as usize)));
        lemma_extends_trans(s1, s2, s3);
        lemma_extends_trans(st, s1, s3);
        lemma_extends_trans(st, s3, cases_model(st, place, cs, join));
    }
}

proof fn lemma_payloads_extends(st: EmitState, base: PlaceV, ps: Seq<SemTy>)
    requires
        st.cur < st.blocks.len(),
    ensures
        emission_extends(st, payloads_model(st, base, ps)),
    decreases ps, 1nat,
{
    if ps.len() == 0 {
        lemma_extends_refl(st);
    } else {
        let t = ps.last();
        let st1 = if needs_deinit(&t) {
            drop_model(st, PlaceV::Index(Box::new(base), (ps.len() - 1) as usize), &t)
        } else {
            st
        };
        if needs_deinit(&t) {
            assert(decreases_to!(ps => ps[ps.len() - 1]));
            lemma_drop_extends(st, PlaceV::Index(Box::new(base), (ps.len() - 1) as usize), &t);
        } else {
            lemma_extends_refl(st);
        }
        lemma_payloads_extends(st1, base, ps.drop_last());
        lemma_extends_trans(st, st1, payloads_model(st1, base, ps.drop_last()));
    }
}

/// Drop code only appends: every block that existed keeps its statements as a
/// prefix (and every interned name keeps its id), and emission continues in an
/// existing block.
pub proof fn law_drop_only_appends(st: EmitState, place: PlaceV, ty: &SemTy)
    requires
        st.cur < st.blocks.len(),
    ensures
        emission_extends(st, drop_model(st, place, ty)),
{
    lemma_drop_extends(st, place, ty);
}

/// A struct's deinit function runs first: the first statement its drop appends to
/// the current block is the call of the struct's deinit function on the place.
pub proof fn law_deinit_body_runs_first(st: EmitState, place: PlaceV, d: TypeDecl)
    requires
        st.cur < st.blocks.len(),
        d.has_deinit,
    ensures
        ({
            let r = drop_model(st, place, &SemTy::Struct(Box::new(d)));
            let n = st.blocks[st.cur as int].statements.len();
            &&& r.blocks[st.cur as int].statements.len() > n
            &&& r.blocks[st.cur as int].statements[n as int] == StmtV::Call {
                callee: CalleeV::Direct {
                    name: NameId(name_pos(st.names, deinit_function_segments(&d)) as usize),
                    type_args: Seq::empty(),
                },
                args: seq![CallArgV { value: ValueV::Place(place), mode: PassingMode::MutRef }],
            }
        }),
{
    let segs = deinit_function_segments(&d);
    let s0 = EmitState { names: interned(st.names, segs), ..st };
    let call = StmtV::Call {
        callee: CalleeV::Direct { name: NameId(name_pos(st.names, segs) as usize), type_args: Seq::empty() },
        args: seq![CallArgV { value: ValueV::Place(place), mode: PassingMode::MutRef }],
    };
    let s1 = call_model(st, place, &d);
    assert(s1 == push_stmt(s0, call));
    lemma_push_extends(s0, call);
    lemma_fields_extends(s1, place, d.fields@);
    let n = st.blocks[st.cur as int].statements.len();
    assert(s1.blocks[st.cur as int].statements[n as int] == call);
    let r = drop_model(st, place, &SemTy::Struct(Box::new(d)));
    assert(r == fields_model(s1, place, d.fields@));
    assert(stmts_extend(s1.blocks[st.cur as int].statements, r.blocks[st.cur as int].statements));
    assert(r.blocks[st.cur as int].statements[n as int] == s1.blocks[st.cur as int].statements[n as int]);
}


// ---------------------------------------------------------------------------
// Reported errors
// ---------------------------------------------------------------------------

/// One reported error: the diagnostics `b` are `a` with a diagnostic describing `e`
/// appended (what `emit_error` does to the diagnostics).
pub open spec fn error_reported(a: Seq<Diagnostic>, b: Seq<Diagnostic>, e: LoweringError) -> bool {
    &&& b.len() == a.len() + 1
    &&& b.drop_last() == a
    &&& describes(&b.last(), &e)
}

/// The error counts as an error of the result: a missing body or an internal error
/// (the unsupported constructs are warnings).
pub open spec fn counts_as_error(e: LoweringError) -> bool {
    e is MissingFunctionBody || e is Internal
}

/// Errors reported one after another from no diagnostics leave one diagnostic per
/// error, in order, each describing its error; and the result has errors exactly
/// when one of them is a missing body or an internal error. `runs[i]` are the
/// diagnostics after the first `i` errors.
pub proof fn law_reported_errors(runs: Seq<Seq<Diagnostic>>, es: Seq<LoweringError>)
    requires
        runs.len() == es.len() + 1,
        runs[0].len() == 0,
        forall|i: int| 0 <= i < es.len() ==> error_reported(#[trigger] runs[i], runs[i + 1], es[i]),
    ensures
        runs.last().len() == es.len(),
        forall|i: int| 0 <= i < es.len() ==> describes(&#[trigger] runs.last()[i], &es[i]),
        (exists|i: int| 0 <= i < runs.last().len() && is_error(#[trigger] runs.last()[i])) <==> (exists|i: int|
            0 <= i < es.len() && counts_as_error(#[trigger] es[i])),
    decreases es.len(),
{
    let n = es.len() as int;
    if n > 0 {
        let rs = runs.drop_last();
        let fs = es.drop_last();
        assert forall|i: int| 0 <= i < fs.len() implies error_reported(#[trigger] rs[i], rs[i + 1], fs[i]) by {
            assert(error_reported(runs[i], runs[i + 1], es[i]));
        }
        law_reported_errors(rs, fs);
        assert(error_reported(runs[n - 1], runs[n], es[n - 1]));
        assert(rs.last() == runs[n - 1]);
        let last = runs.last();
        assert forall|i: int| 0 <= i < es.len() implies describes(&#[trigger] last[i], &es[i]) by {
            if i < n - 1 {
                assert(last[i] == last.drop_last()[i]);
                assert(describes(&rs.last()[i], &fs[i]));
            }
        }
        assert forall|i: int| 0 <= i < n implies (is_error(#[trigger] last[i]) <==> counts_as_error(es[i])) by {
            assert(describes(&last[i], &es[i]));
        }
        if exists|i: int| 0 <= i < last.len() && is_error(#[trigger] last[i]) {
            let i = choose|i: int| 0 <= i < last.len() && is_error(#[trigger] last[i]);
            assert(counts_as_error(es[i]));
        }
        if exists|i: int| 0 <= i < es.len() && counts_as_error(#[trigger] es[i]) {
            let i = choose|i: int| 0 <= i < es.len() && counts_as_error(#[trigger] es[i]);
            assert(is_error(last[i]));
        }
    }
}

// ---------------------------------------------------------------------------
// Maybe-moved flags
// ---------------------------------------------------------------------------

proof fn lemma_outermost_none(sv: Seq<Map<LocalId, DeinitStatus>>, local: LocalId, j: int)
    requires
        outermost_maybe_flag(sv, local) is None,
        0 <= j < sv.len(),
    ensures
        !(sv[j].contains_key(local) && sv[j][local] is MaybeMoved),
    decreases sv.len(),
{
    if j > 0 {
        lemma_outermost_none(sv.drop_first(), local, j - 1);
    }
}

proof fn lemma_outermost_first(sv: Seq<Map<LocalId, DeinitStatus>>, local: LocalId, k: int)
    requires
        0 <= k < sv.len(),
        sv[k].contains_key(local),
        sv[k][local] is MaybeMoved,
        forall|j: int| 0 <= j < k ==> !((#[trigger] sv[j]).contains_key(local) && sv[j][local] is MaybeMoved),
    ensures
        outermost_maybe_flag(sv, local) == Some(sv[k][local]->flag),
    decreases k,
{
    if k > 0 {
        let t = sv.drop_first();
        assert forall|j: int| 0 <= j < k - 1 implies !((#[trigger] t[j]).contains_key(local) && t[j][local] is MaybeMoved) by {
            assert(t[j] == sv[j + 1]);
        }
        assert(!(sv[0].contains_key(local) && sv[0][local] is MaybeMoved));
        lemma_outermost_first(t, local, k - 1);
    }
}

/// Marking a tracked local as maybe-moved twice gives one flag: when no scope has
/// the local maybe-moved, the first call makes its new flag the local's flag, so the
/// second finds that flag (and then returns it and changes nothing).
pub proof fn law_second_maybe_move_same_flag(sv: Seq<Map<LocalId, DeinitStatus>>, local: LocalId, flag: LocalId)
    requires
        outermost_maybe_flag(sv, local) is None,
        status_in(sv, local) is Some,
    ensures
        outermost_maybe_flag(set_status(sv, local, DeinitStatus::MaybeMoved { flag }), local) == Some(flag),
{
    lemma_innermost_tracking_range(sv, local);
    let k = innermost_tracking(sv, local);
    let sv2 = set_status(sv, local, DeinitStatus::MaybeMoved { flag });
    assert forall|j: int| 0 <= j < k implies !((#[trigger] sv2[j]).contains_key(local) && sv2[j][local] is MaybeMoved) by {
        lemma_outermost_none(sv, local, j);
    }
    lemma_outermost_first(sv2, local, k);
}

// ---------------------------------------------------------------------------
// Restoring snapshots
// ---------------------------------------------------------------------------

/// A snapshot restored after any status changes gives the snapshot back: taking a
/// snapshot of the statuses `before`, changing statuses by any updates (marking
/// moved, maybe-moved, setting a status), then restoring the snapshot leaves
/// statuses whose snapshot is the one taken.
pub proof fn law_restore_gives_snapshot_back(
    before: Seq<Map<LocalId, DeinitStatus>>,
    ups: Seq<(LocalId, DeinitStatus)>,
    snapshot: Table<LocalId, DeinitStatus>,
)
    requires
        snapshot.wf(),
        snapshot.map() == snapshot_map(before),
    ensures
        snapshot_map(apply_updates(apply_updates(before, ups), snapshot.entries@)) == snapshot_map(before),
{
    let after = apply_updates(before, ups);
    let restored = apply_updates(after, snapshot.entries@);
    lemma_apply_updates_domains(before, ups);
    assert forall|l: LocalId| #![trigger snapshot_map(restored).contains_key(l)]
        snapshot_map(restored).contains_key(l) == snapshot_map(before).contains_key(l)
            && (snapshot_map(restored).contains_key(l) ==> snapshot_map(restored)[l] == snapshot_map(before)[l]) by {
        law_restore_snapshot(before, after, snapshot, l);
        law_snapshot_is_current(before, l);
        law_snapshot_is_current(restored, l);
    }
    assert(snapshot_map(restored) =~= snapshot_map(before));
}

} // verus!
