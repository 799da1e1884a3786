//! Deinit emission: which semantic types need deinit, and the drop code emitted
//! for a place, for a scope's locals at its exit, and before early exits.
//!
//! The emitted code is described by a model over the blocks, the current block and
//! the interned names: a drop appends statements to the current block, and an enum
//! whose variants hold values needing deinit switches on its variant into fresh
//! blocks that all jump to a fresh join block, where emission continues.

use vstd::prelude::*;

use crate::context::{DeinitStatus, LoweringContext, ScopeInfo};
use crate::mir::LocalId;
use crate::sem::TyRef;
use crate::mir::{
    blocks_view, interned, name_pos, names_view, BlockId, BlockV, CallArg, CallArgV, Callee,
    CalleeV, FunctionId, MirContext, NameId, PassingMode, Place, PlaceV, StatementKind, StmtV,
    TermV, TerminatorKind, Value, ValueV,
};
use crate::name::{deinit_function_name_segments, deinit_function_segments};
use crate::sem::{
    any_case_needs_deinit, any_field_needs_deinit, any_ty_needs_deinit, needs_deinit, CaseDecl,
    FieldDecl, SemTy, TypeDecl,
};
use crate::text::string_views;

verus! {

/// What deinit emission changes: the blocks, the current block and the interned names.
pub struct EmitState {
    pub blocks: Seq<BlockV>,
    pub has_cur: bool,
    pub cur: nat,
    pub names: Seq<Seq<Seq<char>>>,
}

/// The emission state of a context.
pub open spec fn emit_state(ctx: &LoweringContext) -> EmitState {
    EmitState {
        blocks: blocks_view(ctx.mir.blocks@),
        has_cur: ctx.current_block is Some,
        cur: match ctx.current_block {
            Some(b) => b.0 as nat,
            None => 0,
        },
        names: names_view(ctx.mir.names@),
    }
}

/// A statement appended to the current block.
pub open spec fn push_stmt(st: EmitState, s: StmtV) -> EmitState {
    let b = st.blocks[st.cur as int];
    EmitState {
        blocks: st.blocks.update(st.cur as int, BlockV { statements: b.statements.push(s), terminator: b.terminator }),
        ..st
    }
}

/// The current block terminated by `t`.
pub open spec fn set_term(st: EmitState, t: TermV) -> EmitState {
    let b = st.blocks[st.cur as int];
    EmitState {
        blocks: st.blocks.update(st.cur as int, BlockV { statements: b.statements, terminator: Some(t) }),
        ..st
    }
}

/// A block with no statements and no terminator.
pub open spec fn empty_block() -> BlockV {
    BlockV { statements: Seq::empty(), terminator: None }
}

/// `k` empty blocks appended.
pub open spec fn with_new_blocks(st: EmitState, k: nat) -> EmitState {
    EmitState { blocks: st.blocks + Seq::new(k, |i: int| empty_block()), ..st }
}

/// Emission continued in block `b`.
pub open spec fn at_block(st: EmitState, b: nat) -> EmitState {
    EmitState { has_cur: true, cur: b, ..st }
}

/// There is no current block or it is terminated: nothing more is emitted there.
pub open spec fn st_terminated(st: EmitState) -> bool {
    !st.has_cur || st.blocks[st.cur as int].terminator is Some
}

/// The call of a type's deinit function on `place` (by mutable reference), when the
/// type has a deinit block; the function's name is interned.
pub open spec fn call_model(st: EmitState, place: PlaceV, d: &TypeDecl) -> EmitState {
    if d.has_deinit {
        let segs = deinit_function_segments(d);
        push_stmt(
            EmitState { names: interned(st.names, segs), ..st },
            StmtV::Call {
                callee: CalleeV::Direct { name: NameId(name_pos(st.names, segs) as usize), type_args: Seq::empty() },
                args: seq![CallArgV { value: ValueV::Place(place), mode: PassingMode::MutRef }],
            },
        )
    } else {
        st
    }
}

/// The cases of the variant switch: each case to its block (`join + 1`, ...), then
/// a default case `_` to the block after them.
pub open spec fn switch_targets(cases: Seq<CaseDecl>, join: nat) -> Seq<(Seq<char>, BlockId)> {
    Seq::new(cases.len(), |i: int| (cases[i].name@, BlockId((join + 1 + i) as usize))).push(
        ("_"@, BlockId((join + 1 + cases.len()) as usize)),
    )
}

/// The drop of a value of type `ty` at `place`. A struct calls its deinit function,
/// then drops the fields that need deinit, last declared first. An enum calls its
/// deinit function; when some variant holds a value needing deinit, it switches on
/// the variant (join block, one block per case, a default block, in that order of
/// creation): each case's block drops the case's payloads that need deinit (last
/// first) and jumps to the join block, as does the default block, and emission
/// continues in the join block. Any other type gets a plain deinit.
pub open spec fn drop_model(st: EmitState, place: PlaceV, ty: &SemTy) -> EmitState
    decreases ty, 4nat,
{
    match ty {
        SemTy::Struct(d) => fields_model(call_model(st, place, d), place, d.fields@),
        SemTy::Enum(d) => {
            let s1 = call_model(st, place, d);
            if !any_case_needs_deinit(d.cases@) {
                s1
            } else {
                let join = s1.blocks.len();
                let k = d.cases@.len();
                let s2 = set_term(
                    with_new_blocks(s1, k + 2),
                    TermV::Switch { discriminant: place, cases: switch_targets(d.cases@, join) },
                );
                let s3 = cases_model(s2, place, d.cases@, join);
                let s4 = set_term(at_block(s3, join + 1 + k), TermV::Jump(BlockId(join as usize)));
                at_block(s4, join)
            }
        },
        _ => push_stmt(st, StmtV::Deinit { place }),
    }
}

/// The drops of the fields that need deinit, last field first.
pub open spec fn fields_model(st: EmitState, place: PlaceV, fs: Seq<FieldDecl>) -> EmitState
    decreases fs, 3nat,
{
    if fs.len() == 0 {
        st
    } else {
        let f = fs.last();
        let st1 = if needs_deinit(&f.ty) {
            drop_model(st, PlaceV::Field(Box::new(place), f.name@), &f.ty)
        } else {
            st
        };
        fields_model(st1, place, fs.drop_last())
    }
}

/// The variant blocks of the cases, first case first: case `i` is emitted in block
/// `join + 1 + i`, drops its payloads and jumps to the join block.
pub open spec fn cases_model(st: EmitState, place: PlaceV, cs: Seq<CaseDecl>, join: nat) -> EmitState
    decreases cs, 2nat,
{
    if cs.len() == 0 {
        st
    } else {
        let s1 = cases_model(st, place, cs.drop_last(), join);
        let c = cs.last();
        let s2 = at_block(s1, join + cs.len());
        let s3 = match c.payload {
            Some(ps) => payloads_model(s2, PlaceV::Downcast(Box::new(place), c.name@), ps@),
            None => s2,
        };
        set_term(s3, TermV::Jump(BlockId(join as usize)))
    }
}

/// The drops of a case's payloads that need deinit, last first; payload `i` is at
/// index `i` of the variant place.
pub open spec fn payloads_model(st: EmitState, base: PlaceV, ps: Seq<SemTy>) -> EmitState
    decreases ps, 1nat,
{
    if ps.len() == 0 {
        st
    } else {
        let t = ps.last();
        let st1 = if needs_deinit(&t) {
            drop_model(st, PlaceV::Index(Box::new(base), (ps.len() - 1) as usize), &t)
        } else {
            st
        };
        payloads_model(st1, base, ps.drop_last())
    }
}

/// Dropping a value of this type emits something.
pub open spec fn drop_touches(ty: &SemTy) -> bool {
    match ty {
        SemTy::Struct(d) => d.has_deinit || any_field_needs_deinit(d.fields@),
        SemTy::Enum(d) => d.has_deinit || any_case_needs_deinit(d.cases@),
        _ => true,
    }
}

/// Dropping a value of this type creates blocks (switches on an enum's variant).
pub open spec fn drop_branches(ty: &SemTy) -> bool
    decreases ty, 3nat,
{
    match ty {
        SemTy::Struct(d) => fields_branch(d.fields@),
        SemTy::Enum(d) => any_case_needs_deinit(d.cases@),
        _ => false,
    }
}

/// Dropping some field that needs deinit creates blocks.
pub open spec fn fields_branch(fs: Seq<FieldDecl>) -> bool
    decreases fs, 2nat,
{
    if fs.len() == 0 {
        false
    } else {
        fields_branch(fs.drop_last()) || (needs_deinit(&fs.last().ty) && drop_branches(&fs.last().ty))
    }
}

/// The MIR grew only by blocks of function `f` (none when there is no function), and
/// by blocks, statements, terminators and names that the emission state describes.
pub open spec fn mir_grown(old: &MirContext, new: &MirContext, f: Option<FunctionId>) -> bool {
    &&& new.types == old.types
    &&& new.locals == old.locals
    &&& new.statics == old.statics
    &&& old.blocks@.len() <= new.blocks@.len()
    &&& new.functions@.len() == old.functions@.len()
    &&& forall|j: int|
        0 <= j < old.functions@.len() && !(f matches Some(g) && j == g.0) ==> new.functions@[j] == old.functions@[j]
    &&& f is None ==> new.blocks@.len() == old.blocks@.len()
    &&& f matches Some(g) ==> {
        &&& new.functions@[g.0 as int].name == old.functions@[g.0 as int].name
        &&& new.functions@[g.0 as int].params == old.functions@[g.0 as int].params
        &&& new.functions@[g.0 as int].locals == old.functions@[g.0 as int].locals
        &&& new.functions@[g.0 as int].return_ty == old.functions@[g.0 as int].return_ty
        &&& new.functions@[g.0 as int].entry_block == old.functions@[g.0 as int].entry_block
        &&& new.functions@[g.0 as int].blocks@ == old.functions@[g.0 as int].blocks@ + Seq::new(
            (new.blocks@.len() - old.blocks@.len()) as nat,
            |i: int| BlockId((old.blocks@.len() + i) as usize),
        )
    }
}

pub(crate) proof fn lemma_mir_grown_refl(m: &MirContext, f: Option<FunctionId>)
    ensures
        mir_grown(m, m, f),
{
    if let Some(g) = f {
        assert(m.functions@[g.0 as int].blocks@ =~= m.functions@[g.0 as int].blocks@ + Seq::new(
            0,
            |i: int| BlockId((m.blocks@.len() + i) as usize),
        ));
    }
}

pub(crate) proof fn lemma_mir_grown_trans(a: &MirContext, b: &MirContext, c: &MirContext, f: Option<FunctionId>)
    requires
        mir_grown(a, b, f),
        mir_grown(b, c, f),
    ensures
        mir_grown(a, c, f),
{
    if let Some(g) = f {
        let la = a.blocks@.len();
        let lb = b.blocks@.len();
        let lc = c.blocks@.len();
        assert(c.functions@[g.0 as int].blocks@ =~= a.functions@[g.0 as int].blocks@ + Seq::new(
            (lc - la) as nat,
            |i: int| BlockId((la + i) as usize),
        ));
    }
}

impl LoweringContext {
    /// Appends a statement to the current block (an emission step).
    pub(crate) fn push_model_stmt(&mut self, kind: StatementKind)
        requires
            old(self).inv(),
            old(self).cur_block() is Some,
        ensures
            final(self).inv(),
            final(self).same_state(old(self)),
            emit_state(final(self)) == push_stmt(emit_state(old(self)), kind@),
            mir_grown(&old(self).mir, &final(self).mir, old(self).cur_function()),
    {
        let ghost k = kind@;
        let ghost b = self.current_block.unwrap();
        self.emit_statement(kind);
        proof {
            let o = emit_state(old(self));
            assert(blocks_view(self.mir.blocks@) =~= push_stmt(o, k).blocks) by {
                assert forall|j: int| 0 <= j < self.mir.blocks@.len() implies blocks_view(self.mir.blocks@)[j]
                    == push_stmt(o, k).blocks[j] by {
                    if j != b.0 {
                        assert(self.mir.blocks@[j] == old(self).mir.blocks@[j]);
                    }
                }
            }
            lemma_mir_grown_refl(&self.mir, old(self).cur_function());
        }
    }

    /// Terminates the current block (an emission step).
    pub(crate) fn set_model_term(&mut self, kind: TerminatorKind)
        requires
            old(self).inv(),
            old(self).cur_block() is Some,
        ensures
            final(self).inv(),
            final(self).same_state(old(self)),
            emit_state(final(self)) == set_term(emit_state(old(self)), kind@),
            mir_grown(&old(self).mir, &final(self).mir, old(self).cur_function()),
    {
        let ghost k = kind@;
        let ghost b = self.current_block.unwrap();
        self.emit_terminator(kind);
        proof {
            let o = emit_state(old(self));
            assert(blocks_view(self.mir.blocks@) =~= set_term(o, k).blocks) by {
                assert forall|j: int| 0 <= j < self.mir.blocks@.len() implies blocks_view(self.mir.blocks@)[j]
                    == set_term(o, k).blocks[j] by {
                    if j != b.0 {
                        assert(self.mir.blocks@[j] == old(self).mir.blocks@[j]);
                    }
                }
            }
            lemma_mir_grown_refl(&self.mir, old(self).cur_function());
        }
    }

    /// Creates an empty block of the current function (an emission step).
    fn new_model_block(&mut self) -> (r: BlockId)
        requires
            old(self).inv(),
            old(self).cur_function() is Some,
        ensures
            final(self).inv(),
            final(self).same_state(old(self)),
            r.0 == old(self).mir.blocks@.len(),
            emit_state(final(self)) == with_new_blocks(emit_state(old(self)), 1),
            mir_grown(&old(self).mir, &final(self).mir, old(self).cur_function()),
    {
        let r = self.create_block();
        proof {
            let o = emit_state(old(self));
            assert(blocks_view(self.mir.blocks@) =~= with_new_blocks(o, 1).blocks) by {
                assert forall|j: int| 0 <= j < self.mir.blocks@.len() implies blocks_view(self.mir.blocks@)[j]
                    == with_new_blocks(o, 1).blocks[j] by {
                    if j < old(self).mir.blocks@.len() {
                        assert(self.mir.blocks@[j] == old(self).mir.blocks@[j]);
                    } else {
                        assert(crate::mir::stmts_view(self.mir.blocks@[j].statements@) =~= Seq::<StmtV>::empty());
                    }
                }
            }
            let f = old(self).cur_function();
            let g = f.unwrap();
            assert(self.mir.functions@[g.0 as int].blocks@ =~= old(self).mir.functions@[g.0 as int].blocks@ + Seq::new(
                1,
                |i: int| BlockId((old(self).mir.blocks@.len() + i) as usize),
            ));
        }
        r
    }

    /// Continues emission in block `b` (an emission step).
    fn set_model_block(&mut self, b: BlockId)
        requires
            old(self).inv(),
            b.0 < old(self).mir.blocks@.len(),
        ensures
            final(self).inv(),
            final(self).same_but_block(old(self)),
            final(self).mir == old(self).mir,
            final(self).cur_block() == Some(b),
            emit_state(final(self)) == at_block(emit_state(old(self)), b.0 as nat),
    {
        self.set_current_block(b);
    }

    /// Emits the call of a type's deinit function on `place`, when it has one.
    fn emit_deinit_call(&mut self, place: &Place, decl: &TypeDecl)
        requires
            old(self).inv(),
            decl.has_deinit ==> old(self).cur_block() is Some,
        ensures
            final(self).inv(),
            final(self).same_state(old(self)),
            emit_state(final(self)) == call_model(emit_state(old(self)), place@, decl),
            mir_grown(&old(self).mir, &final(self).mir, old(self).cur_function()),
    {
        if decl.has_deinit {
            let segs = deinit_function_name_segments(decl);
            let ghost sv = string_views(segs@);
            let ghost m0 = self.mir;
            let id = self.mir.intern_name(segs);
            assert(sv == deinit_function_segments(decl));
            let ghost s1 = emit_state(self);
            proof {
                assert(blocks_view(self.mir.blocks@) == blocks_view(m0.blocks@));
                lemma_mir_grown_refl(&self.mir, old(self).cur_function());
            }
            let ghost m1 = self.mir;
            let args = vec![CallArg::mutating(Value::Place(place.duplicate()))];
            assert(crate::mir::args_view(args@) =~= seq![CallArgV { value: ValueV::Place(place@), mode: PassingMode::MutRef }]);
            let callee = Callee::direct(id);
            assert(callee@ == CalleeV::Direct { name: id, type_args: Seq::empty() });
            self.push_model_stmt(StatementKind::Call { callee, args });
            proof {
                lemma_mir_grown_trans(&old(self).mir, &m1, &self.mir, old(self).cur_function());
            }
        } else {
            proof {
                lemma_mir_grown_refl(&self.mir, old(self).cur_function());
            }
        }
    }
}


proof fn lemma_take_step<A>(s: Seq<A>, i: int)
    requires
        0 <= i < s.len(),
    ensures
        s.take(i + 1).drop_last() == s.take(i),
        s.take(i + 1).last() == s[i],
{
    assert(s.take(i + 1).drop_last() =~= s.take(i));
}

impl LoweringContext {
    /// Whether a type needs deinit (has a non-trivial drop): a struct or enum that is
    /// not copyable and has a deinit block, or holds in a field (struct) or a case
    /// payload (enum) a value whose type needs deinit. Other types do not.
    pub fn type_needs_deinit(&self, ty: &SemTy) -> (r: bool)
        ensures
            r == needs_deinit(ty),
        decreases ty, 1nat,
    {
        match ty {
            SemTy::Struct(d) => {
                if d.copyable {
                    return false;
                }
                if d.has_deinit {
                    return true;
                }
                let mut i: usize = 0;
                assert(d.fields@.take(0) =~= Seq::<FieldDecl>::empty());
                while i < d.fields.len()
                    invariant
                        *ty == SemTy::Struct(*d),
                        !d.copyable,
                        !d.has_deinit,
                        i <= d.fields@.len(),
                        !any_field_needs_deinit(d.fields@.take(i as int)),
                    decreases d.fields.len() - i,
                {
                    proof {
                        assert(decreases_to!(*ty => (*ty)->Struct_0));
                        assert(decreases_to!(*d => d.fields));
                        assert(decreases_to!(d.fields => d.fields@[i as int]));
                        assert(decreases_to!(d.fields@[i as int] => d.fields@[i as int].ty));
                        assert(decreases_to!(*ty => d.fields@[i as int].ty));
                        lemma_take_step(d.fields@, i as int);
                    }
                    if self.type_needs_deinit(&d.fields[i].ty) {
                        proof {
                            assert(any_field_needs_deinit(d.fields@.take(i + 1)));
                            lemma_any_field_prefix(d.fields@, i + 1);
                        }
                        return true;
                    }
                    i = i + 1;
                }
                assert(d.fields@.take(i as int) =~= d.fields@);
                false
            },
            SemTy::Enum(d) => {
                if d.copyable {
                    return false;
                }
                if d.has_deinit {
                    return true;
                }
                proof {
                    assert(decreases_to!(*ty => (*ty)->Enum_0));
                }
                self.enum_has_payload_needing_deinit(d)
            },
            _ => false,
        }
    }

    /// Whether some case of an enum has a payload whose type needs deinit.
    fn enum_has_payload_needing_deinit(&self, decl: &TypeDecl) -> (r: bool)
        ensures
            r == any_case_needs_deinit(decl.cases@),
        decreases decl, 0nat,
    {
        let mut i: usize = 0;
        assert(decl.cases@.take(0) =~= Seq::<CaseDecl>::empty());
        while i < decl.cases.len()
            invariant
                i <= decl.cases@.len(),
                !any_case_needs_deinit(decl.cases@.take(i as int)),
            decreases decl.cases.len() - i,
        {
            proof {
                lemma_take_step(decl.cases@, i as int);
            }
            match &decl.cases[i].payload {
                Some(ps) => {
                    let mut j: usize = 0;
                    assert(ps@.take(0) =~= Seq::<SemTy>::empty());
                    while j < ps.len()
                        invariant
                            i < decl.cases@.len(),
                            decl.cases@[i as int].payload == Some(*ps),
                            j <= ps@.len(),
                            !any_ty_needs_deinit(ps@.take(j as int)),
                        decreases ps.len() - j,
                    {
                        proof {
                            assert(decreases_to!(*decl => decl.cases));
                            assert(decreases_to!(decl.cases => decl.cases@[i as int]));
                            assert(decreases_to!(decl.cases@[i as int] => decl.cases@[i as int].payload));
                            assert(decreases_to!(decl.cases@[i as int].payload => (decl.cases@[i as int].payload)->Some_0));
                            assert(decreases_to!(*ps => ps@[j as int]));
                            assert(decreases_to!(*decl => ps@[j as int]));
                            lemma_take_step(ps@, j as int);
                        }
                        if self.type_needs_deinit(&ps[j]) {
                            proof {
                                assert(any_ty_needs_deinit(ps@.take(j + 1)));
                                lemma_any_ty_prefix(ps@, j + 1);
                                assert(any_case_needs_deinit(decl.cases@.take(i + 1)));
                                lemma_any_case_prefix(decl.cases@, i + 1);
                            }
                            return true;
                        }
                        j = j + 1;
                    }
                    assert(ps@.take(j as int) =~= ps@);
                },
                None => {},
            }
            i = i + 1;
        }
        assert(decl.cases@.take(i as int) =~= decl.cases@);
        false
    }
}

proof fn lemma_any_field_prefix(fs: Seq<FieldDecl>, i: int)
    requires
        0 <= i <= fs.len(),
        any_field_needs_deinit(fs.take(i)),
    ensures
        any_field_needs_deinit(fs),
    decreases fs.len() - i,
{
    if i < fs.len() {
        lemma_take_step(fs, i);
        lemma_any_field_prefix(fs, i + 1);
    } else {
        assert(fs.take(i) =~= fs);
    }
}

proof fn lemma_any_case_prefix(cs: Seq<CaseDecl>, i: int)
    requires
        0 <= i <= cs.len(),
        any_case_needs_deinit(cs.take(i)),
    ensures
        any_case_needs_deinit(cs),
    decreases cs.len() - i,
{
    if i < cs.len() {
        lemma_take_step(cs, i);
        lemma_any_case_prefix(cs, i + 1);
    } else {
        assert(cs.take(i) =~= cs);
    }
}

proof fn lemma_any_ty_prefix(ts: Seq<SemTy>, i: int)
    requires
        0 <= i <= ts.len(),
        any_ty_needs_deinit(ts.take(i)),
    ensures
        any_ty_needs_deinit(ts),
    decreases ts.len() - i,
{
    if i < ts.len() {
        lemma_take_step(ts, i);
        lemma_any_ty_prefix(ts, i + 1);
    } else {
        assert(ts.take(i) =~= ts);
    }
}


proof fn lemma_fields_branch_prefix(fs: Seq<FieldDecl>, i: int)
    requires
        0 <= i <= fs.len(),
        fields_branch(fs.take(i)),
    ensures
        fields_branch(fs),
    decreases fs.len() - i,
{
    if i < fs.len() {
        lemma_take_step(fs, i);
        lemma_fields_branch_prefix(fs, i + 1);
    } else {
        assert(fs.take(i) =~= fs);
    }
}

proof fn lemma_new_blocks_step(st: EmitState, k: nat)
    ensures
        with_new_blocks(with_new_blocks(st, k), 1) == with_new_blocks(st, k + 1),
{
    assert(with_new_blocks(with_new_blocks(st, k), 1).blocks =~= with_new_blocks(st, k + 1).blocks);
}

impl LoweringContext {
    /// The drop code for a value of type `ty` at `place` (see `drop_model`).
    fn emit_drop(&mut self, place: &Place, ty: &SemTy)
        requires
            old(self).inv(),
            drop_touches(ty) ==> old(self).cur_block() is Some,
            drop_branches(ty) ==> old(self).cur_function() is Some,
        ensures
            final(self).inv(),
            final(self).same_but_block(old(self)),
            (final(self).cur_block() is Some) == (old(self).cur_block() is Some),
            emit_state(final(self)) == drop_model(emit_state(old(self)), place@, ty),
            mir_grown(&old(self).mir, &final(self).mir, old(self).cur_function()),
        decreases ty,
    {
        let ghost f = old(self).cur_function();
        match ty {
            SemTy::Struct(d) => {
                self.emit_deinit_call(place, d);
                let ghost fs = d.fields@;
                let n = d.fields.len();
                let mut i: usize = n;
                assert(fs.take(n as int) =~= fs);
                while i > 0
                    invariant
                        *ty == SemTy::Struct(*d),
                        fs == d.fields@,
                        i <= fs.len(),
                        f == old(self).cur_function(),
                        self.inv(),
                        self.same_but_block(old(self)),
                        (self.cur_block() is Some) == (old(self).cur_block() is Some),
                        drop_touches(ty) ==> old(self).cur_block() is Some,
                        drop_branches(ty) ==> old(self).cur_function() is Some,
                        mir_grown(&old(self).mir, &self.mir, f),
                        drop_model(emit_state(old(self)), place@, ty) == fields_model(emit_state(self), place@, fs.take(i as int)),
                    decreases i,
                {
                    proof {
                        lemma_take_step(fs, i - 1);
                        assert(decreases_to!(*ty => (*ty)->Struct_0));
                        assert(decreases_to!(*d => d.fields));
                        assert(decreases_to!(d.fields => d.fields@[i - 1]));
                        assert(decreases_to!(d.fields@[i - 1] => d.fields@[i - 1].ty));
                        assert(decreases_to!(*ty => d.fields@[i - 1].ty));
                    }
                    let field = &d.fields[i - 1];
                    if self.type_needs_deinit(&field.ty) {
                        proof {
                            assert(any_field_needs_deinit(fs.take(i as int)));
                            lemma_any_field_prefix(fs, i as int);
                            if drop_branches(&field.ty) {
                                assert(fields_branch(fs.take(i as int)));
                                lemma_fields_branch_prefix(fs, i as int);
                            }
                        }
                        let ghost m0 = self.mir;
                        let fp = place.duplicate().field(field.name.as_str());
                        self.emit_drop(&fp, &field.ty);
                        proof {
                            lemma_mir_grown_trans(&old(self).mir, &m0, &self.mir, f);
                        }
                    }
                    i = i - 1;
                }
            },
            SemTy::Enum(d) => {
                self.emit_deinit_call(place, d);
                if !self.enum_has_payload_needing_deinit(d) {
                    return;
                }
                let ghost s1 = emit_state(self);
                let ghost cs = d.cases@;
                let ghost m1 = self.mir;
                let join = self.new_model_block();
                proof {
                    lemma_mir_grown_trans(&old(self).mir, &m1, &self.mir, f);
                }
                let mut switch_cases: Vec<(String, BlockId)> = Vec::new();
                let mut variant_blocks: Vec<BlockId> = Vec::new();
                let mut i: usize = 0;
                while i < d.cases.len()
                    invariant
                        *ty == SemTy::Enum(*d),
                        cs == d.cases@,
                        i <= cs.len(),
                        f == old(self).cur_function(),
                        f is Some,
                        self.inv(),
                        self.same_but_block(old(self)),
                        self.cur_block() == old(self).cur_block(),
                        self.cur_block() is Some,
                        mir_grown(&old(self).mir, &self.mir, f),
                        join.0 == s1.blocks.len(),
                        emit_state(self) == with_new_blocks(s1, (i + 1) as nat),
                        variant_blocks@.len() == i,
                        forall|k: int| 0 <= k < i ==> variant_blocks@[k].0 == join.0 + 1 + k,
                        crate::mir::cases_view(switch_cases@) == Seq::new(i as nat, |k: int| (cs[k].name@, BlockId((join.0 + 1 + k) as usize))),
                    decreases d.cases.len() - i,
                {
                    let ghost m2 = self.mir;
                    assert(blocks_view(self.mir.blocks@).len() == self.mir.blocks@.len());
                    assert(self.mir.blocks@.len() == s1.blocks.len() + i + 1);
                    let b = self.new_model_block();
                    assert(b.0 == join.0 + 1 + i);
                    proof {
                        lemma_mir_grown_trans(&old(self).mir, &m2, &self.mir, f);
                        lemma_new_blocks_step(s1, (i + 1) as nat);
                    }
                    let ghost before = switch_cases@;
                    let nm = crate::text::copy_string(&d.cases[i].name);
                    let ghost entry = (nm, b);
                    switch_cases.push((nm, b));
                    variant_blocks.push(b);
                    proof {
                        assert(switch_cases@ == before.push(entry));
                        assert(crate::mir::cases_view(switch_cases@) =~= crate::mir::cases_view(before).push((cs[i as int].name@, b)));
                        assert(Seq::new((i + 1) as nat, |k: int| (cs[k].name@, BlockId((join.0 + 1 + k) as usize))) =~= Seq::new(
                            i as nat,
                            |k: int| (cs[k].name@, BlockId((join.0 + 1 + k) as usize)),
                        ).push((cs[i as int].name@, b)));
                    }
                    i = i + 1;
                }
                let ghost m3 = self.mir;
                let default_block = self.new_model_block();
                proof {
                    lemma_mir_grown_trans(&old(self).mir, &m3, &self.mir, f);
                    lemma_new_blocks_step(s1, (i + 1) as nat);
                }
                assert(default_block.0 == join.0 + 1 + cs.len());
                switch_cases.push((crate::text::owned("_"), default_block));
                assert(crate::mir::cases_view(switch_cases@) =~= switch_targets(cs, join.0 as nat));
                let ghost m4 = self.mir;
                self.set_model_term(TerminatorKind::Switch { discriminant: place.duplicate(), cases: switch_cases });
                proof {
                    lemma_mir_grown_trans(&old(self).mir, &m4, &self.mir, f);
                }
                let ghost s2 = emit_state(self);
                let ghost k = cs.len();
                assert(blocks_view(self.mir.blocks@).len() == self.mir.blocks@.len());
                assert(self.mir.blocks@.len() == s1.blocks.len() + k + 2);
                let mut i: usize = 0;
                assert(cs.take(0) =~= Seq::<CaseDecl>::empty());
                while i < d.cases.len()
                    invariant
                        *ty == SemTy::Enum(*d),
                        cs == d.cases@,
                        k == cs.len(),
                        i <= cs.len(),
                        f == old(self).cur_function(),
                        f is Some,
                        self.inv(),
                        self.same_but_block(old(self)),
                        self.cur_block() is Some,
                        mir_grown(&old(self).mir, &self.mir, f),
                        join.0 == s1.blocks.len(),
                        self.mir.blocks@.len() >= join.0 + k + 2,
                        variant_blocks@.len() == k,
                        forall|q: int| 0 <= q < k ==> variant_blocks@[q].0 == join.0 + 1 + q,
                        emit_state(self) == cases_model(s2, place@, cs.take(i as int), join.0 as nat),
                    decreases d.cases.len() - i,
                {
                    proof {
                        lemma_take_step(cs, i as int);
                    }
                    let ghost prev = emit_state(self);
                    let b = variant_blocks[i];
                    assert(join.0 + 1 + i < self.mir.blocks@.len());
                    assert(b.0 == join.0 + 1 + i);
                    self.set_model_block(b);
                    let ghost sb = emit_state(self);
                    assert(sb == at_block(prev, (join.0 + cs.take(i + 1).len()) as nat));
                    match &d.cases[i].payload {
                        Some(ps) => {
                            let ghost base = PlaceV::Downcast(Box::new(place@), cs[i as int].name@);
                            let mut j: usize = ps.len();
                            assert(ps@.take(j as int) =~= ps@);
                            while j > 0
                                invariant
                                    *ty == SemTy::Enum(*d),
                                    cs == d.cases@,
                                    i < cs.len(),
                                    cs[i as int].payload == Some(*ps),
                                    base == PlaceV::Downcast(Box::new(place@), cs[i as int].name@),
                                    j <= ps@.len(),
                                    f == old(self).cur_function(),
                                    f is Some,
                                    self.inv(),
                                    self.same_but_block(old(self)),
                                    self.cur_block() is Some,
                                    mir_grown(&old(self).mir, &self.mir, f),
                                    self.mir.blocks@.len() >= join.0 + k + 2,
                                    k == cs.len(),
                                    payloads_model(sb, base, ps@) == payloads_model(emit_state(self), base, ps@.take(j as int)),
                                decreases j,
                            {
                                proof {
                                    lemma_take_step(ps@, j - 1);
                                    assert(decreases_to!(*ty => (*ty)->Enum_0));
                                    assert(decreases_to!(*d => d.cases));
                                    assert(decreases_to!(d.cases => d.cases@[i as int]));
                                    assert(decreases_to!(d.cases@[i as int] => d.cases@[i as int].payload));
                                    assert(decreases_to!(d.cases@[i as int].payload => (d.cases@[i as int].payload)->Some_0));
                                    assert(decreases_to!(*ps => ps@[j - 1]));
                                    assert(decreases_to!(*ty => ps@[j - 1]));
                                }
                                if self.type_needs_deinit(&ps[j - 1]) {
                                    let ghost m5 = self.mir;
                                    let pp = place.duplicate().downcast(d.cases[i].name.as_str()).index(j - 1);
                                    self.emit_drop(&pp, &ps[j - 1]);
                                    proof {
                                        lemma_mir_grown_trans(&old(self).mir, &m5, &self.mir, f);
                                    }
                                }
                                j = j - 1;
                            }
                            assert(ps@.take(0) =~= Seq::<SemTy>::empty());
                        },
                        None => {},
                    }
                    let ghost m6 = self.mir;
                    let ghost st3 = emit_state(self);
                    assert(st3 == match cs[i as int].payload {
                        Some(ps) => payloads_model(sb, PlaceV::Downcast(Box::new(place@), cs[i as int].name@), ps@),
                        None => sb,
                    });
                    self.set_model_term(TerminatorKind::Jump(join));
                    proof {
                        lemma_mir_grown_trans(&old(self).mir, &m6, &self.mir, f);
                        assert(emit_state(self) == set_term(st3, TermV::Jump(join)));
                        assert(cs.take(i + 1).last() == cs[i as int]);
                        assert(cases_model(s2, place@, cs.take(i + 1), join.0 as nat) == set_term(st3, TermV::Jump(BlockId(join.0))));
                    }
                    i = i + 1;
                }
                assert(cs.take(k as int) =~= cs);
                self.set_model_block(default_block);
                let ghost m7 = self.mir;
                self.set_model_term(TerminatorKind::Jump(join));
                proof {
                    lemma_mir_grown_trans(&old(self).mir, &m7, &self.mir, f);
                }
                self.set_model_block(join);
            },
            _ => {
                self.push_model_stmt(StatementKind::Deinit { place: place.duplicate() });
            },
        }
    }

    /// Emits the deinit of a place: without type information a plain deinit;
    /// otherwise the drop code of its type (see `drop_model`).
    pub fn emit_deinit_for_place(&mut self, place: &Place, ty: Option<&SemTy>)
        requires
            old(self).inv(),
            match ty {
                None => old(self).cur_block() is Some,
                Some(t) => {
                    &&& drop_touches(t) ==> old(self).cur_block() is Some
                    &&& drop_branches(t) ==> old(self).cur_function() is Some
                },
            },
        ensures
            final(self).inv(),
            final(self).same_but_block(old(self)),
            (final(self).cur_block() is Some) == (old(self).cur_block() is Some),
            emit_state(final(self)) == match ty {
                None => push_stmt(emit_state(old(self)), StmtV::Deinit { place: place@ }),
                Some(t) => drop_model(emit_state(old(self)), place@, t),
            },
            mir_grown(&old(self).mir, &final(self).mir, old(self).cur_function()),
    {
        match ty {
            None => {
                self.push_model_stmt(StatementKind::Deinit { place: place.duplicate() });
            },
            Some(t) => {
                self.emit_drop(place, t);
            },
        }
    }
}


/// The drop of one local at its scope's exit: a valid local is dropped by its type
/// (a plain deinit without one), a maybe-moved local gets a deinit guarded by its
/// flag, and a moved or untracked local nothing.
pub open spec fn local_drop_model(
    st: EmitState,
    l: LocalId,
    statuses: Map<LocalId, DeinitStatus>,
    types: Map<LocalId, TyRef>,
) -> EmitState {
    if statuses.contains_key(l) {
        match statuses[l] {
            DeinitStatus::Valid => if types.contains_key(l) {
                drop_model(st, PlaceV::Local(l), &*types[l])
            } else {
                push_stmt(st, StmtV::Deinit { place: PlaceV::Local(l) })
            },
            DeinitStatus::MaybeMoved { flag } => push_stmt(st, StmtV::DeinitIf { place: PlaceV::Local(l), flag }),
            DeinitStatus::Moved => st,
        }
    } else {
        st
    }
}

/// The drops of a scope's locals, in reverse declaration order.
pub open spec fn locals_drop_model(
    st: EmitState,
    locals: Seq<LocalId>,
    statuses: Map<LocalId, DeinitStatus>,
    types: Map<LocalId, TyRef>,
) -> EmitState
    decreases locals.len(),
{
    if locals.len() == 0 {
        st
    } else {
        locals_drop_model(local_drop_model(st, locals.last(), statuses, types), locals.drop_last(), statuses, types)
    }
}

/// The deinits at a scope's exit: none when the current block is terminated.
pub open spec fn scope_drop_model(st: EmitState, scope: ScopeInfo) -> EmitState {
    if st_terminated(st) {
        st
    } else {
        locals_drop_model(st, scope.locals@, scope.deinit_status.map(), scope.local_types.map())
    }
}

/// The deinits of scopes, innermost (last) first.
pub open spec fn scopes_drop_model(st: EmitState, scopes: Seq<ScopeInfo>) -> EmitState
    decreases scopes.len(),
{
    if scopes.len() == 0 {
        st
    } else {
        scopes_drop_model(scope_drop_model(st, scopes.last()), scopes.drop_last())
    }
}

/// Some valid local of the scope has a type whose drop creates blocks.
pub open spec fn scope_branches(scope: ScopeInfo) -> bool {
    exists|l: LocalId|
        #![trigger scope.local_types.map()[l]]
        scope.locals@.contains(l) && scope.deinit_status.map().contains_key(l)
            && scope.deinit_status.map()[l] == DeinitStatus::Valid && scope.local_types.map().contains_key(l)
            && drop_branches(&*scope.local_types.map()[l])
}

/// Some scope of the sequence has a valid local whose drop creates blocks.
pub open spec fn any_scope_branches(scopes: Seq<ScopeInfo>) -> bool {
    exists|i: int| 0 <= i < scopes.len() && #[trigger] scope_branches(scopes[i])
}

/// The scopes above the given depth (all of them past the stack's end: none).
pub open spec fn scopes_from(scopes: Seq<ScopeInfo>, depth: int) -> Seq<ScopeInfo> {
    if depth <= scopes.len() {
        scopes.subrange(depth, scopes.len() as int)
    } else {
        Seq::empty()
    }
}

/// The scope depth of the innermost loop with the given id, or 0.
pub open spec fn loop_depth(loops: Seq<crate::context::LoopInfo>, id: crate::sem::LoopId) -> int {
    let i = crate::context::last_loop_with_id(loops, id);
    if i >= 0 {
        loops[i].scope_depth as int
    } else {
        0
    }
}

impl LoweringContext {
    /// Emits the deinits for a scope's locals in reverse declaration order (nothing
    /// when the current block is terminated): see `scope_drop_model`.
    pub fn emit_scope_deinits(&mut self, scope: &ScopeInfo)
        requires
            old(self).inv(),
            scope.wf(),
            scope_branches(*scope) ==> old(self).cur_function() is Some,
        ensures
            final(self).inv(),
            final(self).same_but_block(old(self)),
            (final(self).cur_block() is Some) == (old(self).cur_block() is Some),
            emit_state(final(self)) == scope_drop_model(emit_state(old(self)), *scope),
            mir_grown(&old(self).mir, &final(self).mir, old(self).cur_function()),
    {
        let ghost f = old(self).cur_function();
        proof {
            lemma_mir_grown_refl(&self.mir, f);
        }
        if self.is_block_terminated() {
            return;
        }
        let ghost sm = scope.deinit_status.map();
        let ghost tm = scope.local_types.map();
        let ghost ls = scope.locals@;
        let mut i: usize = scope.locals.len();
        assert(ls.take(i as int) =~= ls);
        while i > 0
            invariant
                scope.wf(),
                sm == scope.deinit_status.map(),
                tm == scope.local_types.map(),
                ls == scope.locals@,
                i <= ls.len(),
                f == old(self).cur_function(),
                scope_branches(*scope) ==> f is Some,
                self.inv(),
                self.same_but_block(old(self)),
                self.cur_block() is Some,
                mir_grown(&old(self).mir, &self.mir, f),
                scope_drop_model(emit_state(old(self)), *scope) == locals_drop_model(emit_state(self), ls.take(i as int), sm, tm),
            decreases i,
        {
            proof {
                lemma_take_step(ls, i - 1);
            }
            let local = scope.locals[i - 1];
            let ghost m0 = self.mir;
            match scope.deinit_status.get(local) {
                Some(DeinitStatus::Valid) => {
                    let place = Place::local(local);
                    match scope.local_types.get(local) {
                        Some(t) => {
                            proof {
                                if drop_branches(&**t) {
                                    assert(ls.contains(local)) by {
                                        assert(ls[i - 1] == local);
                                    }
                                    assert(scope_branches(*scope));
                                }
                            }
                            self.emit_deinit_for_place(&place, Some(&**t));
                        },
                        None => {
                            self.emit_deinit_for_place(&place, None);
                        },
                    }
                },
                Some(DeinitStatus::MaybeMoved { flag }) => {
                    self.push_model_stmt(StatementKind::DeinitIf { place: Place::local(local), flag: *flag });
                },
                _ => {},
            }
            proof {
                lemma_mir_grown_trans(&old(self).mir, &m0, &self.mir, f);
            }
            i = i - 1;
        }
    }

    /// Exits the current scope, emitting the deinits of its locals.
    pub fn exit_scope(&mut self)
        requires
            old(self).inv(),
            old(self).scopes().len() > 0 && scope_branches(old(self).scopes().last())
                ==> old(self).cur_function() is Some,
        ensures
            final(self).inv(),
            old(self).scopes().len() == 0 ==> {
                &&& final(self).mir == old(self).mir
                &&& final(self).scopes().len() == 0
                &&& final(self).cur_block() == old(self).cur_block()
            },
            old(self).scopes().len() > 0 ==> {
                &&& final(self).scopes() == old(self).scopes().drop_last()
                &&& emit_state(final(self)) == scope_drop_model(emit_state(old(self)), old(self).scopes().last())
                &&& mir_grown(&old(self).mir, &final(self).mir, old(self).cur_function())
            },
            (final(self).cur_block() is Some) == (old(self).cur_block() is Some),
            final(self).cur_function() == old(self).cur_function(),
            final(self).type_param_view() == old(self).type_param_view(),
            final(self).local_map_view() == old(self).local_map_view(),
            final(self).loops() == old(self).loops(),
            final(self).temps() == old(self).temps(),
            final(self).diags() == old(self).diags(),
            final(self).temp_count() == old(self).temp_count(),
            final(self).closure_count() == old(self).closure_count(),
            final(self).flag_count() == old(self).flag_count(),
    {
        if let Some(scope) = self.scope_stack.pop() {
            proof {
                assert(scope.wf());
                assert forall|i: int| 0 <= i < self.scope_stack@.len() implies #[trigger] self.scope_stack@[i].wf() by {
                    assert(self.scope_stack@[i] == old(self).scope_stack@[i]);
                }
            }
            self.emit_scope_deinits(&scope);
        }
    }

    /// Emits the deinits of the scopes from the innermost to the scope at `depth`
    /// (all scopes for 0), each as at its exit.
    fn emit_scopes_deinits_from(&mut self, depth: usize)
        requires
            old(self).inv(),
            any_scope_branches(scopes_from(old(self).scopes(), depth as int)) ==> old(self).cur_function() is Some,
        ensures
            final(self).inv(),
            final(self).same_but_block(old(self)),
            (final(self).cur_block() is Some) == (old(self).cur_block() is Some),
            emit_state(final(self)) == scopes_drop_model(emit_state(old(self)), scopes_from(old(self).scopes(), depth as int)),
            mir_grown(&old(self).mir, &final(self).mir, old(self).cur_function()),
    {
        let ghost f = old(self).cur_function();
        let ghost all = scopes_from(self.scope_stack@, depth as int);
        proof {
            lemma_mir_grown_refl(&self.mir, f);
        }
        let n = self.scope_stack.len();
        if depth >= n {
            assert(all.len() == 0);
            return;
        }
        let mut i: usize = n;
        assert(all =~= self.scope_stack@.subrange(depth as int, n as int));
        while i > depth
            invariant
                depth < n,
                n == self.scope_stack@.len(),
                depth <= i <= n,
                all == old(self).scope_stack@.subrange(depth as int, n as int),
                f == old(self).cur_function(),
                any_scope_branches(all) ==> f is Some,
                self.inv(),
                self.same_but_block(old(self)),
                (self.cur_block() is Some) == (old(self).cur_block() is Some),
                mir_grown(&old(self).mir, &self.mir, f),
                scopes_drop_model(emit_state(old(self)), all) == scopes_drop_model(
                    emit_state(self),
                    old(self).scope_stack@.subrange(depth as int, i as int),
                ),
            decreases i,
        {
            let ghost sub = old(self).scope_stack@.subrange(depth as int, i as int);
            proof {
                assert(sub.drop_last() =~= old(self).scope_stack@.subrange(depth as int, i - 1));
                assert(sub.last() == self.scope_stack@[i - 1]);
                assert(self.scope_stack@[i - 1].wf());
                if scope_branches(self.scope_stack@[i - 1]) {
                    assert(all[i - 1 - depth] == self.scope_stack@[i - 1]);
                    assert(any_scope_branches(all));
                }
            }
            let scope = self.scope_stack[i - 1].duplicate();
            proof {
                lemma_same_scope_model(scope, self.scope_stack@[i - 1]);
            }
            let ghost m0 = self.mir;
            self.emit_scope_deinits(&scope);
            proof {
                lemma_mir_grown_trans(&old(self).mir, &m0, &self.mir, f);
            }
            i = i - 1;
        }
        assert(old(self).scope_stack@.subrange(depth as int, depth as int) =~= Seq::<ScopeInfo>::empty());
    }

    /// Emits the deinits of all scopes, innermost first (before a return).
    pub fn emit_all_scope_deinits(&mut self)
        requires
            old(self).inv(),
            any_scope_branches(old(self).scopes()) ==> old(self).cur_function() is Some,
        ensures
            final(self).inv(),
            final(self).same_but_block(old(self)),
            (final(self).cur_block() is Some) == (old(self).cur_block() is Some),
            emit_state(final(self)) == scopes_drop_model(emit_state(old(self)), old(self).scopes()),
            mir_grown(&old(self).mir, &final(self).mir, old(self).cur_function()),
    {
        assert(scopes_from(self.scope_stack@, 0) =~= self.scope_stack@);
        self.emit_scopes_deinits_from(0);
    }

    /// Emits the deinits of the scopes inside the innermost loop with the given id,
    /// innermost first (before a break or continue); all scopes when no such loop.
    pub fn emit_deinits_to_loop(&mut self, loop_id: crate::sem::LoopId)
        requires
            old(self).inv(),
            any_scope_branches(scopes_from(old(self).scopes(), loop_depth(old(self).loops(), loop_id)))
                ==> old(self).cur_function() is Some,
        ensures
            final(self).inv(),
            final(self).same_but_block(old(self)),
            (final(self).cur_block() is Some) == (old(self).cur_block() is Some),
            emit_state(final(self)) == scopes_drop_model(
                emit_state(old(self)),
                scopes_from(old(self).scopes(), loop_depth(old(self).loops(), loop_id)),
            ),
            mir_grown(&old(self).mir, &final(self).mir, old(self).cur_function()),
    {
        let target_depth = match self.find_loop(loop_id) {
            Some(l) => l.scope_depth,
            None => 0,
        };
        self.emit_scopes_deinits_from(target_depth);
    }
}

/// Two scopes with the same contents drop alike.
proof fn lemma_same_scope_model(a: ScopeInfo, b: ScopeInfo)
    requires
        a.same_as(&b),
    ensures
        a.locals@ == b.locals@,
        a.deinit_status.map() == b.deinit_status.map(),
        a.local_types.map() == b.local_types.map(),
        a.wf() == b.wf(),
        scope_branches(a) == scope_branches(b),
        forall|st: EmitState| scope_drop_model(st, a) == scope_drop_model(st, b),
{
    assert(a.deinit_status.keys() =~= b.deinit_status.keys());
    assert(a.local_types.keys() =~= b.local_types.keys());
    assert(a.deinit_status.map() =~= b.deinit_status.map());
    assert(a.local_types.map() =~= b.local_types.map());
}

} // verus!
