//! The decision tree of the last condition of an `if let` or `while let` chain.
//!
//! A success binds the pattern's variables and jumps to the success block (the
//! then-block of an `if`, the body of a `while`); a failure, or a guard (which such
//! a pattern never has), jumps to the failure block (the else-block, the loop exit).
//! Switches branch on booleans, switch on enum variants (values of no listed
//! variant go to the default subtree or fail), and chain integer and string tests.
//!
//! The emitted code is described by a model over the blocks, the current block, the
//! locals, the interned types, the current function's blocks and locals, the
//! temporary counter and the local map.

use vstd::prelude::*;

use crate::context::LoweringContext;
use crate::expr::temp_name;
use crate::match_lowering::{
    apply_path, binding_copies, bound_map, emit_bindings, enum_switch_targets, path_place, path_view, variant_positions, Binding, Constructor, DecisionTree, SwitchKind,
};
use crate::mir::{
    blocks_view, type_pos, types_interned, BinOp, BlockId, BlockV, Immediate, ImmediateV, LocalDecl, LocalId, MirTy,
    Place, PlaceV, Rvalue, RvalueV, StmtV, TermV, TerminatorKind, TyId, Value, ValueV,
};
use crate::text::owned;
use crate::sem::{IntBits, SemLocalId};

verus! {

/// What the emission of a decision tree changes.
#[verifier::ext_equal]
pub struct WalkState {
    pub blocks: Seq<BlockV>,
    pub cur: nat,
    pub locals: Seq<(Seq<char>, TyId)>,
    pub types: Seq<MirTy>,
    pub fn_blocks: Seq<BlockId>,
    pub fn_locals: Seq<LocalId>,
    pub temps: nat,
    pub map: Map<SemLocalId, LocalId>,
}

/// The names and types of locals.
pub open spec fn locals_view(ls: Seq<LocalDecl>) -> Seq<(Seq<char>, TyId)> {
    ls.map_values(|l: LocalDecl| (l.name@, l.ty))
}

/// The emission state of a context that is inside a function and a block.
pub open spec fn walk_state(ctx: &LoweringContext) -> WalkState {
    let f = ctx.cur_function().unwrap().0 as int;
    WalkState {
        blocks: blocks_view(ctx.mir.blocks@),
        cur: ctx.cur_block().unwrap().0 as nat,
        locals: locals_view(ctx.mir.locals@),
        types: ctx.mir.types@,
        fn_blocks: ctx.mir.functions@[f].blocks@,
        fn_locals: ctx.mir.functions@[f].locals@,
        temps: ctx.temp_count() as nat,
        map: ctx.local_map_view(),
    }
}

/// The context is inside a function and a block.
pub open spec fn emitting(ctx: &LoweringContext) -> bool {
    &&& ctx.inv()
    &&& ctx.cur_function() is Some
    &&& ctx.cur_block() is Some
}

/// Nothing that the emission model leaves out changed, and emission can go on.
pub open spec fn walk_frame(old: &LoweringContext, new: &LoweringContext) -> bool {
    let f = old.cur_function().unwrap().0 as int;
    &&& emitting(new)
    &&& new.cur_function() == old.cur_function()
    &&& new.mir.names == old.mir.names
    &&& new.mir.statics == old.mir.statics
    &&& new.mir.functions@.len() == old.mir.functions@.len()
    &&& forall|j: int| 0 <= j < old.mir.functions@.len() && j != f ==> new.mir.functions@[j] == old.mir.functions@[j]
    &&& new.mir.functions@[f].name == old.mir.functions@[f].name
    &&& new.mir.functions@[f].params == old.mir.functions@[f].params
    &&& new.mir.functions@[f].return_ty == old.mir.functions@[f].return_ty
    &&& new.mir.functions@[f].entry_block == old.mir.functions@[f].entry_block
    &&& new.type_param_view() == old.type_param_view()
    &&& new.loops() == old.loops()
    &&& new.scopes() == old.scopes()
    &&& new.temps() == old.temps()
    &&& new.diags() == old.diags()
    &&& new.closure_count() == old.closure_count()
    &&& new.flag_count() == old.flag_count()
}

// ---------------------------------------------------------------------------
// Emission steps
// ---------------------------------------------------------------------------

/// A block with no statements and no terminator.
pub open spec fn no_block() -> BlockV {
    BlockV { statements: Seq::empty(), terminator: None }
}

/// A new empty block of the function (numbered `blocks.len()`).
pub open spec fn add_block(s: WalkState) -> WalkState {
    WalkState {
        blocks: s.blocks.push(no_block()),
        fn_blocks: s.fn_blocks.push(BlockId(s.blocks.len() as usize)),
        ..s
    }
}

/// Emission continues in block `b`.
pub open spec fn goto(s: WalkState, b: nat) -> WalkState {
    WalkState { cur: b, ..s }
}

/// The current block terminated by `t`.
pub open spec fn put_term(s: WalkState, t: TermV) -> WalkState {
    let b = s.blocks[s.cur as int];
    if s.cur < s.blocks.len() {
        WalkState { blocks: s.blocks.update(s.cur as int, BlockV { statements: b.statements, terminator: Some(t) }), ..s }
    } else {
        s
    }
}

/// A statement appended to the current block.
pub open spec fn put_stmt(s: WalkState, st: StmtV) -> WalkState {
    let b = s.blocks[s.cur as int];
    if s.cur < s.blocks.len() {
        WalkState {
            blocks: s.blocks.update(s.cur as int, BlockV { statements: b.statements.push(st), terminator: b.terminator }),
            ..s
        }
    } else {
        s
    }
}

/// A boolean temporary (named from `prefix` and the counter) added as a local of the
/// function; the boolean type is interned.
pub open spec fn add_bool_temp(s: WalkState, prefix: Seq<char>) -> WalkState {
    WalkState {
        types: types_interned(s.types, MirTy::Bool),
        locals: s.locals.push((temp_name(prefix, s.temps), TyId(type_pos(s.types, MirTy::Bool) as usize))),
        fn_locals: s.fn_locals.push(LocalId(s.locals.len() as usize)),
        temps: s.temps + 1,
        ..s
    }
}

/// The pattern's variables bound: one local per binding (named and typed as it),
/// mapped from its semantic local, and a copy of the bound value into it.
pub open spec fn bind(s: WalkState, scrutinee: PlaceV, bs: Seq<Binding>) -> WalkState {
    let n = s.locals.len();
    let b = s.blocks[s.cur as int];
    WalkState {
        blocks: if s.cur < s.blocks.len() {
            s.blocks.update(
                s.cur as int,
                BlockV { statements: b.statements + binding_copies(scrutinee, bs, n), terminator: b.terminator },
            )
        } else {
            s.blocks
        },
        locals: s.locals + Seq::new(bs.len(), |i: int| (bs[i].name@, bs[i].ty)),
        fn_locals: s.fn_locals + Seq::new(bs.len(), |i: int| LocalId((n + i) as usize)),
        map: bound_map(s.map, bs, n),
        ..s
    }
}

impl LoweringContext {
    /// Creates an empty block (an emission step).
    pub(crate) fn walk_new_block(&mut self) -> (r: BlockId)
        requires
            emitting(old(self)),
        ensures
            walk_frame(old(self), final(self)),
            r.0 == old(self).mir.blocks@.len(),
            walk_state(final(self)) == add_block(walk_state(old(self))),
    {
        let r = self.create_block();
        proof {
            let o = walk_state(old(self));
            assert(blocks_view(self.mir.blocks@) =~= add_block(o).blocks) by {
                assert forall|j: int| 0 <= j < self.mir.blocks@.len() implies blocks_view(self.mir.blocks@)[j]
                    == add_block(o).blocks[j] by {
                    if j < old(self).mir.blocks@.len() {
                        assert(self.mir.blocks@[j] == old(self).mir.blocks@[j]);
                    } else {
                        assert(crate::mir::stmts_view(self.mir.blocks@[j].statements@) =~= Seq::<StmtV>::empty());
                    }
                }
            }
        }
        r
    }

    /// Continues in block `b` (an emission step).
    pub(crate) fn walk_goto(&mut self, b: BlockId)
        requires
            emitting(old(self)),
            b.0 < old(self).mir.blocks@.len(),
        ensures
            walk_frame(old(self), final(self)),
            walk_state(final(self)) == goto(walk_state(old(self)), b.0 as nat),
    {
        self.set_current_block(b);
    }

    /// Terminates the current block (an emission step).
    pub(crate) fn walk_term(&mut self, kind: TerminatorKind)
        requires
            emitting(old(self)),
        ensures
            walk_frame(old(self), final(self)),
            walk_state(final(self)) == put_term(walk_state(old(self)), kind@),
    {
        let ghost k = kind@;
        let ghost b = self.current_block.unwrap();
        self.emit_terminator(kind);
        proof {
            let o = walk_state(old(self));
            assert(blocks_view(self.mir.blocks@) =~= put_term(o, k).blocks) by {
                assert forall|j: int| 0 <= j < self.mir.blocks@.len() implies blocks_view(self.mir.blocks@)[j]
                    == put_term(o, k).blocks[j] by {
                    if j != b.0 {
                        assert(self.mir.blocks@[j] == old(self).mir.blocks@[j]);
                    }
                }
            }
        }
    }

    /// Assigns `rvalue` to a new boolean temporary named from `prefix` (an emission
    /// step); returns the temporary.
    fn walk_bool_temp(&mut self, prefix: &str, rvalue: Rvalue) -> (r: LocalId)
        requires
            emitting(old(self)),
            old(self).temp_count() < u32::MAX,
        ensures
            walk_frame(old(self), final(self)),
            r.0 == old(self).mir.locals@.len(),
            walk_state(final(self)) == put_stmt(
                add_bool_temp(walk_state(old(self)), prefix@),
                StmtV::Assign { dest: PlaceV::Local(r), rvalue: rvalue@ },
            ),
    {
        let ghost rv = rvalue@;
        let ghost b = self.current_block.unwrap();
        let ghost f = self.current_function.unwrap();
        let ghost m0 = self.mir;
        let ty = self.mir.ty_bool();
        let ghost m1 = self.mir;
        let local = self.create_temp(prefix, ty);
        let ghost m2 = self.mir;
        self.emit_assign(Place::local(local), rvalue);
        proof {
            let o = walk_state(old(self));
            let e = put_stmt(add_bool_temp(o, prefix@), StmtV::Assign { dest: PlaceV::Local(local), rvalue: rv });
            assert(blocks_view(self.mir.blocks@) =~= e.blocks) by {
                assert forall|j: int| 0 <= j < self.mir.blocks@.len() implies blocks_view(self.mir.blocks@)[j]
                    == e.blocks[j] by {
                    if j != b.0 {
                        assert(self.mir.blocks@[j] == m0.blocks@[j]);
                    }
                }
            }
            assert(locals_view(self.mir.locals@) =~= e.locals) by {
                assert(self.mir.locals@ == m2.locals@);
                assert(m2.locals@ =~= m0.locals@.push(m2.locals@.last()));
            }
            assert(self.mir.functions@[f.0 as int].locals@ =~= e.fn_locals);
        }
        local
    }

    /// Binds the pattern's variables (an emission step).
    fn walk_bind(&mut self, bindings: &Vec<Binding>, scrutinee: &Place)
        requires
            emitting(old(self)),
        ensures
            walk_frame(old(self), final(self)),
            walk_state(final(self)) == bind(walk_state(old(self)), scrutinee@, bindings@),
    {
        let ghost b = self.current_block.unwrap();
        let ghost f = self.current_function.unwrap();
        let ghost n = self.mir.locals@.len();
        emit_bindings(self, bindings, scrutinee);
        proof {
            let o = walk_state(old(self));
            let e = bind(o, scrutinee@, bindings@);
            assert(blocks_view(self.mir.blocks@) =~= e.blocks) by {
                assert forall|j: int| 0 <= j < self.mir.blocks@.len() implies blocks_view(self.mir.blocks@)[j]
                    == e.blocks[j] by {
                    if j != b.0 {
                        assert(self.mir.blocks@[j] == old(self).mir.blocks@[j]);
                    } else {
                        assert(blocks_view(self.mir.blocks@)[j].statements =~= self.mir.stmts_of(b));
                    }
                }
            }
            assert(locals_view(self.mir.locals@) =~= e.locals) by {
                assert forall|k: int| 0 <= k < self.mir.locals@.len() implies locals_view(self.mir.locals@)[k]
                    == e.locals[k] by {
                    if k < n {
                        assert(old(self).mir.locals@.is_prefix_of(self.mir.locals@));
                        assert(self.mir.locals@[k] == old(self).mir.locals@[k]);
                    } else {
                        let i = k - n;
                        assert(self.mir.locals@[n + i].name@ == bindings@[i].name@);
                    }
                }
            }
        }
    }
}


// ---------------------------------------------------------------------------
// The emitted code
// ---------------------------------------------------------------------------

/// `k` new empty blocks of the function.
pub open spec fn add_blocks(s: WalkState, k: nat) -> WalkState {
    WalkState {
        blocks: s.blocks + Seq::new(k, |i: int| no_block()),
        fn_blocks: s.fn_blocks + Seq::new(k, |i: int| BlockId((s.blocks.len() + i) as usize)),
        ..s
    }
}

/// The assignment of a binary operation to local `l`.
pub open spec fn binop_stmt(l: nat, op: BinOp, lhs: ValueV, rhs: ValueV) -> StmtV {
    StmtV::Assign { dest: PlaceV::Local(LocalId(l as usize)), rvalue: RvalueV::BinaryOp { op, lhs, rhs } }
}

/// The constructor is tested by an integer chain (`strings` false: literals and
/// ranges) or a string chain (`strings` true: literals); others are skipped.
pub open spec fn chain_tests(c: Constructor, strings: bool) -> bool {
    if strings {
        c is StringLiteral
    } else {
        c is IntLiteral || c is IntRange
    }
}

/// The temporaries and their assignments of a chain test of the switched place `sw`.
pub open spec fn test_temps(s: WalkState, sw: PlaceV, c: Constructor, bits: IntBits) -> WalkState {
    let l = s.locals.len();
    match c {
        Constructor::IntLiteral(v) => put_stmt(
            add_bool_temp(s, "cmp"@),
            binop_stmt(l, BinOp::Eq, ValueV::Place(sw), ValueV::Immediate(ImmediateV::Int(bits, v))),
        ),
        Constructor::IntRange { start, end } => {
            let s1 = put_stmt(
                add_bool_temp(s, "cmp_lo"@),
                binop_stmt(l, BinOp::LeSigned, ValueV::Immediate(ImmediateV::Int(bits, start)), ValueV::Place(sw)),
            );
            let s2 = put_stmt(
                add_bool_temp(s1, "cmp_hi"@),
                binop_stmt(l + 1, BinOp::LeSigned, ValueV::Place(sw), ValueV::Immediate(ImmediateV::Int(bits, end))),
            );
            put_stmt(
                add_bool_temp(s2, "cmp_range"@),
                binop_stmt(
                    l + 2,
                    BinOp::BoolAnd,
                    ValueV::Place(PlaceV::Local(LocalId(l as usize))),
                    ValueV::Place(PlaceV::Local(LocalId((l + 1) as usize))),
                ),
            )
        },
        Constructor::StringLiteral(v) => put_stmt(
            add_bool_temp(s, "cmp"@),
            binop_stmt(l, BinOp::Eq, ValueV::Place(sw), ValueV::Immediate(ImmediateV::Str(v@))),
        ),
        _ => s,
    }
}

/// A chain test: a matched and an unmatched block created, the test's temporaries
/// assigned in the current block, which branches on the last of them; emission
/// continues in the matched block.
pub open spec fn test_step(s: WalkState, sw: PlaceV, c: Constructor, bits: IntBits) -> WalkState {
    let m = s.blocks.len();
    let s1 = test_temps(add_block(add_block(s)), sw, c, bits);
    let cond = LocalId((s1.locals.len() - 1) as usize);
    goto(
        put_term(
            s1,
            TermV::Branch {
                condition: ValueV::Place(PlaceV::Local(cond)),
                then_block: BlockId(m as usize),
                else_block: BlockId((m + 1) as usize),
            },
        ),
        m,
    )
}

/// The constructor tests for the boolean `value`.
pub open spec fn tests_bool(c: Constructor, value: bool) -> bool {
    if value {
        c is True
    } else {
        c is False
    }
}

/// The position of the first case from `i` on that tests for `value`, if any.
pub open spec fn bool_case(cases: Seq<(Constructor, DecisionTree)>, value: bool, i: nat) -> Option<int>
    decreases cases.len() - i,
{
    if i >= cases.len() {
        None
    } else if tests_bool(cases[i as int].0, value) {
        Some(i as int)
    } else {
        bool_case(cases, value, i + 1)
    }
}

proof fn lemma_bool_case_in_range(cases: Seq<(Constructor, DecisionTree)>, value: bool, i: nat)
    ensures
        bool_case(cases, value, i) matches Some(k) ==> i <= k < cases.len(),
    decreases cases.len() - i,
{
    if i < cases.len() && !tests_bool(cases[i as int].0, value) {
        lemma_bool_case_in_range(cases, value, i + 1);
    }
}

/// The code of the decision tree `t` on the scrutinee place: a success binds and
/// jumps to `succ`; a failure or a guard jumps to `fail`; a switch on the value at
/// its path branches on a boolean (the first `true` case, else the default, else
/// failure, in a new block; then the same for `false`), switches on an enum's
/// variant (a new block per variant case and one for everything else, which takes
/// the default or fails), chains integer or string tests (then the default or
/// failure), takes a tuple's or struct's first case (else the default, else
/// failure), and for any other type takes the default (else the first case, else
/// failure).
pub open spec fn let_walk(s: WalkState, t: DecisionTree, scrut: PlaceV, succ: BlockId, fail: BlockId) -> WalkState
    decreases t, node_len(t) + 3,
{
    match t {
        DecisionTree::Success { bindings, .. } => put_term(bind(s, scrut, bindings@), TermV::Jump(succ)),
        DecisionTree::Switch { path, kind, cases, default } => {
            let sw = path_place(scrut, path_view(path@));
            match kind {
                SwitchKind::Bool => bool_walk(s, t, sw, scrut, succ, fail),
                SwitchKind::Enum => {
                    let base = s.blocks.len();
                    let k = variant_positions(cases@).len();
                    let s1 = put_term(
                        add_blocks(s, k + 1),
                        TermV::Switch { discriminant: sw, cases: enum_switch_targets(cases@, base, true) },
                    );
                    let s2 = goto(enum_bodies(s1, t, 0, 0, base, scrut, succ, fail), base + k);
                    match default {
                        Some(d) => let_walk(s2, *d, scrut, succ, fail),
                        None => put_term(s2, TermV::Jump(fail)),
                    }
                },
                SwitchKind::Int(bits) => chain(s, t, 0, sw, scrut, succ, fail, false, bits),
                SwitchKind::Str => chain(s, t, 0, sw, scrut, succ, fail, true, IntBits::I64),
                SwitchKind::Tuple | SwitchKind::Struct => if cases@.len() > 0 {
                    let_walk(s, cases@[0].1, scrut, succ, fail)
                } else {
                    match default {
                        Some(d) => let_walk(s, *d, scrut, succ, fail),
                        None => put_term(s, TermV::Jump(fail)),
                    }
                },
                SwitchKind::Other => match default {
                    Some(d) => let_walk(s, *d, scrut, succ, fail),
                    None => if cases@.len() > 0 {
                        let_walk(s, cases@[0].1, scrut, succ, fail)
                    } else {
                        put_term(s, TermV::Jump(fail))
                    },
                },
            }
        },
        _ => put_term(s, TermV::Jump(fail)),
    }
}

/// The number of cases of a switch node.
pub open spec fn node_len(t: DecisionTree) -> nat {
    match t {
        DecisionTree::Switch { cases, .. } => cases@.len(),
        _ => 0,
    }
}

/// The code of one side of a boolean switch node: the subtree of the first case
/// testing `value`, else the default, else failure.
pub open spec fn bool_side(s: WalkState, t: DecisionTree, value: bool, scrut: PlaceV, succ: BlockId, fail: BlockId) -> WalkState
    decreases t, node_len(t) + 1,
{
    match t {
        DecisionTree::Switch { cases, default, .. } => match bool_case(cases@, value, 0) {
            Some(k) => if 0 <= k < cases@.len() {
                let_walk(s, cases@[k].1, scrut, succ, fail)
            } else {
                s
            },
            None => match default {
                Some(d) => let_walk(s, *d, scrut, succ, fail),
                None => put_term(s, TermV::Jump(fail)),
            },
        },
        _ => s,
    }
}

/// The code of a boolean switch node on `sw`: a branch to two new blocks, the `true`
/// side in the first and the `false` side in the second.
pub open spec fn bool_walk(s: WalkState, t: DecisionTree, sw: PlaceV, scrut: PlaceV, succ: BlockId, fail: BlockId) -> WalkState
    decreases t, node_len(t) + 2,
{
    let tb = s.blocks.len();
    let s1 = goto(
        put_term(
            add_block(add_block(s)),
            TermV::Branch {
                condition: ValueV::Place(sw),
                then_block: BlockId(tb as usize),
                else_block: BlockId((tb + 1) as usize),
            },
        ),
        tb,
    );
    let s2 = bool_side(s1, t, true, scrut, succ, fail);
    bool_side(goto(s2, tb + 1), t, false, scrut, succ, fail)
}

/// The bodies of the variant cases of an enum switch node from case `i` on, the
/// `j`-th variant case in block `base + j`.
pub open spec fn enum_bodies(
    s: WalkState,
    t: DecisionTree,
    i: nat,
    j: nat,
    base: nat,
    scrut: PlaceV,
    succ: BlockId,
    fail: BlockId,
) -> WalkState
    decreases t, node_len(t) + 1 - i,
{
    match t {
        DecisionTree::Switch { cases, .. } => if i >= cases@.len() {
            s
        } else if cases@[i as int].0 is Variant {
            let s1 = let_walk(goto(s, base + j), cases@[i as int].1, scrut, succ, fail);
            enum_bodies(s1, t, i + 1, j + 1, base, scrut, succ, fail)
        } else {
            enum_bodies(s, t, i + 1, j, base, scrut, succ, fail)
        },
        _ => s,
    }
}

/// The code of a test chain of a switch node on `sw` from case `i` on: each tested
/// case's test, its subtree in the matched block, and the rest of the chain in the
/// unmatched block; after the last case, the default or failure.
pub open spec fn chain(
    s: WalkState,
    t: DecisionTree,
    i: nat,
    sw: PlaceV,
    scrut: PlaceV,
    succ: BlockId,
    fail: BlockId,
    strings: bool,
    bits: IntBits,
) -> WalkState
    decreases t, node_len(t) + 1 - i,
{
    match t {
        DecisionTree::Switch { cases, default, .. } => if i >= cases@.len() {
            match default {
                Some(d) => let_walk(s, *d, scrut, succ, fail),
                None => put_term(s, TermV::Jump(fail)),
            }
        } else if chain_tests(cases@[i as int].0, strings) {
            let m = s.blocks.len();
            let s1 = let_walk(test_step(s, sw, cases@[i as int].0, bits), cases@[i as int].1, scrut, succ, fail);
            chain(goto(s1, m + 1), t, i + 1, sw, scrut, succ, fail, strings, bits)
        } else {
            chain(s, t, i + 1, sw, scrut, succ, fail, strings, bits)
        },
        _ => s,
    }
}


/// Emission only adds blocks and temporaries.
pub open spec fn grows(a: WalkState, b: WalkState) -> bool {
    &&& b.temps >= a.temps
    &&& b.blocks.len() >= a.blocks.len()
}

proof fn lemma_test_step_grows(s: WalkState, sw: PlaceV, c: Constructor, bits: IntBits)
    ensures
        test_step(s, sw, c, bits).blocks.len() == s.blocks.len() + 2,
        test_step(s, sw, c, bits).temps >= s.temps,
{
    let s0 = add_block(add_block(s));
    assert(test_temps(s0, sw, c, bits).blocks.len() == s0.blocks.len());
}

proof fn lemma_walk_grows(s: WalkState, t: DecisionTree, scrut: PlaceV, succ: BlockId, fail: BlockId)
    ensures
        grows(s, let_walk(s, t, scrut, succ, fail)),
    decreases t, node_len(t) + 3,
{
    match t {
        DecisionTree::Switch { path, kind, cases, default } => {
            let sw = path_place(scrut, path_view(path@));
            match kind {
                SwitchKind::Bool => lemma_bool_walk_grows(s, t, sw, scrut, succ, fail),
                SwitchKind::Enum => {
                    let base = s.blocks.len();
                    let k = variant_positions(cases@).len();
                    let s1 = put_term(
                        add_blocks(s, k + 1),
                        TermV::Switch { discriminant: sw, cases: enum_switch_targets(cases@, base, true) },
                    );
                    lemma_enum_bodies_grows(s1, t, 0, 0, base, scrut, succ, fail);
                    let s2 = goto(enum_bodies(s1, t, 0, 0, base, scrut, succ, fail), base + k);
                    match default {
                        Some(d) => lemma_walk_grows(s2, *d, scrut, succ, fail),
                        None => {},
                    }
                },
                SwitchKind::Int(bits) => lemma_chain_grows(s, t, 0, sw, scrut, succ, fail, false, bits),
                SwitchKind::Str => lemma_chain_grows(s, t, 0, sw, scrut, succ, fail, true, IntBits::I64),
                SwitchKind::Tuple | SwitchKind::Struct => if cases@.len() > 0 {
                    lemma_walk_grows(s, cases@[0].1, scrut, succ, fail);
                } else {
                    match default {
                        Some(d) => lemma_walk_grows(s, *d, scrut, succ, fail),
                        None => {},
                    }
                },
                SwitchKind::Other => match default {
                    Some(d) => lemma_walk_grows(s, *d, scrut, succ, fail),
                    None => if cases@.len() > 0 {
                        lemma_walk_grows(s, cases@[0].1, scrut, succ, fail);
                    },
                },
            }
        },
        _ => {},
    }
}

proof fn lemma_bool_side_grows(s: WalkState, t: DecisionTree, value: bool, scrut: PlaceV, succ: BlockId, fail: BlockId)
    ensures
        grows(s, bool_side(s, t, value, scrut, succ, fail)),
    decreases t, node_len(t) + 1,
{
    match t {
        DecisionTree::Switch { cases, default, .. } => match bool_case(cases@, value, 0) {
            Some(k) => if 0 <= k < cases@.len() {
                lemma_walk_grows(s, cases@[k].1, scrut, succ, fail);
            },
            None => match default {
                Some(d) => lemma_walk_grows(s, *d, scrut, succ, fail),
                None => {},
            },
        },
        _ => {},
    }
}

proof fn lemma_bool_walk_grows(s: WalkState, t: DecisionTree, sw: PlaceV, scrut: PlaceV, succ: BlockId, fail: BlockId)
    ensures
        grows(s, bool_walk(s, t, sw, scrut, succ, fail)),
    decreases t, node_len(t) + 2,
{
    let tb = s.blocks.len();
    let s1 = goto(
        put_term(
            add_block(add_block(s)),
            TermV::Branch {
                condition: ValueV::Place(sw),
                then_block: BlockId(tb as usize),
                else_block: BlockId((tb + 1) as usize),
            },
        ),
        tb,
    );
    lemma_bool_side_grows(s1, t, true, scrut, succ, fail);
    let s2 = bool_side(s1, t, true, scrut, succ, fail);
    lemma_bool_side_grows(goto(s2, tb + 1), t, false, scrut, succ, fail);
}

proof fn lemma_enum_bodies_grows(
    s: WalkState,
    t: DecisionTree,
    i: nat,
    j: nat,
    base: nat,
    scrut: PlaceV,
    succ: BlockId,
    fail: BlockId,
)
    ensures
        grows(s, enum_bodies(s, t, i, j, base, scrut, succ, fail)),
    decreases t, node_len(t) + 1 - i,
{
    match t {
        DecisionTree::Switch { cases, .. } => if i >= cases@.len() {
        } else if cases@[i as int].0 is Variant {
            lemma_walk_grows(goto(s, base + j), cases@[i as int].1, scrut, succ, fail);
            let s1 = let_walk(goto(s, base + j), cases@[i as int].1, scrut, succ, fail);
            lemma_enum_bodies_grows(s1, t, i + 1, j + 1, base, scrut, succ, fail);
        } else {
            lemma_enum_bodies_grows(s, t, i + 1, j, base, scrut, succ, fail);
        },
        _ => {},
    }
}

proof fn lemma_chain_grows(
    s: WalkState,
    t: DecisionTree,
    i: nat,
    sw: PlaceV,
    scrut: PlaceV,
    succ: BlockId,
    fail: BlockId,
    strings: bool,
    bits: IntBits,
)
    ensures
        grows(s, chain(s, t, i, sw, scrut, succ, fail, strings, bits)),
    decreases t, node_len(t) + 1 - i,
{
    match t {
        DecisionTree::Switch { cases, default, .. } => if i >= cases@.len() {
            match default {
                Some(d) => lemma_walk_grows(s, *d, scrut, succ, fail),
                None => {},
            }
        } else if chain_tests(cases@[i as int].0, strings) {
            let m = s.blocks.len();
            lemma_test_step_grows(s, sw, cases@[i as int].0, bits);
            let s0 = test_step(s, sw, cases@[i as int].0, bits);
            lemma_walk_grows(s0, cases@[i as int].1, scrut, succ, fail);
            let s1 = let_walk(s0, cases@[i as int].1, scrut, succ, fail);
            lemma_chain_grows(goto(s1, m + 1), t, i + 1, sw, scrut, succ, fail, strings, bits);
        } else {
            lemma_chain_grows(s, t, i + 1, sw, scrut, succ, fail, strings, bits);
        },
        _ => {},
    }
}


/// The number of temporaries a chain test creates.
pub open spec fn test_count(c: Constructor) -> nat {
    match c {
        Constructor::IntRange { .. } => 3,
        Constructor::IntLiteral(_) | Constructor::StringLiteral(_) => 1,
        _ => 0,
    }
}

proof fn lemma_test_step_temps(s: WalkState, sw: PlaceV, c: Constructor, bits: IntBits)
    ensures
        test_step(s, sw, c, bits).temps == s.temps + test_count(c),
{
}

proof fn lemma_variants_grow(cases: Seq<(Constructor, DecisionTree)>, i: nat)
    requires
        i <= cases.len(),
    ensures
        variant_positions(cases.take(i as int)).len() <= variant_positions(cases).len(),
    decreases cases.len() - i,
{
    if i < cases.len() {
        assert(cases.take(i + 1int).drop_last() =~= cases.take(i as int));
        lemma_variants_grow(cases, i + 1);
    } else {
        assert(cases.take(i as int) =~= cases);
    }
}

// ---------------------------------------------------------------------------
// Emission
// ---------------------------------------------------------------------------

/// Emits the decision tree of the last condition of an `if let` or `while let`
/// chain on the scrutinee place: a success binds the pattern's variables and jumps
/// to `success_block`; a failure jumps to `failure_block` (see `let_walk`).
pub fn emit_let_decision_tree(
    ctx: &mut LoweringContext,
    tree: &DecisionTree,
    scrutinee: &Place,
    success_block: BlockId,
    failure_block: BlockId,
)
    requires
        emitting(old(ctx)),
        let_walk(walk_state(old(ctx)), *tree, scrutinee@, success_block, failure_block).temps <= u32::MAX,
    ensures
        walk_frame(old(ctx), final(ctx)),
        walk_state(final(ctx)) == let_walk(walk_state(old(ctx)), *tree, scrutinee@, success_block, failure_block),
    decreases *tree, node_len(*tree) + 3,
{
    match tree {
        DecisionTree::Success { bindings, .. } => {
            ctx.walk_bind(bindings, scrutinee);
            ctx.walk_term(TerminatorKind::Jump(success_block));
        },
        DecisionTree::Switch { path, kind, cases, default } => {
            let sw = apply_path(scrutinee, path);
            match kind {
                SwitchKind::Bool => emit_let_bool_switch(ctx, tree, &sw, scrutinee, success_block, failure_block),
                SwitchKind::Enum => emit_let_enum_switch(ctx, tree, &sw, scrutinee, success_block, failure_block),
                SwitchKind::Int(bits) => emit_let_chain(ctx, tree, &sw, scrutinee, success_block, failure_block, false, *bits),
                SwitchKind::Str => emit_let_chain(ctx, tree, &sw, scrutinee, success_block, failure_block, true, IntBits::I64),
                SwitchKind::Tuple | SwitchKind::Struct => {
                    if cases.len() > 0 {
                        emit_let_decision_tree(ctx, &cases[0].1, scrutinee, success_block, failure_block);
                    } else {
                        match default {
                            Some(d) => emit_let_decision_tree(ctx, d, scrutinee, success_block, failure_block),
                            None => ctx.walk_term(TerminatorKind::Jump(failure_block)),
                        }
                    }
                },
                SwitchKind::Other => {
                    match default {
                        Some(d) => emit_let_decision_tree(ctx, d, scrutinee, success_block, failure_block),
                        None => {
                            if cases.len() > 0 {
                                emit_let_decision_tree(ctx, &cases[0].1, scrutinee, success_block, failure_block);
                            } else {
                                ctx.walk_term(TerminatorKind::Jump(failure_block));
                            }
                        },
                    }
                },
            }
        },
        _ => ctx.walk_term(TerminatorKind::Jump(failure_block)),
    }
}

/// Emits one side of a boolean switch (see `bool_side`).
fn emit_let_bool_side(
    ctx: &mut LoweringContext,
    tree: &DecisionTree,
    value: bool,
    scrutinee: &Place,
    success_block: BlockId,
    failure_block: BlockId,
)
    requires
        emitting(old(ctx)),
        tree is Switch,
        bool_side(walk_state(old(ctx)), *tree, value, scrutinee@, success_block, failure_block).temps <= u32::MAX,
    ensures
        walk_frame(old(ctx), final(ctx)),
        walk_state(final(ctx)) == bool_side(walk_state(old(ctx)), *tree, value, scrutinee@, success_block, failure_block),
    decreases *tree, node_len(*tree) + 1,
{
    match tree {
        DecisionTree::Switch { cases, default, .. } => {
            let mut i: usize = 0;
            while i < cases.len()
                invariant
                    i <= cases@.len(),
                    *ctx == *old(ctx),
                    emitting(ctx),
                    tree is Switch && tree->cases == *cases && tree->default == *default,
                    bool_case(cases@, value, i as nat) == bool_case(cases@, value, 0),
                    bool_side(walk_state(ctx), *tree, value, scrutinee@, success_block, failure_block).temps
                        <= u32::MAX,
                decreases cases.len() - i,
            {
                let found = match &cases[i].0 {
                    Constructor::True => value,
                    Constructor::False => !value,
                    _ => false,
                };
                if found {
                    proof {
                        assert(bool_case(cases@, value, 0) == Some(i as int));
                        assert(bool_side(walk_state(ctx), *tree, value, scrutinee@, success_block, failure_block)
                            == let_walk(walk_state(ctx), cases@[i as int].1, scrutinee@, success_block, failure_block));
                    }
                    emit_let_decision_tree(ctx, &cases[i].1, scrutinee, success_block, failure_block);
                    return;
                }
                i = i + 1;
            }
            match default {
                Some(d) => emit_let_decision_tree(ctx, d, scrutinee, success_block, failure_block),
                None => ctx.walk_term(TerminatorKind::Jump(failure_block)),
            }
        },
        _ => {},
    }
}

/// Emits a boolean switch on `switch_place` (see `bool_walk`).
fn emit_let_bool_switch(
    ctx: &mut LoweringContext,
    tree: &DecisionTree,
    switch_place: &Place,
    scrutinee: &Place,
    success_block: BlockId,
    failure_block: BlockId,
)
    requires
        emitting(old(ctx)),
        tree is Switch,
        bool_walk(walk_state(old(ctx)), *tree, switch_place@, scrutinee@, success_block, failure_block).temps
            <= u32::MAX,
    ensures
        walk_frame(old(ctx), final(ctx)),
        walk_state(final(ctx)) == bool_walk(
            walk_state(old(ctx)),
            *tree,
            switch_place@,
            scrutinee@,
            success_block,
            failure_block,
        ),
    decreases *tree, node_len(*tree) + 2,
{
    let ghost s0 = walk_state(ctx);
    let true_block = ctx.walk_new_block();
    let false_block = ctx.walk_new_block();
    ctx.walk_term(
        TerminatorKind::Branch {
            condition: Value::Place(switch_place.duplicate()),
            then_block: true_block,
            else_block: false_block,
        },
    );
    ctx.walk_goto(true_block);
    let ghost s1 = walk_state(ctx);
    proof {
        let s2 = bool_side(s1, *tree, true, scrutinee@, success_block, failure_block);
        lemma_bool_side_grows(goto(s2, false_block.0 as nat), *tree, false, scrutinee@, success_block, failure_block);
    }
    emit_let_bool_side(ctx, tree, true, scrutinee, success_block, failure_block);
    proof {
        lemma_bool_side_grows(s1, *tree, true, scrutinee@, success_block, failure_block);
    }
    ctx.walk_goto(false_block);
    emit_let_bool_side(ctx, tree, false, scrutinee, success_block, failure_block);
}

/// Emits an enum switch on `switch_place`: a block per variant case and one for
/// everything else, the switch, the variant cases' subtrees, and in the last block
/// the default or a jump to the failure block.
fn emit_let_enum_switch(
    ctx: &mut LoweringContext,
    tree: &DecisionTree,
    switch_place: &Place,
    scrutinee: &Place,
    success_block: BlockId,
    failure_block: BlockId,
)
    requires
        emitting(old(ctx)),
        tree is Switch,
        tree->kind == SwitchKind::Enum,
        let_walk(walk_state(old(ctx)), *tree, scrutinee@, success_block, failure_block).temps <= u32::MAX,
        switch_place@ == path_place(scrutinee@, path_view(tree->path@)),
    ensures
        walk_frame(old(ctx), final(ctx)),
        walk_state(final(ctx)) == let_walk(walk_state(old(ctx)), *tree, scrutinee@, success_block, failure_block),
    decreases *tree, node_len(*tree) + 2,
{
    let ghost s0 = walk_state(ctx);
    match tree {
        DecisionTree::Switch { cases, default, .. } => {
            let base = ctx.mir.blocks.len();
            let ghost pos_all = variant_positions(cases@);
            let mut switch_cases: Vec<(String, BlockId)> = Vec::new();
            let mut i: usize = 0;
            let mut j: usize = 0;
            proof {
                assert(cases@.take(0) =~= Seq::<(Constructor, DecisionTree)>::empty());
                assert(walk_state(ctx) =~= add_blocks(s0, 0));
            }
            while i < cases.len()
                invariant
                    i <= cases@.len(),
                    emitting(ctx),
                    walk_frame(old(ctx), ctx),
                    base == s0.blocks.len(),
                    j <= i,
                    j == variant_positions(cases@.take(i as int)).len(),
                    walk_state(ctx) == add_blocks(s0, j as nat),
                    crate::mir::cases_view(switch_cases@) == Seq::new(
                        j as nat,
                        |k: int| (crate::match_lowering::variant_name(cases@[variant_positions(cases@.take(i as int))[k]].0),
                            BlockId((base + k) as usize)),
                    ),
                    forall|k: int| 0 <= k < j ==> 0 <= #[trigger] variant_positions(cases@.take(i as int))[k] < i,
                decreases cases.len() - i,
            {
                let ghost pos0 = variant_positions(cases@.take(i as int));
                proof {
                    assert(cases@.take(i + 1).drop_last() =~= cases@.take(i as int));
                    assert(cases@.take(i + 1).last() == cases@[i as int]);
                }
                match &cases[i].0 {
                    Constructor::Variant { name, .. } => {
                        let ghost sv0 = crate::mir::cases_view(switch_cases@);
                        let block = ctx.walk_new_block();
                        let label = owned(name.as_str());
                        let ghost lv = label@;
                        switch_cases.push((label, block));
                        proof {
                            let pos = variant_positions(cases@.take(i + 1));
                            assert(pos =~= pos0.push(i as int));
                            assert(crate::mir::cases_view(switch_cases@) =~= sv0.push((lv, block)));
                            assert(crate::mir::cases_view(switch_cases@) =~= Seq::new(
                                (j + 1) as nat,
                                |k: int| (crate::match_lowering::variant_name(cases@[pos[k]].0), BlockId((base + k) as usize)),
                            ));
                            assert(walk_state(ctx) =~= add_blocks(s0, (j + 1) as nat));
                        }
                        j = j + 1;
                    },
                    _ => {
                        proof {
                            assert(variant_positions(cases@.take(i + 1)) =~= pos0);
                        }
                    },
                }
                i = i + 1;
            }
            proof {
                assert(cases@.take(i as int) =~= cases@);
            }
            let ghost sv0 = crate::mir::cases_view(switch_cases@);
            let default_block = ctx.walk_new_block();
            let label = owned("_");
            let ghost lv = label@;
            switch_cases.push((label, default_block));
            proof {
                assert(walk_state(ctx) =~= add_blocks(s0, (j + 1) as nat));
                assert(crate::mir::cases_view(switch_cases@) =~= sv0.push((lv, default_block)));
                assert(crate::mir::cases_view(switch_cases@) =~= enum_switch_targets(cases@, base as nat, true));
            }
            ctx.walk_term(TerminatorKind::Switch { discriminant: switch_place.duplicate(), cases: switch_cases });
            let ghost s1 = walk_state(ctx);
            let k: usize = j;
            proof {
                let s2 = goto(enum_bodies(s1, *tree, 0, 0, base as nat, scrutinee@, success_block, failure_block), (base + k) as nat);
                match default {
                    Some(d) => lemma_walk_grows(s2, **d, scrutinee@, success_block, failure_block),
                    None => {},
                }
            }
            let mut i: usize = 0;
            let mut j: usize = 0;
            proof {
                assert(cases@.take(0) =~= Seq::<(Constructor, DecisionTree)>::empty());
            }
            while i < cases.len()
                invariant
                    i <= cases@.len(),
                    emitting(ctx),
                    walk_frame(old(ctx), ctx),
                    base == s0.blocks.len(),
                    tree is Switch && tree->cases == *cases && tree->default == *default,
                    k == variant_positions(cases@).len(),
                    j <= i,
                    j == variant_positions(cases@.take(i as int)).len(),
                    base + k + 1 <= walk_state(ctx).blocks.len(),
                    enum_bodies(walk_state(ctx), *tree, i as nat, j as nat, base as nat, scrutinee@, success_block, failure_block)
                        == enum_bodies(s1, *tree, 0, 0, base as nat, scrutinee@, success_block, failure_block),
                    enum_bodies(s1, *tree, 0, 0, base as nat, scrutinee@, success_block, failure_block).temps <= u32::MAX,
                decreases cases.len() - i,
            {
                let ghost sc = walk_state(ctx);
                proof {
                    assert(cases@.take(i + 1).drop_last() =~= cases@.take(i as int));
                    lemma_variants_grow(cases@, (i + 1) as nat);
                }
                let is_variant = match &cases[i].0 {
                    Constructor::Variant { .. } => true,
                    _ => false,
                };
                if is_variant {
                    proof {
                        assert(variant_positions(cases@.take(i + 1)) =~= variant_positions(cases@.take(i as int)).push(
                            i as int,
                        ));
                    }
                    let nblocks = ctx.mir.blocks.len();
                    assert(base + j < nblocks);
                    ctx.walk_goto(BlockId(base + j));
                    proof {
                        let s3 = let_walk(goto(sc, (base + j) as nat), cases@[i as int].1, scrutinee@, success_block, failure_block);
                        lemma_enum_bodies_grows(s3, *tree, (i + 1) as nat, (j + 1) as nat, base as nat, scrutinee@, success_block, failure_block);
                    }
                    emit_let_decision_tree(ctx, &cases[i].1, scrutinee, success_block, failure_block);
                    proof {
                        lemma_walk_grows(goto(sc, (base + j) as nat), cases@[i as int].1, scrutinee@, success_block, failure_block);
                    }
                    j = j + 1;
                } else {
                    proof {
                        assert(variant_positions(cases@.take(i + 1)) =~= variant_positions(cases@.take(i as int)));
                    }
                }
                i = i + 1;
            }
            proof {
                assert(cases@.take(i as int) =~= cases@);
            }
            ctx.walk_goto(BlockId(base + k));
            match default {
                Some(d) => emit_let_decision_tree(ctx, d, scrutinee, success_block, failure_block),
                None => ctx.walk_term(TerminatorKind::Jump(failure_block)),
            }
        },
        _ => {},
    }
}

/// Emits a chain test of a literal or range constructor (see `test_step`); returns
/// the matched and the unmatched block.
fn walk_test(ctx: &mut LoweringContext, switch_place: &Place, c: &Constructor, bits: IntBits) -> (r: (BlockId, BlockId))
    requires
        emitting(old(ctx)),
        c is IntLiteral || c is IntRange || c is StringLiteral,
        old(ctx).temp_count() + test_count(*c) <= u32::MAX,
    ensures
        walk_frame(old(ctx), final(ctx)),
        walk_state(final(ctx)) == test_step(walk_state(old(ctx)), switch_place@, *c, bits),
        r.0.0 == old(ctx).mir.blocks@.len(),
        r.1.0 == old(ctx).mir.blocks@.len() + 1,
{
    let ghost s0 = walk_state(ctx);
    let match_block = ctx.walk_new_block();
    let next_block = ctx.walk_new_block();
    let ghost s1 = walk_state(ctx);
    let cond = match c {
        Constructor::IntLiteral(v) => ctx.walk_bool_temp(
            "cmp",
            Rvalue::BinaryOp {
                op: BinOp::Eq,
                lhs: Value::Place(switch_place.duplicate()),
                rhs: Value::Immediate(Immediate::Int(bits, *v)),
            },
        ),
        Constructor::IntRange { start, end } => {
            let lo = ctx.walk_bool_temp(
                "cmp_lo",
                Rvalue::BinaryOp {
                    op: BinOp::LeSigned,
                    lhs: Value::Immediate(Immediate::Int(bits, *start)),
                    rhs: Value::Place(switch_place.duplicate()),
                },
            );
            let hi = ctx.walk_bool_temp(
                "cmp_hi",
                Rvalue::BinaryOp {
                    op: BinOp::LeSigned,
                    lhs: Value::Place(switch_place.duplicate()),
                    rhs: Value::Immediate(Immediate::Int(bits, *end)),
                },
            );
            ctx.walk_bool_temp(
                "cmp_range",
                Rvalue::BinaryOp {
                    op: BinOp::BoolAnd,
                    lhs: Value::Place(Place::local(lo)),
                    rhs: Value::Place(Place::local(hi)),
                },
            )
        },
        Constructor::StringLiteral(v) => ctx.walk_bool_temp(
            "cmp",
            Rvalue::BinaryOp {
                op: BinOp::Eq,
                lhs: Value::Place(switch_place.duplicate()),
                rhs: Value::Immediate(Immediate::Str(owned(v.as_str()))),
            },
        ),
        _ => {
            proof {
                assert(false);
            }
            LocalId(0)
        },
    };
    let ghost s2 = walk_state(ctx);
    proof {
        assert(s2 == test_temps(s1, switch_place@, *c, bits));
        assert(cond.0 == s2.locals.len() - 1);
        assert(ctx.mir.blocks@.len() == s2.blocks.len());
        assert(s2.blocks.len() == s0.blocks.len() + 2);
    }
    ctx.walk_term(
        TerminatorKind::Branch {
            condition: Value::Place(Place::local(cond)),
            then_block: match_block,
            else_block: next_block,
        },
    );
    proof {
        assert(walk_state(ctx).blocks.len() == s2.blocks.len());
        assert(ctx.mir.blocks@.len() == walk_state(ctx).blocks.len());
    }
    ctx.walk_goto(match_block);
    (match_block, next_block)
}

/// Emits a test chain on `switch_place` (see `chain`).
fn emit_let_chain(
    ctx: &mut LoweringContext,
    tree: &DecisionTree,
    switch_place: &Place,
    scrutinee: &Place,
    success_block: BlockId,
    failure_block: BlockId,
    strings: bool,
    bits: IntBits,
)
    requires
        emitting(old(ctx)),
        tree is Switch,
        chain(walk_state(old(ctx)), *tree, 0, switch_place@, scrutinee@, success_block, failure_block, strings, bits).temps
            <= u32::MAX,
    ensures
        walk_frame(old(ctx), final(ctx)),
        walk_state(final(ctx)) == chain(
            walk_state(old(ctx)),
            *tree,
            0,
            switch_place@,
            scrutinee@,
            success_block,
            failure_block,
            strings,
            bits,
        ),
    decreases *tree, node_len(*tree) + 2,
{
    let ghost s0 = walk_state(ctx);
    match tree {
        DecisionTree::Switch { cases, default, .. } => {
            let mut i: usize = 0;
            while i < cases.len()
                invariant
                    i <= cases@.len(),
                    emitting(ctx),
                    walk_frame(old(ctx), ctx),
                    chain(walk_state(ctx), *tree, i as nat, switch_place@, scrutinee@, success_block, failure_block, strings, bits)
                        == chain(s0, *tree, 0, switch_place@, scrutinee@, success_block, failure_block, strings, bits),
                    chain(s0, *tree, 0, switch_place@, scrutinee@, success_block, failure_block, strings, bits).temps <= u32::MAX,
                    tree is Switch && tree->cases == *cases && tree->default == *default,
                decreases cases.len() - i,
            {
                let ghost sc = walk_state(ctx);
                let c = &cases[i].0;
                let tested = if strings {
                    match c {
                        Constructor::StringLiteral(_) => true,
                        _ => false,
                    }
                } else {
                    match c {
                        Constructor::IntLiteral(_) | Constructor::IntRange { .. } => true,
                        _ => false,
                    }
                };
                if tested {
                    let ghost m = sc.blocks.len();
                    proof {
                        assert(chain_tests(cases@[i as int].0, strings));
                        let st = test_step(sc, switch_place@, *c, bits);
                        lemma_test_step_temps(sc, switch_place@, *c, bits);
                        lemma_test_step_grows(sc, switch_place@, *c, bits);
                        lemma_walk_grows(st, cases@[i as int].1, scrutinee@, success_block, failure_block);
                        let s1 = let_walk(st, cases@[i as int].1, scrutinee@, success_block, failure_block);
                        lemma_chain_grows(goto(s1, m + 1), *tree, (i + 1) as nat, switch_place@, scrutinee@, success_block, failure_block, strings, bits);
                    }
                    let (match_block, next_block) = walk_test(ctx, switch_place, c, bits);
                    proof {
                        let st = test_step(sc, switch_place@, *c, bits);
                        let s1 = let_walk(st, cases@[i as int].1, scrutinee@, success_block, failure_block);
                        assert(chain(sc, *tree, i as nat, switch_place@, scrutinee@, success_block, failure_block, strings, bits)
                            == chain(goto(s1, m + 1), *tree, (i + 1) as nat, switch_place@, scrutinee@, success_block, failure_block, strings, bits));
                        lemma_chain_grows(goto(s1, m + 1), *tree, (i + 1) as nat, switch_place@, scrutinee@, success_block, failure_block, strings, bits);
                        assert(s1.temps <= chain(sc, *tree, i as nat, switch_place@, scrutinee@, success_block, failure_block, strings, bits).temps);
                        assert(walk_state(ctx) == st);
                        assert(s1.temps <= u32::MAX);
                    }
                    emit_let_decision_tree(ctx, &cases[i].1, scrutinee, success_block, failure_block);
                    proof {
                        lemma_test_step_grows(sc, switch_place@, *c, bits);
                        lemma_walk_grows(test_step(sc, switch_place@, *c, bits), cases@[i as int].1, scrutinee@, success_block, failure_block);
                    }
                    ctx.walk_goto(next_block);
                } else {
                    proof {
                        assert(!chain_tests(cases@[i as int].0, strings));
                    }
                }
                i = i + 1;
            }
            match default {
                Some(d) => emit_let_decision_tree(ctx, d, scrutinee, success_block, failure_block),
                None => ctx.walk_term(TerminatorKind::Jump(failure_block)),
            }
        },
        _ => {},
    }
}


// ---------------------------------------------------------------------------
// Closed code
// ---------------------------------------------------------------------------

/// `r` continues `s` with closed code: the block current in `s` and every block
/// created since end with a terminator, and every other block of `s` is unchanged.
pub open spec fn closes(s: WalkState, r: WalkState) -> bool {
    &&& r.blocks.len() >= s.blocks.len()
    &&& r.blocks[s.cur as int].terminator is Some
    &&& forall|j: int| s.blocks.len() <= j < r.blocks.len() ==> (#[trigger] r.blocks[j]).terminator is Some
    &&& forall|j: int| 0 <= j < s.blocks.len() && j != s.cur ==> #[trigger] r.blocks[j] == s.blocks[j]
}

proof fn lemma_put_stmt_shape(s: WalkState, st: StmtV)
    requires
        s.cur < s.blocks.len(),
    ensures
        put_stmt(s, st).blocks.len() == s.blocks.len(),
        put_stmt(s, st).cur == s.cur,
        forall|j: int| 0 <= j < s.blocks.len() && j != s.cur ==> #[trigger] put_stmt(s, st).blocks[j] == s.blocks[j],
{
}

proof fn lemma_test_temps_shape(s: WalkState, sw: PlaceV, c: Constructor, bits: IntBits)
    requires
        s.cur < s.blocks.len(),
    ensures
        test_temps(s, sw, c, bits).blocks.len() == s.blocks.len(),
        test_temps(s, sw, c, bits).cur == s.cur,
        forall|j: int| 0 <= j < s.blocks.len() && j != s.cur ==> #[trigger] test_temps(s, sw, c, bits).blocks[j] == s.blocks[j],
{
    let l = s.locals.len();
    match c {
        Constructor::IntRange { start, end } => {
            let a = add_bool_temp(s, "cmp_lo"@);
            let st1 = binop_stmt(l, BinOp::LeSigned, ValueV::Immediate(ImmediateV::Int(bits, start)), ValueV::Place(sw));
            lemma_put_stmt_shape(a, st1);
            let s1 = put_stmt(a, st1);
            let b = add_bool_temp(s1, "cmp_hi"@);
            let st2 = binop_stmt(l + 1, BinOp::LeSigned, ValueV::Place(sw), ValueV::Immediate(ImmediateV::Int(bits, end)));
            lemma_put_stmt_shape(b, st2);
            let s2 = put_stmt(b, st2);
            let d = add_bool_temp(s2, "cmp_range"@);
            let st3 = binop_stmt(
                l + 2,
                BinOp::BoolAnd,
                ValueV::Place(PlaceV::Local(LocalId(l as usize))),
                ValueV::Place(PlaceV::Local(LocalId((l + 1) as usize))),
            );
            lemma_put_stmt_shape(d, st3);
        },
        Constructor::IntLiteral(v) => {
            lemma_put_stmt_shape(
                add_bool_temp(s, "cmp"@),
                binop_stmt(l, BinOp::Eq, ValueV::Place(sw), ValueV::Immediate(ImmediateV::Int(bits, v))),
            );
        },
        Constructor::StringLiteral(v) => {
            lemma_put_stmt_shape(
                add_bool_temp(s, "cmp"@),
                binop_stmt(l, BinOp::Eq, ValueV::Place(sw), ValueV::Immediate(ImmediateV::Str(v@))),
            );
        },
        _ => {},
    }
}

proof fn lemma_test_step_shape(s: WalkState, sw: PlaceV, c: Constructor, bits: IntBits)
    requires
        s.cur < s.blocks.len(),
    ensures
        ({
            let r = test_step(s, sw, c, bits);
            let n = s.blocks.len();
            &&& r.blocks.len() == n + 2
            &&& r.cur == n
            &&& r.blocks[s.cur as int].terminator is Some
            &&& r.blocks[n as int] == no_block()
            &&& r.blocks[n + 1int] == no_block()
            &&& forall|j: int| 0 <= j < n && j != s.cur ==> #[trigger] r.blocks[j] == s.blocks[j]
        }),
{
    let s0 = add_block(add_block(s));
    lemma_test_temps_shape(s0, sw, c, bits);
}

proof fn lemma_walk_closes(s: WalkState, t: DecisionTree, scrut: PlaceV, succ: BlockId, fail: BlockId)
    requires
        s.cur < s.blocks.len(),
    ensures
        closes(s, let_walk(s, t, scrut, succ, fail)),
    decreases t, node_len(t) + 3,
{
    match t {
        DecisionTree::Success { bindings, .. } => {},
        DecisionTree::Switch { path, kind, cases, default } => {
            let sw = path_place(scrut, path_view(path@));
            match kind {
                SwitchKind::Bool => lemma_bool_walk_closes(s, t, sw, scrut, succ, fail),
                SwitchKind::Enum => {
                    let base = s.blocks.len();
                    let k = variant_positions(cases@).len();
                    let s1 = put_term(
                        add_blocks(s, k + 1),
                        TermV::Switch { discriminant: sw, cases: enum_switch_targets(cases@, base, true) },
                    );
                    assert(cases@.take(0) =~= Seq::<(Constructor, DecisionTree)>::empty());
                    lemma_enum_bodies_closes(s1, t, 0, 0, base, scrut, succ, fail);
                    let s2 = goto(enum_bodies(s1, t, 0, 0, base, scrut, succ, fail), base + k);
                    let r = let_walk(s, t, scrut, succ, fail);
                    match default {
                        Some(d) => {
                            lemma_walk_closes(s2, *d, scrut, succ, fail);
                        },
                        None => {},
                    }
                    assert forall|j: int| s.blocks.len() <= j < r.blocks.len() implies (#[trigger] r.blocks[j]).terminator is Some by {
                        if j < base + k {
                            assert(r.blocks[j] == s2.blocks[j]);
                        }
                    }
                    assert forall|j: int| 0 <= j < s.blocks.len() && j != s.cur implies #[trigger] r.blocks[j] == s.blocks[j] by {
                        assert(r.blocks[j] == s2.blocks[j]);
                        assert(s2.blocks[j] == s1.blocks[j]);
                    }
                    assert(r.blocks[s.cur as int] == s2.blocks[s.cur as int]);
                },
                SwitchKind::Int(bits) => lemma_chain_closes(s, t, 0, sw, scrut, succ, fail, false, bits),
                SwitchKind::Str => lemma_chain_closes(s, t, 0, sw, scrut, succ, fail, true, IntBits::I64),
                SwitchKind::Tuple | SwitchKind::Struct => if cases@.len() > 0 {
                    lemma_walk_closes(s, cases@[0].1, scrut, succ, fail);
                } else {
                    match default {
                        Some(d) => lemma_walk_closes(s, *d, scrut, succ, fail),
                        None => {},
                    }
                },
                SwitchKind::Other => match default {
                    Some(d) => lemma_walk_closes(s, *d, scrut, succ, fail),
                    None => if cases@.len() > 0 {
                        lemma_walk_closes(s, cases@[0].1, scrut, succ, fail);
                    },
                },
            }
        },
        _ => {},
    }
}

proof fn lemma_bool_side_closes(s: WalkState, t: DecisionTree, value: bool, scrut: PlaceV, succ: BlockId, fail: BlockId)
    requires
        s.cur < s.blocks.len(),
        t is Switch,
    ensures
        closes(s, bool_side(s, t, value, scrut, succ, fail)),
    decreases t, node_len(t) + 1,
{
    match t {
        DecisionTree::Switch { cases, default, .. } => {
            lemma_bool_case_in_range(cases@, value, 0);
            match bool_case(cases@, value, 0) {
                Some(k) => lemma_walk_closes(s, cases@[k].1, scrut, succ, fail),
                None => match default {
                    Some(d) => lemma_walk_closes(s, *d, scrut, succ, fail),
                    None => {},
                },
            }
        },
        _ => {},
    }
}

proof fn lemma_bool_walk_closes(s: WalkState, t: DecisionTree, sw: PlaceV, scrut: PlaceV, succ: BlockId, fail: BlockId)
    requires
        s.cur < s.blocks.len(),
        t is Switch,
    ensures
        closes(s, bool_walk(s, t, sw, scrut, succ, fail)),
    decreases t, node_len(t) + 2,
{
    let tb = s.blocks.len();
    let s1 = goto(
        put_term(
            add_block(add_block(s)),
            TermV::Branch {
                condition: ValueV::Place(sw),
                then_block: BlockId(tb as usize),
                else_block: BlockId((tb + 1) as usize),
            },
        ),
        tb,
    );
    lemma_bool_side_closes(s1, t, true, scrut, succ, fail);
    let s2 = bool_side(s1, t, true, scrut, succ, fail);
    lemma_bool_side_closes(goto(s2, tb + 1), t, false, scrut, succ, fail);
    let r = bool_side(goto(s2, tb + 1), t, false, scrut, succ, fail);
    assert(r.blocks[tb as int] == s2.blocks[tb as int]);
    assert(r.blocks[s.cur as int] == s2.blocks[s.cur as int]);
    assert(s2.blocks[s.cur as int] == s1.blocks[s.cur as int]);
    assert forall|j: int| s.blocks.len() <= j < r.blocks.len() implies (#[trigger] r.blocks[j]).terminator is Some by {
        if j < s2.blocks.len() && j != tb + 1 {
            assert(r.blocks[j] == s2.blocks[j]);
        }
    }
    assert forall|j: int| 0 <= j < s.blocks.len() && j != s.cur implies #[trigger] r.blocks[j] == s.blocks[j] by {
        assert(r.blocks[j] == s2.blocks[j]);
        assert(s2.blocks[j] == s1.blocks[j]);
    }
}

proof fn lemma_enum_bodies_closes(
    s: WalkState,
    t: DecisionTree,
    i: nat,
    j: nat,
    base: nat,
    scrut: PlaceV,
    succ: BlockId,
    fail: BlockId,
)
    requires
        t is Switch,
        i <= t->cases@.len(),
        j == variant_positions(t->cases@.take(i as int)).len(),
        base + variant_positions(t->cases@).len() < s.blocks.len(),
    ensures
        ({
            let r = enum_bodies(s, t, i, j, base, scrut, succ, fail);
            let k = variant_positions(t->cases@).len();
            &&& r.blocks.len() >= s.blocks.len()
            &&& forall|x: int| base + j <= x < base + k ==> (#[trigger] r.blocks[x]).terminator is Some
            &&& forall|x: int| s.blocks.len() <= x < r.blocks.len() ==> (#[trigger] r.blocks[x]).terminator is Some
            &&& forall|x: int| 0 <= x < s.blocks.len() && !(base + j <= x < base + k) ==> #[trigger] r.blocks[x] == s.blocks[x]
        }),
    decreases t, node_len(t) + 1 - i,
{
    match t {
        DecisionTree::Switch { cases, .. } => {
            let k = variant_positions(cases@).len();
            lemma_variants_grow(cases@, i);
            if i >= cases@.len() {
                assert(cases@.take(i as int) =~= cases@);
            } else {
                assert(cases@.take(i + 1int).drop_last() =~= cases@.take(i as int));
                lemma_variants_grow(cases@, i + 1);
                if cases@[i as int].0 is Variant {
                    assert(variant_positions(cases@.take(i + 1int)).len() == j + 1);
                    let g = goto(s, base + j);
                    lemma_walk_closes(g, cases@[i as int].1, scrut, succ, fail);
                    let s1 = let_walk(g, cases@[i as int].1, scrut, succ, fail);
                    lemma_enum_bodies_closes(s1, t, i + 1, j + 1, base, scrut, succ, fail);
                    let r = enum_bodies(s1, t, i + 1, j + 1, base, scrut, succ, fail);
                    assert(r.blocks[base + j as int] == s1.blocks[base + j as int]);
                    assert forall|x: int| s.blocks.len() <= x < r.blocks.len() implies (#[trigger] r.blocks[x]).terminator is Some by {
                        if x < s1.blocks.len() {
                            assert(r.blocks[x] == s1.blocks[x]);
                        }
                    }
                    assert forall|x: int| 0 <= x < s.blocks.len() && !(base + j <= x < base + k) implies #[trigger] r.blocks[x] == s.blocks[x] by {
                        assert(r.blocks[x] == s1.blocks[x]);
                        assert(s1.blocks[x] == g.blocks[x]);
                    }
                } else {
                    assert(variant_positions(cases@.take(i + 1int)) =~= variant_positions(cases@.take(i as int)));
                    lemma_enum_bodies_closes(s, t, i + 1, j, base, scrut, succ, fail);
                }
            }
        },
        _ => {},
    }
}

proof fn lemma_chain_closes(
    s: WalkState,
    t: DecisionTree,
    i: nat,
    sw: PlaceV,
    scrut: PlaceV,
    succ: BlockId,
    fail: BlockId,
    strings: bool,
    bits: IntBits,
)
    requires
        s.cur < s.blocks.len(),
        t is Switch,
    ensures
        closes(s, chain(s, t, i, sw, scrut, succ, fail, strings, bits)),
    decreases t, node_len(t) + 1 - i,
{
    match t {
        DecisionTree::Switch { cases, default, .. } => if i >= cases@.len() {
            match default {
                Some(d) => lemma_walk_closes(s, *d, scrut, succ, fail),
                None => {},
            }
        } else if chain_tests(cases@[i as int].0, strings) {
            let m = s.blocks.len();
            lemma_test_step_shape(s, sw, cases@[i as int].0, bits);
            let s0 = test_step(s, sw, cases@[i as int].0, bits);
            lemma_walk_closes(s0, cases@[i as int].1, scrut, succ, fail);
            let s1 = let_walk(s0, cases@[i as int].1, scrut, succ, fail);
            let g = goto(s1, m + 1);
            lemma_chain_closes(g, t, i + 1, sw, scrut, succ, fail, strings, bits);
            let r = chain(g, t, i + 1, sw, scrut, succ, fail, strings, bits);
            assert(r.blocks[m as int] == s1.blocks[m as int]);
            assert(r.blocks[s.cur as int] == s1.blocks[s.cur as int]);
            assert(s1.blocks[s.cur as int] == s0.blocks[s.cur as int]);
            assert forall|j: int| s.blocks.len() <= j < r.blocks.len() implies (#[trigger] r.blocks[j]).terminator is Some by {
                if j < s1.blocks.len() && j != m + 1 {
                    assert(r.blocks[j] == s1.blocks[j]);
                }
            }
            assert forall|j: int| 0 <= j < s.blocks.len() && j != s.cur implies #[trigger] r.blocks[j] == s.blocks[j] by {
                assert(r.blocks[j] == s1.blocks[j]);
                assert(s1.blocks[j] == s0.blocks[j]);
            }
        } else {
            lemma_chain_closes(s, t, i + 1, sw, scrut, succ, fail, strings, bits);
        },
        _ => {},
    }
}

/// The code of the decision tree of an `if let` or `while let` condition is closed:
/// the block where it starts and every block it creates end with a terminator (no
/// path falls through), and it changes no other block.
pub proof fn law_let_code_is_closed(s: WalkState, t: DecisionTree, scrutinee: PlaceV, success_block: BlockId, failure_block: BlockId)
    requires
        s.cur < s.blocks.len(),
    ensures
        closes(s, let_walk(s, t, scrutinee, success_block, failure_block)),
{
    lemma_walk_closes(s, t, scrutinee, success_block, failure_block);
}

} // verus!
