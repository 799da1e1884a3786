//! Match lowering: access paths into the scrutinee, pattern bindings, and the MIR
//! that a decision tree's switches emit (integer and string case tests, two-way
//! branches, enum variant switches, the end of a matched arm), with the choice of
//! switch by the switched type.

use vstd::prelude::*;

use crate::context::{after_move, move_value_stmts, same_shape, status_maps, LoweringContext};
use crate::mir::{
    BinOp, BlockId, FunctionId, Immediate, ImmediateV, LocalId, MirContext, MirTy, Place, PlaceV, Rvalue, RvalueV,
    StmtV, TermV, TyId, Value, ValueV,
};
use crate::error::{LoweringError, Severity};
use crate::expr::temp_name;
use crate::text::{append_decimal_usize, append_escaped, append_str, decimal, escaped, owned};
use crate::sem::{IntBits, SemLocalId};

verus! {

/// One step of an access path into a matched value.
#[derive(Debug)]
pub enum PathElement {
    /// A named field of a struct.
    Field(String),
    /// A positional element of a tuple or a variant's payload.
    Index(usize),
    /// The payload of an enum variant.
    Downcast(String),
}

/// The view of a path step, with names as character sequences.
pub enum PathElementV {
    Field(Seq<char>),
    Index(usize),
    Downcast(Seq<char>),
}

impl View for PathElement {
    type V = PathElementV;

    open spec fn view(&self) -> PathElementV {
        match self {
            PathElement::Field(n) => PathElementV::Field(n@),
            PathElement::Index(i) => PathElementV::Index(*i),
            PathElement::Downcast(v) => PathElementV::Downcast(v@),
        }
    }
}

/// The views of an access path's steps.
pub open spec fn path_view(path: Seq<PathElement>) -> Seq<PathElementV> {
    path.map_values(|e: PathElement| e@)
}

/// The place reached from `base` by following the path, first step first.
pub open spec fn path_place(base: PlaceV, path: Seq<PathElementV>) -> PlaceV
    decreases path.len(),
{
    if path.len() == 0 {
        base
    } else {
        let inner = path_place(base, path.drop_last());
        match path.last() {
            PathElementV::Field(n) => PlaceV::Field(Box::new(inner), n),
            PathElementV::Index(i) => PlaceV::Index(Box::new(inner), i),
            PathElementV::Downcast(v) => PlaceV::Downcast(Box::new(inner), v),
        }
    }
}

/// The place of a sub-value: the base place projected along the access path.
pub fn apply_path(base: &Place, path: &Vec<PathElement>) -> (r: Place)
    ensures
        r@ == path_place(base@, path_view(path@)),
{
    let ghost pv = path_view(path@);
    let mut result = base.duplicate();
    let mut i: usize = 0;
    assert(pv.take(0) =~= Seq::<PathElementV>::empty());
    while i < path.len()
        invariant
            pv == path_view(path@),
            i <= path@.len(),
            result@ == path_place(base@, pv.take(i as int)),
        decreases path.len() - i,
    {
        proof {
            assert(pv.take(i + 1).drop_last() =~= pv.take(i as int));
            assert(pv.take(i + 1).last() == path@[i as int]@);
        }
        result = match &path[i] {
            PathElement::Field(name) => result.field(name.as_str()),
            PathElement::Index(idx) => result.index(*idx),
            PathElement::Downcast(variant) => result.downcast(variant.as_str()),
        };
        i = i + 1;
    }
    assert(pv.take(i as int) =~= pv);
    result
}

/// A constructor that a decision-tree switch tests for.
#[allow(inconsistent_fields)]
#[derive(Debug)]
pub enum Constructor {
    /// The boolean `true`.
    True,
    /// The boolean `false`.
    False,
    /// An enum variant with its number of payload values.
    Variant { name: String, arity: usize },
    /// An integer literal.
    IntLiteral(i64),
    /// A string literal.
    StringLiteral(String),
    /// A character literal.
    CharLiteral(char),
    /// An inclusive range of integers.
    IntRange { start: i64, end: i64 },
    /// An inclusive range of characters.
    CharRange { start: char, end: char },
    /// The only constructor of a tuple or struct type.
    Single,
}

/// The constructor is a literal or a range of literals.
pub open spec fn is_literal_constructor(c: Constructor) -> bool {
    match c {
        Constructor::IntLiteral(_) | Constructor::StringLiteral(_) | Constructor::CharLiteral(_)
        | Constructor::IntRange { .. } | Constructor::CharRange { .. } => true,
        _ => false,
    }
}

/// Whether some case tests a literal (or a range of literals).
pub fn has_literal_constructors<T>(cases: &Vec<(Constructor, T)>) -> (r: bool)
    ensures
        r == exists|i: int| 0 <= i < cases@.len() && is_literal_constructor(#[trigger] cases@[i].0),
{
    let mut i: usize = 0;
    while i < cases.len()
        invariant
            i <= cases@.len(),
            forall|k: int| 0 <= k < i ==> !is_literal_constructor(#[trigger] cases@[k].0),
        decreases cases.len() - i,
    {
        match &cases[i].0 {
            Constructor::IntLiteral(_) | Constructor::StringLiteral(_) | Constructor::CharLiteral(_)
            | Constructor::IntRange { .. } | Constructor::CharRange { .. } => {
                assert(is_literal_constructor(cases@[i as int].0));
                return true;
            },
            _ => {},
        }
        i = i + 1;
    }
    false
}


/// A variable bound by a pattern: its name, the semantic local it declares, where
/// its value sits in the matched value, and its type as lowered to MIR.
#[derive(Debug)]
pub struct Binding {
    pub name: String,
    pub local_id: SemLocalId,
    pub path: Vec<PathElement>,
    pub ty: TyId,
}

/// The local map after binding each pattern variable to a new local, the first to
/// local `first`, the next to `first + 1`, and so on (a later binding of the same
/// semantic local wins).
pub open spec fn bound_map(
    m: Map<SemLocalId, LocalId>,
    bs: Seq<Binding>,
    first: nat,
) -> Map<SemLocalId, LocalId>
    decreases bs.len(),
{
    if bs.len() == 0 {
        m
    } else {
        bound_map(m, bs.drop_last(), first).insert(bs.last().local_id, LocalId((first + bs.len() - 1) as usize))
    }
}

/// The copies of the bound values into their locals (`first`, `first + 1`, ...).
pub open spec fn binding_copies(scrutinee: PlaceV, bs: Seq<Binding>, first: nat) -> Seq<StmtV> {
    Seq::new(
        bs.len(),
        |i: int|
            StmtV::Assign {
                dest: PlaceV::Local(LocalId((first + i) as usize)),
                rvalue: RvalueV::Copy(path_place(scrutinee, path_view(bs[i].path@))),
            },
    )
}

/// `new` is `old` with one local of function `f` per binding added (named and typed
/// as the binding); no name, type, static or other function changed.
pub open spec fn binding_locals_added(old: &MirContext, new: &MirContext, f: FunctionId, bs: Seq<Binding>) -> bool {
    let n = old.locals@.len();
    &&& new.names == old.names
    &&& new.types == old.types
    &&& new.statics == old.statics
    &&& new.locals@.len() == n + bs.len()
    &&& old.locals@.is_prefix_of(new.locals@)
    &&& forall|i: int| 0 <= i < bs.len() ==> {
        &&& (#[trigger] new.locals@[n + i]).name@ == bs[i].name@
        &&& new.locals@[n + i].ty == bs[i].ty
    }
    &&& new.functions@.len() == old.functions@.len()
    &&& forall|j: int| 0 <= j < old.functions@.len() && j != f.0 ==> new.functions@[j] == old.functions@[j]
    &&& new.functions@[f.0 as int].locals@ == old.functions@[f.0 as int].locals@ + Seq::new(
        bs.len(),
        |i: int| LocalId((n + i) as usize),
    )
    &&& new.functions@[f.0 as int].blocks == old.functions@[f.0 as int].blocks
    &&& new.functions@[f.0 as int].params == old.functions@[f.0 as int].params
    &&& new.functions@[f.0 as int].name == old.functions@[f.0 as int].name
    &&& new.functions@[f.0 as int].return_ty == old.functions@[f.0 as int].return_ty
    &&& new.functions@[f.0 as int].entry_block == old.functions@[f.0 as int].entry_block
}

/// Binds the pattern variables: for each binding, in order, creates a local of its
/// name and type, maps its semantic local to it, and copies the value at its path in
/// the scrutinee into it (in the current block).
pub fn emit_bindings(ctx: &mut LoweringContext, bindings: &Vec<Binding>, scrutinee: &Place)
    requires
        old(ctx).inv(),
        old(ctx).cur_function() is Some,
        old(ctx).cur_block() is Some,
    ensures
        final(ctx).inv(),
        ({
            let first = old(ctx).mir.locals@.len();
            let b = old(ctx).cur_block().unwrap();
            &&& binding_locals_added(&old(ctx).mir, &final(ctx).mir, old(ctx).cur_function().unwrap(), bindings@)
            &&& final(ctx).mir.blocks@.len() == old(ctx).mir.blocks@.len()
            &&& forall|j: int| 0 <= j < old(ctx).mir.blocks@.len() && j != b.0
                ==> final(ctx).mir.blocks@[j] == old(ctx).mir.blocks@[j]
            &&& final(ctx).mir.stmts_of(b) == old(ctx).mir.stmts_of(b) + binding_copies(scrutinee@, bindings@, first)
            &&& final(ctx).mir.blocks@[b.0 as int].terminator == old(ctx).mir.blocks@[b.0 as int].terminator
            &&& final(ctx).local_map_view() == bound_map(old(ctx).local_map_view(), bindings@, first)
        }),
        final(ctx).cur_function() == old(ctx).cur_function(),
        final(ctx).type_param_view() == old(ctx).type_param_view(),
        final(ctx).cur_block() == old(ctx).cur_block(),
        final(ctx).loops() == old(ctx).loops(),
        final(ctx).scopes() == old(ctx).scopes(),
        final(ctx).temps() == old(ctx).temps(),
        final(ctx).diags() == old(ctx).diags(),
        final(ctx).temp_count() == old(ctx).temp_count(),
        final(ctx).closure_count() == old(ctx).closure_count(),
        final(ctx).flag_count() == old(ctx).flag_count(),
{
    let ghost first = ctx.mir.locals@.len();
    let ghost f = ctx.cur_function().unwrap();
    let ghost b = ctx.cur_block().unwrap();
    let ghost bs = bindings@;
    let ghost m0 = ctx.mir;
    let mut i: usize = 0;
    proof {
        assert(m0.locals@.is_prefix_of(m0.locals@));
        assert(m0.functions@[f.0 as int].locals@ =~= m0.functions@[f.0 as int].locals@ + Seq::new(
            0,
            |k: int| LocalId((first + k) as usize),
        ));
        assert(bs.take(0) =~= Seq::<Binding>::empty());
        assert(m0.stmts_of(b) + binding_copies(scrutinee@, bs.take(0), first) =~= m0.stmts_of(b));
    }
    while i < bindings.len()
        invariant
            bs == bindings@,
            i <= bs.len(),
            first == old(ctx).mir.locals@.len(),
            m0 == old(ctx).mir,
            old(ctx).cur_function() == Some(f),
            old(ctx).cur_block() == Some(b),
            ctx.inv(),
            ctx.cur_function() == old(ctx).cur_function(),
            ctx.type_param_view() == old(ctx).type_param_view(),
            ctx.cur_block() == old(ctx).cur_block(),
            ctx.loops() == old(ctx).loops(),
            ctx.scopes() == old(ctx).scopes(),
            ctx.temps() == old(ctx).temps(),
            ctx.diags() == old(ctx).diags(),
            ctx.temp_count() == old(ctx).temp_count(),
            ctx.closure_count() == old(ctx).closure_count(),
            ctx.flag_count() == old(ctx).flag_count(),
            binding_locals_added(&m0, &ctx.mir, f, bs.take(i as int)),
            ctx.mir.blocks@.len() == m0.blocks@.len(),
            forall|j: int| 0 <= j < m0.blocks@.len() && j != b.0 ==> ctx.mir.blocks@[j] == m0.blocks@[j],
            ctx.mir.stmts_of(b) == m0.stmts_of(b) + binding_copies(scrutinee@, bs.take(i as int), first),
            ctx.mir.blocks@[b.0 as int].terminator == m0.blocks@[b.0 as int].terminator,
            ctx.local_map_view() == bound_map(old(ctx).local_map_view(), bs.take(i as int), first),
        decreases bindings.len() - i,
    {
        let binding = &bindings[i];
        let ghost m1 = ctx.mir;
        let source_place = apply_path(scrutinee, &binding.path);
        let local = ctx.create_local(binding.name.as_str(), binding.ty);
        let ghost m2 = ctx.mir;
        ctx.map_local(binding.local_id, local);
        ctx.emit_copy(Place::local(local), source_place);
        proof {
            let t = bs.take(i + 1);
            assert(t.drop_last() =~= bs.take(i as int));
            assert(t.last() == bs[i as int]);
            assert(local.0 == first + i);
            // locals
            assert(m0.locals@.is_prefix_of(ctx.mir.locals@)) by {
                assert forall|k: int| 0 <= k < m0.locals@.len() implies m0.locals@[k] == ctx.mir.locals@[k] by {
                    assert(m1.locals@[k] == m0.locals@[k]);
                    assert(m2.locals@.drop_last()[k] == m2.locals@[k]);
                }
            }
            assert forall|k: int| 0 <= k < t.len() implies {
                &&& (#[trigger] ctx.mir.locals@[first + k]).name@ == t[k].name@
                &&& ctx.mir.locals@[first + k].ty == t[k].ty
            } by {
                if k < i {
                    assert(m2.locals@.drop_last()[first + k] == m2.locals@[first + k]);
                    assert(bs.take(i as int)[k] == t[k]);
                }
            }
            assert(ctx.mir.functions@[f.0 as int].locals@ =~= m0.functions@[f.0 as int].locals@ + Seq::new(
                t.len(),
                |k: int| LocalId((first + k) as usize),
            ));
            assert(binding_copies(scrutinee@, t, first) =~= binding_copies(scrutinee@, bs.take(i as int), first).push(
                StmtV::Assign {
                    dest: PlaceV::Local(local),
                    rvalue: RvalueV::Copy(path_place(scrutinee@, path_view(bs[i as int].path@))),
                },
            ));
            assert(ctx.mir.stmts_of(b) =~= m0.stmts_of(b) + binding_copies(scrutinee@, t, first));
        }
        i = i + 1;
    }
    assert(bs.take(i as int) =~= bs);
}


// ---------------------------------------------------------------------------
// Switch tests
// ---------------------------------------------------------------------------

/// Nothing but the MIR, the current block and the temporary counter changed.
pub open spec fn same_but_block_temps(new: &LoweringContext, old: &LoweringContext) -> bool {
    &&& new.cur_function() == old.cur_function()
    &&& new.type_param_view() == old.type_param_view()
    &&& new.local_map_view() == old.local_map_view()
    &&& new.loops() == old.loops()
    &&& new.scopes() == old.scopes()
    &&& new.temps() == old.temps()
    &&& new.diags() == old.diags()
    &&& new.closure_count() == old.closure_count()
    &&& new.flag_count() == old.flag_count()
}

/// `new` is `old` with boolean temporaries of function `f` added as locals, named
/// `names[0]`, `names[1]`, ...; no name, static or other function changed, and types
/// were only added.
pub open spec fn bool_temps_added(old: &MirContext, new: &MirContext, f: FunctionId, names: Seq<Seq<char>>) -> bool {
    let n = old.locals@.len();
    &&& new.names == old.names
    &&& new.statics == old.statics
    &&& old.types@.is_prefix_of(new.types@)
    &&& new.locals@.len() == n + names.len()
    &&& old.locals@.is_prefix_of(new.locals@)
    &&& forall|i: int| 0 <= i < names.len() ==> {
        &&& (#[trigger] new.locals@[n + i]).name@ == names[i]
        &&& new.locals@[n + i].ty.0 < new.types@.len()
        &&& new.types@[new.locals@[n + i].ty.0 as int] == MirTy::Bool
    }
    &&& new.functions@.len() == old.functions@.len()
    &&& forall|j: int| 0 <= j < old.functions@.len() && j != f.0 ==> new.functions@[j] == old.functions@[j]
    &&& new.functions@[f.0 as int].locals@ == old.functions@[f.0 as int].locals@ + Seq::new(
        names.len(),
        |i: int| LocalId((n + i) as usize),
    )
    &&& new.functions@[f.0 as int].params == old.functions@[f.0 as int].params
    &&& new.functions@[f.0 as int].name == old.functions@[f.0 as int].name
    &&& new.functions@[f.0 as int].return_ty == old.functions@[f.0 as int].return_ty
    &&& new.functions@[f.0 as int].entry_block == old.functions@[f.0 as int].entry_block
}

/// Creates a boolean temporary named from `prefix` and assigns `rvalue` to it in the
/// current block.
fn assign_bool_temp(ctx: &mut LoweringContext, prefix: &str, rvalue: Rvalue) -> (r: LocalId)
    requires
        old(ctx).inv(),
        old(ctx).cur_function() is Some,
        old(ctx).cur_block() is Some,
        old(ctx).temp_count() < u32::MAX,
    ensures
        final(ctx).inv(),
        r.0 == old(ctx).mir.locals@.len(),
        bool_temps_added(
            &old(ctx).mir,
            &final(ctx).mir,
            old(ctx).cur_function().unwrap(),
            seq![temp_name(prefix@, old(ctx).temp_count() as nat)],
        ),
        final(ctx).mir.functions@[old(ctx).cur_function().unwrap().0 as int].blocks
            == old(ctx).mir.functions@[old(ctx).cur_function().unwrap().0 as int].blocks,
        final(ctx).mir.blocks@.len() == old(ctx).mir.blocks@.len(),
        forall|j: int| 0 <= j < old(ctx).mir.blocks@.len() && j != old(ctx).cur_block().unwrap().0
            ==> final(ctx).mir.blocks@[j] == old(ctx).mir.blocks@[j],
        final(ctx).mir.stmts_of(old(ctx).cur_block().unwrap()) == old(ctx).mir.stmts_of(
            old(ctx).cur_block().unwrap(),
        ).push(StmtV::Assign { dest: PlaceV::Local(r), rvalue: rvalue@ }),
        final(ctx).mir.term_of(old(ctx).cur_block().unwrap()) == old(ctx).mir.term_of(old(ctx).cur_block().unwrap()),
        final(ctx).cur_block() == old(ctx).cur_block(),
        final(ctx).temp_count() == old(ctx).temp_count() + 1,
        same_but_block_temps(final(ctx), old(ctx)),
{
    let ghost f = ctx.cur_function().unwrap();
    let ghost m0 = ctx.mir;
    let ty = ctx.mir.ty_bool();
    let ghost m1 = ctx.mir;
    let local = ctx.create_temp(prefix, ty);
    let ghost m2 = ctx.mir;
    let ghost rv = rvalue@;
    ctx.emit_assign(Place::local(local), rvalue);
    proof {
        let n = m0.locals@.len();
        assert(m0.locals@.is_prefix_of(ctx.mir.locals@)) by {
            assert forall|k: int| 0 <= k < n implies m0.locals@[k] == ctx.mir.locals@[k] by {
                assert(m2.locals@.drop_last()[k] == m2.locals@[k]);
            }
        }
        assert(m0.types@.is_prefix_of(ctx.mir.types@));
        assert(ctx.mir.locals@[n as int] == m2.locals@.last());
        assert(ctx.mir.functions@.len() == m0.functions@.len());
        assert(forall|j: int| 0 <= j < m0.functions@.len() && j != f.0 ==> ctx.mir.functions@[j] == m0.functions@[j]);
        assert(ctx.mir.functions@[f.0 as int].locals@ =~= m0.functions@[f.0 as int].locals@ + Seq::new(
            1,
            |i: int| LocalId((n + i) as usize),
        ));
    }
    local
}


/// `new` is `old` after a two-way test emitted in the current block `b`: two empty
/// blocks `n` and `n + 1` created (n the old number of blocks) and added to the
/// function, the boolean temporaries `names` added as locals, `stmts` appended to `b`,
/// which then branches on the last temporary to block `n` (matched) or `n + 1` (not
/// matched); emission continues in block `n`.
pub open spec fn test_emitted(old: &LoweringContext, new: &LoweringContext, names: Seq<Seq<char>>, stmts: Seq<StmtV>) -> bool {
    let b = old.cur_block().unwrap();
    let f = old.cur_function().unwrap();
    let n = old.mir.blocks@.len();
    let cond = LocalId((old.mir.locals@.len() + names.len() - 1) as usize);
    &&& new.inv()
    &&& bool_temps_added(&old.mir, &new.mir, f, names)
    &&& new.mir.functions@[f.0 as int].blocks@ == old.mir.functions@[f.0 as int].blocks@.push(BlockId(n as usize)).push(
        BlockId((n + 1) as usize),
    )
    &&& new.mir.blocks@.len() == n + 2
    &&& forall|j: int| 0 <= j < n && j != b.0 ==> new.mir.blocks@[j] == old.mir.blocks@[j]
    &&& new.mir.stmts_of(b) == old.mir.stmts_of(b) + stmts
    &&& new.mir.term_of(b) == Some(
        TermV::Branch {
            condition: ValueV::Place(PlaceV::Local(cond)),
            then_block: BlockId(n as usize),
            else_block: BlockId((n + 1) as usize),
        },
    )
    &&& new.mir.blocks@[n as int].statements@.len() == 0
    &&& new.mir.blocks@[n as int].terminator is None
    &&& new.mir.blocks@[n + 1int].statements@.len() == 0
    &&& new.mir.blocks@[n + 1int].terminator is None
    &&& new.cur_block() == Some(BlockId(n as usize))
    &&& new.temp_count() == old.temp_count() + names.len()
    &&& same_but_block_temps(new, old)
}

/// Creates the matched and the unmatched block of a test, in that order.
fn create_test_blocks(ctx: &mut LoweringContext) -> (r: (BlockId, BlockId))
    requires
        old(ctx).inv(),
        old(ctx).cur_function() is Some,
        old(ctx).cur_block() is Some,
    ensures
        final(ctx).inv(),
        final(ctx).same_state(old(ctx)),
        r.0.0 == old(ctx).mir.blocks@.len(),
        r.1.0 == old(ctx).mir.blocks@.len() + 1,
        final(ctx).mir.blocks@.len() == old(ctx).mir.blocks@.len() + 2,
        forall|j: int| 0 <= j < old(ctx).mir.blocks@.len() ==> final(ctx).mir.blocks@[j] == old(ctx).mir.blocks@[j],
        final(ctx).mir.blocks@[r.0.0 as int].statements@.len() == 0,
        final(ctx).mir.blocks@[r.0.0 as int].terminator is None,
        final(ctx).mir.blocks@[r.1.0 as int].statements@.len() == 0,
        final(ctx).mir.blocks@[r.1.0 as int].terminator is None,
        final(ctx).mir.names == old(ctx).mir.names,
        final(ctx).mir.types == old(ctx).mir.types,
        final(ctx).mir.locals == old(ctx).mir.locals,
        final(ctx).mir.statics == old(ctx).mir.statics,
        final(ctx).mir.functions@.len() == old(ctx).mir.functions@.len(),
        ({
            let f = old(ctx).cur_function().unwrap().0 as int;
            &&& forall|j: int| 0 <= j < old(ctx).mir.functions@.len() && j != f
                ==> final(ctx).mir.functions@[j] == old(ctx).mir.functions@[j]
            &&& final(ctx).mir.functions@[f].blocks@ == old(ctx).mir.functions@[f].blocks@.push(r.0).push(r.1)
            &&& final(ctx).mir.functions@[f].locals == old(ctx).mir.functions@[f].locals
            &&& final(ctx).mir.functions@[f].params == old(ctx).mir.functions@[f].params
            &&& final(ctx).mir.functions@[f].name == old(ctx).mir.functions@[f].name
            &&& final(ctx).mir.functions@[f].return_ty == old(ctx).mir.functions@[f].return_ty
            &&& final(ctx).mir.functions@[f].entry_block == old(ctx).mir.functions@[f].entry_block
        }),
{
    let match_block = ctx.create_block();
    let next_block = ctx.create_block();
    (match_block, next_block)
}

/// Branches from the current block on `cond` to the matched or the unmatched block,
/// and continues in the matched one.
fn branch_to_test_blocks(ctx: &mut LoweringContext, cond: LocalId, blocks: (BlockId, BlockId))
    requires
        old(ctx).inv(),
        old(ctx).cur_block() is Some,
        blocks.0.0 < old(ctx).mir.blocks@.len(),
    ensures
        final(ctx).inv(),
        final(ctx).same_but_block(old(ctx)),
        final(ctx).cur_function() == old(ctx).cur_function(),
        final(ctx).mir.only_block_changed(&old(ctx).mir, old(ctx).cur_block().unwrap()),
        final(ctx).mir.stmts_of(old(ctx).cur_block().unwrap()) == old(ctx).mir.stmts_of(old(ctx).cur_block().unwrap()),
        final(ctx).mir.term_of(old(ctx).cur_block().unwrap()) == Some(
            TermV::Branch {
                condition: ValueV::Place(PlaceV::Local(cond)),
                then_block: blocks.0,
                else_block: blocks.1,
            },
        ),
        final(ctx).cur_block() == Some(blocks.0),
{
    ctx.emit_branch(Value::Place(Place::local(cond)), blocks.0, blocks.1);
    ctx.set_current_block(blocks.0);
}

/// Emits the test of one string case of a comparison chain: compares the switched
/// place with the literal (`cmp = switch StrEq value`), branches on the result and
/// continues in the matched block; returns the matched and the unmatched block.
pub fn emit_string_case_test(ctx: &mut LoweringContext, switch_place: &Place, value: &str) -> (r: (BlockId, BlockId))
    requires
        old(ctx).inv(),
        old(ctx).cur_function() is Some,
        old(ctx).cur_block() is Some,
        old(ctx).temp_count() < u32::MAX,
    ensures
        r == (BlockId(old(ctx).mir.blocks@.len() as usize), BlockId((old(ctx).mir.blocks@.len() + 1) as usize)),
        test_emitted(
            old(ctx),
            final(ctx),
            seq![temp_name("cmp"@, old(ctx).temp_count() as nat)],
            seq![
                StmtV::Assign {
                    dest: PlaceV::Local(LocalId(old(ctx).mir.locals@.len() as usize)),
                    rvalue: RvalueV::BinaryOp {
                        op: BinOp::StrEq,
                        lhs: ValueV::Place(switch_place@),
                        rhs: ValueV::Immediate(ImmediateV::Str(value@)),
                    },
                }
            ],
        ),
{
    let ghost c0 = *ctx;
    let blocks = create_test_blocks(ctx);
    let ghost c1 = *ctx;
    let cond = assign_bool_temp(
        ctx,
        "cmp",
        Rvalue::BinaryOp {
            op: BinOp::StrEq,
            lhs: Value::Place(switch_place.duplicate()),
            rhs: Value::Immediate(Immediate::Str(owned(value))),
        },
    );
    let ghost c2 = *ctx;
    branch_to_test_blocks(ctx, cond, blocks);
    proof {
        let b = c0.cur_block().unwrap();
        let f = c0.cur_function().unwrap();
        assert(ctx.mir.stmts_of(b) =~= c0.mir.stmts_of(b) + seq![
            StmtV::Assign {
                dest: PlaceV::Local(cond),
                rvalue: RvalueV::BinaryOp {
                    op: BinOp::StrEq,
                    lhs: ValueV::Place(switch_place@),
                    rhs: ValueV::Immediate(ImmediateV::Str(value@)),
                },
            }
        ]);
    }
    blocks
}


/// A test of an integer (or character) constructor: a literal or an inclusive range.
pub open spec fn is_int_test(c: Constructor) -> bool {
    match c {
        Constructor::IntLiteral(_) | Constructor::CharLiteral(_) | Constructor::IntRange { .. }
        | Constructor::CharRange { .. } => true,
        _ => false,
    }
}

/// The names of the temporaries of an integer test, from counter value `n`: `cmp`
/// for a literal; `cmp_lo`, `cmp_hi` and `cmp_range` for a range.
pub open spec fn int_test_names(c: Constructor, n: nat) -> Seq<Seq<char>> {
    match c {
        Constructor::IntLiteral(_) | Constructor::CharLiteral(_) => seq![temp_name("cmp"@, n)],
        Constructor::IntRange { .. } | Constructor::CharRange { .. } => seq![
            temp_name("cmp_lo"@, n),
            temp_name("cmp_hi"@, n + 1),
            temp_name("cmp_range"@, n + 2)
        ],
        _ => Seq::empty(),
    }
}

/// The statement testing the switched place for equality with `v`, into local `l`.
pub open spec fn int_eq_stmt(l: nat, sw: PlaceV, bits: IntBits, v: i64) -> StmtV {
    StmtV::Assign {
        dest: PlaceV::Local(LocalId(l as usize)),
        rvalue: RvalueV::BinaryOp { op: BinOp::Eq, lhs: ValueV::Place(sw), rhs: ValueV::Immediate(ImmediateV::Int(bits, v)) },
    }
}

/// The statements testing `start <= switched <= end` (signed), into locals `l`
/// (lower bound), `l + 1` (upper bound) and `l + 2` (both).
pub open spec fn int_range_stmts(l: nat, sw: PlaceV, bits: IntBits, start: i64, end: i64) -> Seq<StmtV> {
    seq![
        StmtV::Assign {
            dest: PlaceV::Local(LocalId(l as usize)),
            rvalue: RvalueV::BinaryOp {
                op: BinOp::LeSigned,
                lhs: ValueV::Immediate(ImmediateV::Int(bits, start)),
                rhs: ValueV::Place(sw),
            },
        },
        StmtV::Assign {
            dest: PlaceV::Local(LocalId((l + 1) as usize)),
            rvalue: RvalueV::BinaryOp {
                op: BinOp::LeSigned,
                lhs: ValueV::Place(sw),
                rhs: ValueV::Immediate(ImmediateV::Int(bits, end)),
            },
        },
        StmtV::Assign {
            dest: PlaceV::Local(LocalId((l + 2) as usize)),
            rvalue: RvalueV::BinaryOp {
                op: BinOp::BoolAnd,
                lhs: ValueV::Place(PlaceV::Local(LocalId(l as usize))),
                rhs: ValueV::Place(PlaceV::Local(LocalId((l + 1) as usize))),
            },
        }
    ]
}

/// The statements of an integer test of the switched place, with temporaries from
/// local `l`; a character is compared by its code point.
pub open spec fn int_test_stmts(sw: PlaceV, c: Constructor, l: nat, bits: IntBits) -> Seq<StmtV> {
    match c {
        Constructor::IntLiteral(v) => seq![int_eq_stmt(l, sw, bits, v)],
        Constructor::CharLiteral(ch) => seq![int_eq_stmt(l, sw, bits, ch as i64)],
        Constructor::IntRange { start, end } => int_range_stmts(l, sw, bits, start, end),
        Constructor::CharRange { start, end } => int_range_stmts(l, sw, bits, start as i64, end as i64),
        _ => Seq::empty(),
    }
}

/// The test `lo <= switched <= hi` (signed) through three boolean temporaries; returns
/// the last.
fn assign_range_test(ctx: &mut LoweringContext, switch_place: &Place, bits: IntBits, lo: i64, hi: i64) -> (r: LocalId)
    requires
        old(ctx).inv(),
        old(ctx).cur_function() is Some,
        old(ctx).cur_block() is Some,
        old(ctx).temp_count() + 3 <= u32::MAX,
    ensures
        final(ctx).inv(),
        r.0 == old(ctx).mir.locals@.len() + 2,
        bool_temps_added(
            &old(ctx).mir,
            &final(ctx).mir,
            old(ctx).cur_function().unwrap(),
            seq![
                temp_name("cmp_lo"@, old(ctx).temp_count() as nat),
                temp_name("cmp_hi"@, (old(ctx).temp_count() + 1) as nat),
                temp_name("cmp_range"@, (old(ctx).temp_count() + 2) as nat)
            ],
        ),
        final(ctx).mir.functions@[old(ctx).cur_function().unwrap().0 as int].blocks
            == old(ctx).mir.functions@[old(ctx).cur_function().unwrap().0 as int].blocks,
        final(ctx).mir.blocks@.len() == old(ctx).mir.blocks@.len(),
        forall|j: int| 0 <= j < old(ctx).mir.blocks@.len() && j != old(ctx).cur_block().unwrap().0
            ==> final(ctx).mir.blocks@[j] == old(ctx).mir.blocks@[j],
        final(ctx).mir.stmts_of(old(ctx).cur_block().unwrap()) == old(ctx).mir.stmts_of(
            old(ctx).cur_block().unwrap(),
        ) + int_range_stmts(old(ctx).mir.locals@.len(), switch_place@, bits, lo, hi),
        final(ctx).mir.term_of(old(ctx).cur_block().unwrap()) == old(ctx).mir.term_of(old(ctx).cur_block().unwrap()),
        final(ctx).cur_block() == old(ctx).cur_block(),
        final(ctx).temp_count() == old(ctx).temp_count() + 3,
        same_but_block_temps(final(ctx), old(ctx)),
{
    let ghost m0 = ctx.mir;
    let ghost f = ctx.cur_function().unwrap();
    let ghost b = ctx.cur_block().unwrap();
    let ghost tc = ctx.temp_count() as nat;
    let ghost n: int = ctx.mir.locals@.len() as int;
    let lo_test = assign_bool_temp(
        ctx,
        "cmp_lo",
        Rvalue::BinaryOp {
            op: BinOp::LeSigned,
            lhs: Value::Immediate(Immediate::Int(bits, lo)),
            rhs: Value::Place(switch_place.duplicate()),
        },
    );
    let ghost m1 = ctx.mir;
    let hi_test = assign_bool_temp(
        ctx,
        "cmp_hi",
        Rvalue::BinaryOp {
            op: BinOp::LeSigned,
            lhs: Value::Place(switch_place.duplicate()),
            rhs: Value::Immediate(Immediate::Int(bits, hi)),
        },
    );
    let ghost m2 = ctx.mir;
    let both = assign_bool_temp(
        ctx,
        "cmp_range",
        Rvalue::BinaryOp {
            op: BinOp::BoolAnd,
            lhs: Value::Place(Place::local(lo_test)),
            rhs: Value::Place(Place::local(hi_test)),
        },
    );
    proof {
        let names = seq![temp_name("cmp_lo"@, tc), temp_name("cmp_hi"@, tc + 1), temp_name("cmp_range"@, tc + 2)];
        assert(m0.locals@.is_prefix_of(ctx.mir.locals@)) by {
            assert forall|k: int| 0 <= k < n implies m0.locals@[k] == ctx.mir.locals@[k] by {
                assert(m1.locals@[k] == m0.locals@[k]);
                assert(m2.locals@[k] == m1.locals@[k]);
            }
        }
        assert(m0.types@.is_prefix_of(ctx.mir.types@)) by {
            assert forall|k: int| 0 <= k < m0.types@.len() implies m0.types@[k] == ctx.mir.types@[k] by {
                assert(m1.types@[k] == m0.types@[k]);
                assert(m2.types@[k] == m1.types@[k]);
            }
        }
        let l0 = m1.locals@[m0.locals@.len() + 0int];
        let l1 = m2.locals@[m1.locals@.len() + 0int];
        let l2 = ctx.mir.locals@[m2.locals@.len() + 0int];
        assert(m1.locals@.len() == n + 1 && m2.locals@.len() == n + 2);
        assert(l0.name@ == names[0] && m1.types@[l0.ty.0 as int] == MirTy::Bool && l0.ty.0 < m1.types@.len());
        assert(l1.name@ == names[1] && m2.types@[l1.ty.0 as int] == MirTy::Bool && l1.ty.0 < m2.types@.len());
        assert(l2.name@ == names[2] && ctx.mir.types@[l2.ty.0 as int] == MirTy::Bool);
        assert(ctx.mir.locals@[n + 0] == l0);
        assert(ctx.mir.locals@[n + 1] == l1);
        assert(ctx.mir.types@[l0.ty.0 as int] == m1.types@[l0.ty.0 as int]);
        assert(ctx.mir.types@[l1.ty.0 as int] == m2.types@[l1.ty.0 as int]);
        assert forall|i: int| 0 <= i < names.len() implies {
            &&& (#[trigger] ctx.mir.locals@[n + i]).name@ == names[i]
            &&& ctx.mir.locals@[n + i].ty.0 < ctx.mir.types@.len()
            &&& ctx.mir.types@[ctx.mir.locals@[n + i].ty.0 as int] == MirTy::Bool
        } by {
            if i == 0 {
                assert(ctx.mir.locals@[n + i] == l0);
            } else if i == 1 {
                assert(ctx.mir.locals@[n + i] == l1);
            } else {
                assert(ctx.mir.locals@[n + i] == l2);
            }
        }
        assert(ctx.mir.functions@[f.0 as int].locals@ =~= m0.functions@[f.0 as int].locals@ + Seq::new(
            3,
            |i: int| LocalId((n + i) as usize),
        ));
        assert(ctx.mir.stmts_of(b) =~= m0.stmts_of(b) + int_range_stmts(n as nat, switch_place@, bits, lo, hi));
    }
    both
}


/// The debug text of a constructor that is not an integer test, as a derived
/// `Debug` writes it: the variant's name, and its fields with strings in double
/// quotes (escaped, see `escaped`) and numbers in decimal.
pub open spec fn constructor_text(c: Constructor) -> Seq<char> {
    match c {
        Constructor::True => "True"@,
        Constructor::False => "False"@,
        Constructor::Single => "Single"@,
        Constructor::Variant { name, arity } => "Variant { name: \""@ + escaped(name@, '"') + "\", arity: "@
            + decimal(arity as nat) + " }"@,
        Constructor::StringLiteral(s) => "StringLiteral(\""@ + escaped(s@, '"') + "\")"@,
        _ => Seq::empty(),
    }
}

/// Appends the debug text of a constructor that is not an integer test to `s`.
fn append_constructor_text(s: &mut String, c: &Constructor)
    requires
        !is_int_test(*c),
    ensures
        final(s)@ == old(s)@ + constructor_text(*c),
{
    match c {
        Constructor::True => append_str(s, "True"),
        Constructor::False => append_str(s, "False"),
        Constructor::Single => append_str(s, "Single"),
        Constructor::Variant { name, arity } => {
            append_str(s, "Variant { name: \"");
            append_escaped(s, name.as_str());
            append_str(s, "\", arity: ");
            append_decimal_usize(s, *arity);
            append_str(s, " }");
            assert(final(s)@ =~= old(s)@ + constructor_text(*c));
        },
        Constructor::StringLiteral(t) => {
            append_str(s, "StringLiteral(\"");
            append_escaped(s, t.as_str());
            append_str(s, "\")");
            assert(final(s)@ =~= old(s)@ + constructor_text(*c));
        },
        _ => {},
    }
}

/// `new` is `old` after a switch met a constructor it cannot test: an internal error
/// whose message starts with `what` is reported (a bug, with no label) and the current
/// block becomes unreachable.
pub open spec fn unsupported_constructor_emitted(
    old: &LoweringContext,
    new: &LoweringContext,
    what: Seq<char>,
    c: Constructor,
) -> bool {
    let b = old.cur_block().unwrap();
    &&& new.inv()
    &&& new.mir.only_block_changed(&old.mir, b)
    &&& new.mir.stmts_of(b) == old.mir.stmts_of(b)
    &&& new.mir.term_of(b) == Some(TermV::Unreachable)
    &&& new.diags().len() == old.diags().len() + 1
    &&& new.diags().drop_last() == old.diags()
    &&& new.diags().last().severity == Severity::Bug
    &&& new.diags().last().labels@.len() == 0
    &&& new.diags().last().message@ == "internal lowering error: "@ + what + constructor_text(c)
    &&& new.cur_block() == old.cur_block()
    &&& new.cur_function() == old.cur_function()
    &&& new.type_param_view() == old.type_param_view()
    &&& new.local_map_view() == old.local_map_view()
    &&& new.loops() == old.loops()
    &&& new.scopes() == old.scopes()
    &&& new.temps() == old.temps()
    &&& new.temp_count() == old.temp_count()
    &&& new.closure_count() == old.closure_count()
    &&& new.flag_count() == old.flag_count()
}

/// Reports a constructor that the switch cannot test and makes the current block
/// unreachable.
fn emit_unsupported_constructor(ctx: &mut LoweringContext, what: &str, ctor: &Constructor)
    requires
        old(ctx).inv(),
        old(ctx).cur_block() is Some,
        !is_int_test(*ctor),
    ensures
        unsupported_constructor_emitted(old(ctx), final(ctx), what@, *ctor),
{
    let mut message = owned(what);
    append_constructor_text(&mut message, ctor);
    let ghost mv = message@;
    let e = LoweringError::internal(message.as_str(), None);
    ctx.emit_error(e);
    proof {
        assert(ctx.diags().last().message@ == "internal lowering error: "@ + mv);
        assert(ctx.diags().last().message@ =~= "internal lowering error: "@ + what@ + constructor_text(*ctor));
    }
    ctx.emit_unreachable();
}

/// Emits the test of one case of an integer comparison chain and continues in its
/// matched block; returns the matched and the unmatched block. A literal is compared
/// for equality (`cmp`); a range `start..=end` is tested as `start <= switched`
/// (`cmp_lo`), `switched <= end` (`cmp_hi`), both (`cmp_range`), signed; a character
/// is compared by its code point. The constants have the width `int_bits` of the
/// switched integer type. Any other constructor is reported as an internal
/// error, the current block becomes unreachable, and `None` is returned.
pub fn emit_int_case_test(
    ctx: &mut LoweringContext,
    switch_place: &Place,
    int_bits: IntBits,
    ctor: &Constructor,
) -> (r: Option<(BlockId, BlockId)>)
    requires
        old(ctx).inv(),
        old(ctx).cur_function() is Some,
        old(ctx).cur_block() is Some,
        old(ctx).temp_count() + 3 <= u32::MAX,
    ensures
        is_int_test(*ctor) ==> r == Some(
            (BlockId(old(ctx).mir.blocks@.len() as usize), BlockId((old(ctx).mir.blocks@.len() + 1) as usize)),
        ),
        is_int_test(*ctor) ==> test_emitted(
            old(ctx),
            final(ctx),
            int_test_names(*ctor, old(ctx).temp_count() as nat),
            int_test_stmts(switch_place@, *ctor, old(ctx).mir.locals@.len(), int_bits),
        ),
        !is_int_test(*ctor) ==> r is None,
        !is_int_test(*ctor) ==> unsupported_constructor_emitted(
            old(ctx),
            final(ctx),
            "unsupported constructor in int switch: "@,
            *ctor,
        ),
{
    let ghost c0 = *ctx;
    let ghost b = ctx.cur_block().unwrap();
    let ghost n = ctx.mir.locals@.len();
    let (lo, hi, is_range) = match ctor {
        Constructor::IntLiteral(v) => (*v, *v, false),
        Constructor::CharLiteral(c) => (*c as i64, *c as i64, false),
        Constructor::IntRange { start, end } => (*start, *end, true),
        Constructor::CharRange { start, end } => (*start as i64, *end as i64, true),
        _ => {
            emit_unsupported_constructor(ctx, "unsupported constructor in int switch: ", ctor);
            return None;
        },
    };
    let blocks = create_test_blocks(ctx);
    let cond = if is_range {
        assign_range_test(ctx, switch_place, int_bits, lo, hi)
    } else {
        assign_bool_temp(
            ctx,
            "cmp",
            Rvalue::BinaryOp {
                op: BinOp::Eq,
                lhs: Value::Place(switch_place.duplicate()),
                rhs: Value::Immediate(Immediate::Int(int_bits, lo)),
            },
        )
    };
    let ghost c2 = *ctx;
    branch_to_test_blocks(ctx, cond, blocks);
    proof {
        if !is_range {
            assert(int_test_stmts(switch_place@, *ctor, n, int_bits) =~= seq![int_eq_stmt(n, switch_place@, int_bits, lo)]);
            assert(ctx.mir.stmts_of(b) =~= c0.mir.stmts_of(b) + int_test_stmts(switch_place@, *ctor, n, int_bits));
        }
    }
    Some(blocks)
}


/// Branches from the current block on `condition` to two new blocks, created in that
/// order (taken, not taken), and continues in the first: the head of a boolean switch
/// (on the switched place) and of a guard (on the guard's value). Returns the two
/// blocks.
pub fn emit_two_way_branch(ctx: &mut LoweringContext, condition: Value) -> (r: (BlockId, BlockId))
    requires
        old(ctx).inv(),
        old(ctx).cur_function() is Some,
        old(ctx).cur_block() is Some,
    ensures
        ({
            let b = old(ctx).cur_block().unwrap();
            let f = old(ctx).cur_function().unwrap().0 as int;
            let n = old(ctx).mir.blocks@.len();
            &&& r == (BlockId(n as usize), BlockId((n + 1) as usize))
            &&& final(ctx).inv()
            &&& final(ctx).same_but_block(old(ctx))
            &&& final(ctx).cur_block() == Some(r.0)
            &&& final(ctx).mir.names == old(ctx).mir.names
            &&& final(ctx).mir.types == old(ctx).mir.types
            &&& final(ctx).mir.locals == old(ctx).mir.locals
            &&& final(ctx).mir.statics == old(ctx).mir.statics
            &&& final(ctx).mir.functions@.len() == old(ctx).mir.functions@.len()
            &&& forall|j: int| 0 <= j < old(ctx).mir.functions@.len() && j != f
                ==> final(ctx).mir.functions@[j] == old(ctx).mir.functions@[j]
            &&& final(ctx).mir.functions@[f].blocks@ == old(ctx).mir.functions@[f].blocks@.push(r.0).push(r.1)
            &&& final(ctx).mir.functions@[f].locals == old(ctx).mir.functions@[f].locals
            &&& final(ctx).mir.blocks@.len() == n + 2
            &&& forall|j: int| 0 <= j < n && j != b.0 ==> final(ctx).mir.blocks@[j] == old(ctx).mir.blocks@[j]
            &&& final(ctx).mir.stmts_of(b) == old(ctx).mir.stmts_of(b)
            &&& final(ctx).mir.term_of(b) == Some(
                TermV::Branch { condition: condition@, then_block: r.0, else_block: r.1 },
            )
            &&& final(ctx).mir.blocks@[n as int].statements@.len() == 0
            &&& final(ctx).mir.blocks@[n as int].terminator is None
            &&& final(ctx).mir.blocks@[n + 1int].statements@.len() == 0
            &&& final(ctx).mir.blocks@[n + 1int].terminator is None
        }),
{
    let blocks = create_test_blocks(ctx);
    ctx.emit_branch(condition, blocks.0, blocks.1);
    ctx.set_current_block(blocks.0);
    blocks
}

/// The end of a successful match arm whose body lowered to `body_value`: unless the
/// current block is already terminated (the body returned or broke out), moves the
/// value into the match's result place and jumps to the join block.
pub fn emit_arm_result(ctx: &mut LoweringContext, result_place: &Place, body_value: Value, join_block: BlockId)
    requires
        old(ctx).inv(),
    ensures
        final(ctx).inv(),
        old(ctx).terminated() ==> *final(ctx) == *old(ctx),
        !old(ctx).terminated() ==> {
            let b = old(ctx).cur_block().unwrap();
            &&& final(ctx).mir.only_block_changed(&old(ctx).mir, b)
            &&& final(ctx).mir.stmts_of(b) == old(ctx).mir.stmts_of(b) + move_value_stmts(result_place@, body_value@)
            &&& final(ctx).mir.term_of(b) == Some(TermV::Jump(join_block))
            &&& same_shape(old(ctx).scopes(), final(ctx).scopes())
            &&& status_maps(final(ctx).scopes()) == after_move(status_maps(old(ctx).scopes()), body_value@)
        },
        final(ctx).cur_block() == old(ctx).cur_block(),
        final(ctx).cur_function() == old(ctx).cur_function(),
        final(ctx).type_param_view() == old(ctx).type_param_view(),
        final(ctx).local_map_view() == old(ctx).local_map_view(),
        final(ctx).loops() == old(ctx).loops(),
        final(ctx).temps() == old(ctx).temps(),
        final(ctx).diags() == old(ctx).diags(),
        final(ctx).temp_count() == old(ctx).temp_count(),
        final(ctx).closure_count() == old(ctx).closure_count(),
        final(ctx).flag_count() == old(ctx).flag_count(),
{
    if ctx.is_block_terminated() {
        return;
    }
    ctx.emit_move_value(result_place.duplicate(), body_value);
    ctx.emit_jump(join_block);
}


/// The positions of the cases that test an enum variant, in order.
pub open spec fn variant_positions<T>(cases: Seq<(Constructor, T)>) -> Seq<int>
    decreases cases.len(),
{
    if cases.len() == 0 {
        Seq::empty()
    } else {
        let rest = variant_positions(cases.drop_last());
        if cases.last().0 is Variant {
            rest.push(cases.len() - 1)
        } else {
            rest
        }
    }
}

/// The name of the variant a constructor tests.
pub open spec fn variant_name(c: Constructor) -> Seq<char> {
    match c {
        Constructor::Variant { name, .. } => name@,
        _ => Seq::empty(),
    }
}

/// The targets of an enum switch: the `i`-th variant case's name to block `n + i`,
/// then, with a default, `_` to the block after them.
pub open spec fn enum_switch_targets<T>(cases: Seq<(Constructor, T)>, n: nat, has_default: bool) -> Seq<(Seq<char>, BlockId)> {
    let pos = variant_positions(cases);
    let named = Seq::new(pos.len(), |i: int| (variant_name(cases[pos[i]].0), BlockId((n + i) as usize)));
    if has_default {
        named.push(("_"@, BlockId((n + pos.len()) as usize)))
    } else {
        named
    }
}

/// The head of an enum switch on `switch_place`: one new block per case that tests a
/// variant (cases testing anything else are skipped), then a default block when there
/// is a default, created in that order; the current block switches on the variant to
/// them (the default as `_`) and stays current. Returns each variant case's position
/// with its block, and the default block.
pub fn emit_enum_switch_head<T>(
    ctx: &mut LoweringContext,
    switch_place: &Place,
    cases: &Vec<(Constructor, T)>,
    has_default: bool,
) -> (r: (Vec<(usize, BlockId)>, Option<BlockId>))
    requires
        old(ctx).inv(),
        old(ctx).cur_function() is Some,
        old(ctx).cur_block() is Some,
    ensures
        ({
            let b = old(ctx).cur_block().unwrap();
            let f = old(ctx).cur_function().unwrap().0 as int;
            let n = old(ctx).mir.blocks@.len();
            let pos = variant_positions(cases@);
            let total = pos.len() + if has_default { 1nat } else { 0nat };
            &&& r.0@ == Seq::new(pos.len(), |i: int| (pos[i] as usize, BlockId((n + i) as usize)))
            &&& r.1 == if has_default { Some(BlockId((n + pos.len()) as usize)) } else { None }
            &&& final(ctx).inv()
            &&& final(ctx).same_state(old(ctx))
            &&& final(ctx).mir.names == old(ctx).mir.names
            &&& final(ctx).mir.types == old(ctx).mir.types
            &&& final(ctx).mir.locals == old(ctx).mir.locals
            &&& final(ctx).mir.statics == old(ctx).mir.statics
            &&& final(ctx).mir.functions@.len() == old(ctx).mir.functions@.len()
            &&& forall|j: int| 0 <= j < old(ctx).mir.functions@.len() && j != f
                ==> final(ctx).mir.functions@[j] == old(ctx).mir.functions@[j]
            &&& final(ctx).mir.functions@[f].blocks@ == old(ctx).mir.functions@[f].blocks@ + Seq::new(
                total,
                |i: int| BlockId((n + i) as usize),
            )
            &&& final(ctx).mir.functions@[f].locals == old(ctx).mir.functions@[f].locals
            &&& final(ctx).mir.blocks@.len() == n + total
            &&& forall|j: int| 0 <= j < n && j != b.0 ==> final(ctx).mir.blocks@[j] == old(ctx).mir.blocks@[j]
            &&& forall|j: int| n <= j < n + total ==> {
                &&& (#[trigger] final(ctx).mir.blocks@[j]).statements@.len() == 0
                &&& final(ctx).mir.blocks@[j].terminator is None
            }
            &&& final(ctx).mir.stmts_of(b) == old(ctx).mir.stmts_of(b)
            &&& final(ctx).mir.term_of(b) == Some(
                TermV::Switch {
                    discriminant: switch_place@,
                    cases: enum_switch_targets(cases@, n, has_default),
                },
            )
        }),
{
    let ghost c0 = *ctx;
    let ghost n = ctx.mir.blocks@.len();
    let ghost f = ctx.cur_function().unwrap().0 as int;
    let ghost b = ctx.cur_block().unwrap();
    let mut switch_cases: Vec<(String, BlockId)> = Vec::new();
    let mut case_blocks: Vec<(usize, BlockId)> = Vec::new();
    let mut i: usize = 0;
    proof {
        assert(cases@.take(0) =~= Seq::<(Constructor, T)>::empty());
        assert(c0.mir.functions@[f].blocks@ =~= c0.mir.functions@[f].blocks@ + Seq::new(
            0,
            |k: int| BlockId((n + k) as usize),
        ));
    }
    while i < cases.len()
        invariant
            i <= cases@.len(),
            c0 == *old(ctx),
            n == c0.mir.blocks@.len(),
            f == c0.cur_function().unwrap().0 as int,
            c0.cur_block() == Some(b),
            c0.cur_function() is Some,
            ctx.inv(),
            ctx.same_state(&c0),
            ({
                let pos = variant_positions(cases@.take(i as int));
                &&& case_blocks@ == Seq::new(pos.len(), |k: int| (pos[k] as usize, BlockId((n + k) as usize)))
                &&& crate::mir::cases_view(switch_cases@) == Seq::new(
                    pos.len(),
                    |k: int| (variant_name(cases@[pos[k]].0), BlockId((n + k) as usize)),
                )
                &&& ctx.mir.blocks@.len() == n + pos.len()
                &&& ctx.mir.functions@[f].blocks@ == c0.mir.functions@[f].blocks@ + Seq::new(
                    pos.len(),
                    |k: int| BlockId((n + k) as usize),
                )
                &&& forall|k: int| 0 <= k < pos.len() ==> 0 <= #[trigger] pos[k] < i
            }),
            forall|j: int| 0 <= j < n ==> ctx.mir.blocks@[j] == c0.mir.blocks@[j],
            forall|j: int| n <= j < ctx.mir.blocks@.len() ==> {
                &&& (#[trigger] ctx.mir.blocks@[j]).statements@.len() == 0
                &&& ctx.mir.blocks@[j].terminator is None
            },
            ctx.mir.names == c0.mir.names,
            ctx.mir.types == c0.mir.types,
            ctx.mir.locals == c0.mir.locals,
            ctx.mir.statics == c0.mir.statics,
            ctx.mir.functions@.len() == c0.mir.functions@.len(),
            forall|j: int| 0 <= j < c0.mir.functions@.len() && j != f ==> ctx.mir.functions@[j] == c0.mir.functions@[j],
            ctx.mir.functions@[f].locals == c0.mir.functions@[f].locals,
        decreases cases.len() - i,
    {
        let ghost pos0 = variant_positions(cases@.take(i as int));
        proof {
            assert(cases@.take(i + 1).drop_last() =~= cases@.take(i as int));
            assert(cases@.take(i + 1).last() == cases@[i as int]);
        }
        match &cases[i].0 {
            Constructor::Variant { name, .. } => {
                let ghost sv0 = crate::mir::cases_view(switch_cases@);
                let block = ctx.create_block();
                let label = owned(name.as_str());
                let ghost lv = label@;
                switch_cases.push((label, block));
                proof {
                    assert(crate::mir::cases_view(switch_cases@) =~= sv0.push((lv, block)));
                }
                case_blocks.push((i, block));
                proof {
                    let pos = variant_positions(cases@.take(i + 1));
                    assert(pos =~= pos0.push(i as int));
                    assert(case_blocks@ =~= Seq::new(pos.len(), |k: int| (pos[k] as usize, BlockId((n + k) as usize))));
                    assert(crate::mir::cases_view(switch_cases@) =~= Seq::new(
                        pos.len(),
                        |k: int| (variant_name(cases@[pos[k]].0), BlockId((n + k) as usize)),
                    ));
                    assert(ctx.mir.functions@[f].blocks@ =~= c0.mir.functions@[f].blocks@ + Seq::new(
                        pos.len(),
                        |k: int| BlockId((n + k) as usize),
                    ));
                }
            },
            _ => {
                proof {
                    assert(variant_positions(cases@.take(i + 1)) =~= pos0);
                }
            },
        }
        i = i + 1;
    }
    proof {
        assert(cases@.take(i as int) =~= cases@);
    }
    let ghost pos = variant_positions(cases@);
    let default_block = if has_default {
        let ghost sv0 = crate::mir::cases_view(switch_cases@);
        let block = ctx.create_block();
        let label = owned("_");
        let ghost lv = label@;
        switch_cases.push((label, block));
        proof {
            assert(crate::mir::cases_view(switch_cases@) =~= sv0.push((lv, block)));
        }
        proof {
            assert(ctx.mir.functions@[f].blocks@ =~= c0.mir.functions@[f].blocks@ + Seq::new(
                pos.len() + 1,
                |k: int| BlockId((n + k) as usize),
            ));
        }
        Some(block)
    } else {
        None
    };
    proof {
        assert(crate::mir::cases_view(switch_cases@) =~= enum_switch_targets(cases@, n, has_default));
    }
    ctx.emit_switch(switch_place.duplicate(), switch_cases);
    (case_blocks, default_block)
}


/// The kind of a switched value's type (type aliases expanded), as a switch reads it.
#[derive(Clone, Copy, Debug, PartialEq, Eq, Structural)]
pub enum SwitchKind {
    Bool,
    Enum,
    /// A signed integer type of the width.
    Int(IntBits),
    Str,
    Tuple,
    Struct,
    Other,
}

/// A decision tree compiled from the patterns of a match (or of an `if let` or
/// `while let` condition).
#[derive(Debug)]
pub enum DecisionTree {
    /// Arm `arm_index` matched; its pattern binds `bindings`.
    Success { arm_index: usize, bindings: Vec<Binding> },
    /// Test the value at `path` (of kind `kind`) against the cases' constructors; the
    /// default subtree handles values that no case tests for.
    Switch {
        path: Vec<PathElement>,
        kind: SwitchKind,
        cases: Vec<(Constructor, DecisionTree)>,
        default: Option<Box<DecisionTree>>,
    },
    /// Arm `arm_index` matched if its guard holds.
    Guard { arm_index: usize, bindings: Vec<Binding>, success: Box<DecisionTree>, failure: Box<DecisionTree> },
    /// No arm matches.
    Failure,
}

/// How a decision-tree switch of a match is emitted.
#[derive(Debug, PartialEq, Eq, Structural)]
pub enum SwitchStrategy {
    /// A two-way branch on the boolean.
    BoolBranch,
    /// A switch on the enum's variant.
    VariantSwitch,
    /// A chain of integer tests.
    IntChain,
    /// A chain of string tests.
    StringChain,
    /// A chain of calls of the type's `Matchable` conformance.
    MatchableChain,
    /// The type's single constructor: the first case's subtree, else the default.
    FirstCase,
    /// No test: the default subtree, else the first case's.
    DefaultCase,
}

/// The strategy for a match switch on a value of kind `kind`: booleans branch, enums
/// switch on the variant, integers and strings chain tests; tuples, and structs whose
/// cases test no literal, have a single constructor; structs whose cases test
/// literals chain `Matchable` calls when they conform to it, else take the default;
/// any other kind takes the default.
pub open spec fn switch_strategy_of(kind: SwitchKind, has_literals: bool, matchable: bool) -> SwitchStrategy {
    match kind {
        SwitchKind::Bool => SwitchStrategy::BoolBranch,
        SwitchKind::Enum => SwitchStrategy::VariantSwitch,
        SwitchKind::Int(_) => SwitchStrategy::IntChain,
        SwitchKind::Str => SwitchStrategy::StringChain,
        SwitchKind::Tuple => SwitchStrategy::FirstCase,
        SwitchKind::Struct => if !has_literals {
            SwitchStrategy::FirstCase
        } else if matchable {
            SwitchStrategy::MatchableChain
        } else {
            SwitchStrategy::DefaultCase
        },
        SwitchKind::Other => SwitchStrategy::DefaultCase,
    }
}

/// Chooses how to emit a match switch on a value of kind `kind`, given whether some
/// case tests a literal and whether the type conforms to `Matchable`.
pub fn switch_strategy(kind: SwitchKind, has_literals: bool, matchable: bool) -> (r: SwitchStrategy)
    ensures
        r == switch_strategy_of(kind, has_literals, matchable),
{
    match kind {
        SwitchKind::Bool => SwitchStrategy::BoolBranch,
        SwitchKind::Enum => SwitchStrategy::VariantSwitch,
        SwitchKind::Int(_) => SwitchStrategy::IntChain,
        SwitchKind::Str => SwitchStrategy::StringChain,
        SwitchKind::Tuple => SwitchStrategy::FirstCase,
        SwitchKind::Struct => {
            if !has_literals {
                SwitchStrategy::FirstCase
            } else if matchable {
                SwitchStrategy::MatchableChain
            } else {
                SwitchStrategy::DefaultCase
            }
        },
        SwitchKind::Other => SwitchStrategy::DefaultCase,
    }
}


/// Puts a lowered scrutinee in a place for pattern matching: a place is used as it
/// is; an immediate is stored in a new temporary (`scrutinee`, of the scrutinee's
/// lowered type `ty`) in the current block; a diverged scrutinee gives `None` (the
/// match is unreachable) and emits nothing.
pub fn place_scrutinee(ctx: &mut LoweringContext, value: Value, ty: TyId) -> (r: Option<Place>)
    requires
        old(ctx).inv(),
        old(ctx).cur_function() is Some,
        old(ctx).cur_block() is Some,
        old(ctx).temp_count() < u32::MAX,
    ensures
        final(ctx).inv(),
        match value@ {
            ValueV::Place(p) => r matches Some(q) && q@ == p && *final(ctx) == *old(ctx),
            ValueV::Unreachable => r is None && *final(ctx) == *old(ctx),
            ValueV::Immediate(imm) => {
                let b = old(ctx).cur_block().unwrap();
                let l = LocalId(old(ctx).mir.locals@.len() as usize);
                &&& r matches Some(q) && q@ == PlaceV::Local(l)
                &&& crate::context::local_added(
                    &old(ctx).mir,
                    &MirContext { blocks: old(ctx).mir.blocks, ..final(ctx).mir },
                    old(ctx).cur_function().unwrap(),
                    temp_name("scrutinee"@, old(ctx).temp_count() as nat),
                    ty,
                )
                &&& final(ctx).mir.blocks@.len() == old(ctx).mir.blocks@.len()
                &&& forall|j: int| 0 <= j < old(ctx).mir.blocks@.len() && j != b.0
                    ==> final(ctx).mir.blocks@[j] == old(ctx).mir.blocks@[j]
                &&& final(ctx).mir.stmts_of(b) == old(ctx).mir.stmts_of(b).push(
                    StmtV::Assign { dest: PlaceV::Local(l), rvalue: RvalueV::Use(imm) },
                )
                &&& final(ctx).mir.term_of(b) == old(ctx).mir.term_of(b)
                &&& final(ctx).cur_block() == old(ctx).cur_block()
                &&& final(ctx).temp_count() == old(ctx).temp_count() + 1
                &&& same_but_block_temps(final(ctx), old(ctx))
            },
        },
{
    match value {
        Value::Place(p) => Some(p),
        Value::Immediate(imm) => {
            let local = ctx.create_temp("scrutinee", ty);
            ctx.emit_assign(Place::local(local), Rvalue::Use(imm));
            Some(Place::local(local))
        },
        Value::Unreachable => None,
    }
}

} // verus!
