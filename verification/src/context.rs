//! Lowering context - holds all state during the lowering pass.

use vstd::prelude::*;

use crate::error::{describes, Diagnostic, LoweringError};
use crate::mir::{
    BlockId, CallArg, Callee, FunctionId, Immediate, LocalId, MirContext, MirTy, NameId,
    Place, PlaceV, Rvalue, StatementKind, StmtV, TerminatorKind, TyId, TypeParamId, Value,
};
use crate::sem::{share_ty, LoopId, SemLocalId, SymbolId, TyRef};
use crate::table::Table;
use crate::thunk_cache::ThunkCache;
use crate::text::{append_decimal, copy_string, decimal, owned, str_equal};

verus! {

/// Information about a loop for break/continue resolution.
#[derive(Debug)]
pub struct LoopInfo {
    /// The loop identifier from the semantic tree.
    pub loop_id: LoopId,
    /// Optional label name for named break/continue.
    pub label: Option<String>,
    /// The header block (where the condition is checked; the body entry for infinite loops).
    pub header_block: BlockId,
    /// The exit block (where to jump on break).
    pub exit_block: BlockId,
    /// Index into the scope stack where this loop's scope begins.
    pub scope_depth: usize,
}

impl LoopInfo {
    /// A copy of this loop's information.
    pub fn duplicate(&self) -> (r: LoopInfo)
        ensures
            r == *self,
    {
        LoopInfo {
            loop_id: self.loop_id,
            label: match &self.label {
                Some(l) => Some(copy_string(l)),
                None => None,
            },
            header_block: self.header_block,
            exit_block: self.exit_block,
            scope_depth: self.scope_depth,
        }
    }
}

/// Tracks a local variable's deinit status during lowering.
#[derive(Clone, Copy, PartialEq, Eq, Debug, Structural)]
pub enum DeinitStatus {
    /// Value is definitely valid and needs deinit at scope exit.
    Valid,
    /// Value was definitely moved, no deinit needed.
    Moved,
    /// Value was moved on some paths only; the flag is a Bool local that is true
    /// if the value needs deinit.
    MaybeMoved { flag: LocalId },
}

/// Information about a lexical scope for deinit insertion.
#[derive(Debug)]
pub struct ScopeInfo {
    /// Locals declared in this scope, in declaration order.
    pub locals: Vec<LocalId>,
    /// Current deinit status of each tracked local.
    pub deinit_status: Table<LocalId, DeinitStatus>,
    /// Semantic types of tracked locals (for field-wise drop).
    pub local_types: Table<LocalId, TyRef>,
}

impl ScopeInfo {
    /// Both tables are well formed.
    pub open spec fn wf(&self) -> bool {
        self.deinit_status.wf() && self.local_types.wf()
    }

    /// An empty scope.
    pub fn new() -> (r: ScopeInfo)
        ensures
            r.wf(),
            r.locals@.len() == 0,
            r.deinit_status.keys().len() == 0,
            r.deinit_status.map() == Map::<LocalId, DeinitStatus>::empty(),
            r.local_types.keys().len() == 0,
            r.local_types.map() == Map::<LocalId, TyRef>::empty(),
    {
        ScopeInfo { locals: Vec::new(), deinit_status: Table::new(), local_types: Table::new() }
    }

    /// The two scopes hold the same locals, statuses and types, in the same order.
    pub open spec fn same_as(&self, other: &ScopeInfo) -> bool {
        &&& self.locals@ == other.locals@
        &&& self.deinit_status.entries@ == other.deinit_status.entries@
        &&& self.local_types.entries@ == other.local_types.entries@
    }

    /// A copy of this scope.
    pub fn duplicate(&self) -> (r: ScopeInfo)
        ensures
            r.same_as(self),
            self.wf() ==> r.wf(),
    {
        let mut locals: Vec<LocalId> = Vec::new();
        let mut i: usize = 0;
        while i < self.locals.len()
            invariant
                i <= self.locals@.len(),
                locals@ == self.locals@.take(i as int),
            decreases self.locals.len() - i,
        {
            locals.push(self.locals[i]);
            i = i + 1;
            assert(locals@ =~= self.locals@.take(i as int));
        }
        assert(locals@ =~= self.locals@);
        let mut st: Vec<(LocalId, DeinitStatus)> = Vec::new();
        let mut i: usize = 0;
        while i < self.deinit_status.entries.len()
            invariant
                i <= self.deinit_status.entries@.len(),
                st@ == self.deinit_status.entries@.take(i as int),
            decreases self.deinit_status.entries.len() - i,
        {
            let e = self.deinit_status.entries[i];
            st.push(e);
            i = i + 1;
            assert(st@ =~= self.deinit_status.entries@.take(i as int));
        }
        assert(st@ =~= self.deinit_status.entries@);
        let mut ty: Vec<(LocalId, TyRef)> = Vec::new();
        let mut i: usize = 0;
        while i < self.local_types.entries.len()
            invariant
                i <= self.local_types.entries@.len(),
                ty@ == self.local_types.entries@.take(i as int),
            decreases self.local_types.entries.len() - i,
        {
            let k = self.local_types.entries[i].0;
            let t = share_ty(&self.local_types.entries[i].1);
            ty.push((k, t));
            i = i + 1;
            assert(ty@ =~= self.local_types.entries@.take(i as int));
        }
        assert(ty@ =~= self.local_types.entries@);
        let r = ScopeInfo {
            locals,
            deinit_status: Table { entries: st },
            local_types: Table { entries: ty },
        };
        assert(r.deinit_status.keys() =~= self.deinit_status.keys());
        assert(r.local_types.keys() =~= self.local_types.keys());
        r
    }
}

/// Result of computing branch merge for deinit flags.
#[derive(Debug)]
pub struct BranchMergeResult {
    /// Updates to apply to parent scopes.
    pub updates: Vec<(LocalId, DeinitStatus)>,
    /// Flags to set to false at end of then branch.
    pub then_flag_false: Vec<LocalId>,
    /// Flags to set to true at end of then branch.
    pub then_flag_true: Vec<LocalId>,
    /// Flags to set to false at end of else branch.
    pub else_flag_false: Vec<LocalId>,
    /// Flags to set to true at end of else branch.
    pub else_flag_true: Vec<LocalId>,
}

/// The central context for lowering the semantic tree to MIR.
pub struct LoweringContext {
    /// The MIR context being built.
    pub mir: MirContext,
    /// The current function being lowered (if any).
    pub current_function: Option<FunctionId>,
    /// Maps semantic locals to MIR locals; reset for each function.
    pub local_map: Table<SemLocalId, LocalId>,
    /// Maps semantic type parameters to MIR type parameters.
    pub type_param_map: Table<SymbolId, TypeParamId>,
    /// Stack of active loops for break/continue resolution.
    pub loop_stack: Vec<LoopInfo>,
    /// Stack of lexical scopes for deinit tracking.
    pub scope_stack: Vec<ScopeInfo>,
    /// Temporaries created during the current statement, deinited at its end.
    pub statement_temps: Vec<LocalId>,
    /// The current block being built.
    pub current_block: Option<BlockId>,
    /// Diagnostics collected during lowering.
    pub diagnostics: Vec<Diagnostic>,
    /// Counter for unique temporary names.
    pub temp_counter: u32,
    /// Counter for unique closure indices within a function.
    pub closure_counter: u32,
    /// Counter for unique deinit flag names.
    pub deinit_flag_counter: u32,
    /// The thunks made so far for function and witness references.
    pub thunk_cache: ThunkCache,
}

/// Result of lowering a module to MIR.
pub struct LoweringResult {
    /// The generated MIR context.
    pub mir: MirContext,
    /// Diagnostics (errors, warnings) produced during lowering.
    pub diagnostics: Vec<Diagnostic>,
}

// ---------------------------------------------------------------------------
// Searches over the loop and scope stacks
// ---------------------------------------------------------------------------

/// Index of the innermost loop with the given id, or -1.
pub open spec fn last_loop_with_id(s: Seq<LoopInfo>, id: LoopId) -> int
    decreases s.len(),
{
    if s.len() == 0 {
        -1
    } else if s.last().loop_id == id {
        s.len() - 1
    } else {
        last_loop_with_id(s.drop_last(), id)
    }
}

/// The loop carries the given label.
pub open spec fn loop_has_label(l: LoopInfo, label: Seq<char>) -> bool {
    l.label matches Some(s) && s@ == label
}

/// Index of the innermost loop with the given label, or -1.
pub open spec fn last_loop_with_label(s: Seq<LoopInfo>, label: Seq<char>) -> int
    decreases s.len(),
{
    if s.len() == 0 {
        -1
    } else if loop_has_label(s.last(), label) {
        s.len() - 1
    } else {
        last_loop_with_label(s.drop_last(), label)
    }
}

/// The deinit status maps of the scopes, outermost first.
pub open spec fn status_maps(s: Seq<ScopeInfo>) -> Seq<Map<LocalId, DeinitStatus>> {
    s.map_values(|x: ScopeInfo| x.deinit_status.map())
}

/// Index of the innermost scope that tracks the deinit status of `local`, or -1.
pub open spec fn innermost_tracking(sv: Seq<Map<LocalId, DeinitStatus>>, local: LocalId) -> int
    decreases sv.len(),
{
    if sv.len() == 0 {
        -1
    } else if sv.last().contains_key(local) {
        sv.len() - 1
    } else {
        innermost_tracking(sv.drop_last(), local)
    }
}

/// The deinit status of `local` in the innermost scope tracking it.
pub open spec fn status_in(sv: Seq<Map<LocalId, DeinitStatus>>, local: LocalId) -> Option<DeinitStatus> {
    let k = innermost_tracking(sv, local);
    if k < 0 {
        None
    } else {
        Some(sv[k][local])
    }
}

/// The status maps with `local` set to `status` in the innermost scope tracking it
/// (unchanged when no scope tracks it).
pub open spec fn set_status(
    sv: Seq<Map<LocalId, DeinitStatus>>,
    local: LocalId,
    status: DeinitStatus,
) -> Seq<Map<LocalId, DeinitStatus>> {
    let k = innermost_tracking(sv, local);
    if k < 0 {
        sv
    } else {
        sv.update(k, sv[k].insert(local, status))
    }
}

/// The status maps after applying the updates in order.
pub open spec fn apply_updates(
    sv: Seq<Map<LocalId, DeinitStatus>>,
    ups: Seq<(LocalId, DeinitStatus)>,
) -> Seq<Map<LocalId, DeinitStatus>>
    decreases ups.len(),
{
    if ups.len() == 0 {
        sv
    } else {
        let prev = apply_updates(sv, ups.drop_last());
        set_status(prev, ups.last().0, ups.last().1)
    }
}

/// The scopes hold the same locals, types and tracked keys; only statuses may differ.
pub open spec fn same_shape(a: Seq<ScopeInfo>, b: Seq<ScopeInfo>) -> bool {
    &&& a.len() == b.len()
    &&& forall|j: int| 0 <= j < a.len() ==> {
        &&& #[trigger] a[j].locals == b[j].locals
        &&& a[j].local_types == b[j].local_types
        &&& a[j].deinit_status.keys() == b[j].deinit_status.keys()
        &&& a[j].wf() == b[j].wf()
    }
}

/// Index of the innermost scope that records a type for `local`, or -1.
pub open spec fn innermost_typed(s: Seq<ScopeInfo>, local: LocalId) -> int
    decreases s.len(),
{
    if s.len() == 0 {
        -1
    } else if s.last().local_types.map().contains_key(local) {
        s.len() - 1
    } else {
        innermost_typed(s.drop_last(), local)
    }
}

/// The flag of the outermost scope whose status for `local` is `MaybeMoved`.
pub open spec fn outermost_maybe_flag(sv: Seq<Map<LocalId, DeinitStatus>>, local: LocalId) -> Option<LocalId>
    decreases sv.len(),
{
    if sv.len() == 0 {
        None
    } else if sv[0].contains_key(local) && sv[0][local] is MaybeMoved {
        Some(sv[0][local]->flag)
    } else {
        outermost_maybe_flag(sv.drop_first(), local)
    }
}

pub(crate) proof fn lemma_take_last<A>(s: Seq<A>, i: int)
    requires
        0 < i <= s.len(),
    ensures
        s.take(i).drop_last() == s.take(i - 1),
        s.take(i).last() == s[i - 1],
{
    assert(s.take(i).drop_last() =~= s.take(i - 1));
}

pub(crate) proof fn lemma_innermost_tracking_range(sv: Seq<Map<LocalId, DeinitStatus>>, local: LocalId)
    ensures
        -1 <= innermost_tracking(sv, local) < sv.len(),
        innermost_tracking(sv, local) >= 0 ==> sv[innermost_tracking(sv, local)].contains_key(local),
        forall|j: int| innermost_tracking(sv, local) < j < sv.len() ==> !sv[j].contains_key(local),
    decreases sv.len(),
{
    if sv.len() > 0 && !sv.last().contains_key(local) {
        lemma_innermost_tracking_range(sv.drop_last(), local);
        assert forall|j: int| innermost_tracking(sv, local) < j < sv.len() implies
            !sv[j].contains_key(local) by {
            if j < sv.len() - 1 {
                assert(sv.drop_last()[j] == sv[j]);
            }
        }
    }
}




/// The name of the `n`-th deinit flag of a function.
pub open spec fn deinit_flag_name(n: nat) -> Seq<char> {
    "__deinit_flag_"@ + decimal(n)
}

impl LoweringContext {
    // === Views of the private state ===

    /// The function being lowered.
    pub open spec fn cur_function(&self) -> Option<FunctionId> {
        self.current_function
    }

    /// The block being built.
    pub open spec fn cur_block(&self) -> Option<BlockId> {
        self.current_block
    }

    /// Semantic locals mapped to MIR locals.
    pub open spec fn local_map_view(&self) -> Map<SemLocalId, LocalId> {
        self.local_map.map()
    }

    /// Semantic type parameters mapped to MIR type parameters.
    pub open spec fn type_param_view(&self) -> Map<SymbolId, TypeParamId> {
        self.type_param_map.map()
    }

    /// The loop stack, outermost first.
    pub open spec fn loops(&self) -> Seq<LoopInfo> {
        self.loop_stack@
    }

    /// The scope stack, outermost first.
    pub open spec fn scopes(&self) -> Seq<ScopeInfo> {
        self.scope_stack@
    }

    /// The temporaries of the current statement, in creation order.
    pub open spec fn temps(&self) -> Seq<LocalId> {
        self.statement_temps@
    }

    /// The diagnostics emitted so far.
    pub open spec fn diags(&self) -> Seq<Diagnostic> {
        self.diagnostics@
    }

    /// The temporary counter.
    pub open spec fn temp_count(&self) -> u32 {
        self.temp_counter
    }

    /// The closure counter.
    pub open spec fn closure_count(&self) -> u32 {
        self.closure_counter
    }

    /// The deinit flag counter.
    pub open spec fn flag_count(&self) -> u32 {
        self.deinit_flag_counter
    }

    /// The context's internal consistency: well-formed tables, and the current
    /// function and block exist in the MIR.
    pub open spec fn inv(&self) -> bool {
        &&& self.local_map.wf()
        &&& self.type_param_map.wf()
        &&& forall|i: int| 0 <= i < self.scope_stack@.len() ==> #[trigger] self.scope_stack@[i].wf()
        &&& self.current_function matches Some(f) ==> f.0 < self.mir.functions@.len()
        &&& self.current_block matches Some(b) ==> b.0 < self.mir.blocks@.len()
    }

    /// The current block is terminated (no current block counts as terminated).
    pub open spec fn terminated(&self) -> bool {
        match self.cur_block() {
            Some(b) => self.mir.blocks@[b.0 as int].terminator is Some,
            None => true,
        }
    }

    /// Everything but the MIR is unchanged.
    pub open spec fn same_state(&self, other: &LoweringContext) -> bool {
        &&& self.current_function == other.current_function
        &&& self.local_map == other.local_map
        &&& self.type_param_map == other.type_param_map
        &&& self.loop_stack == other.loop_stack
        &&& self.scope_stack == other.scope_stack
        &&& self.statement_temps == other.statement_temps
        &&& self.current_block == other.current_block
        &&& self.diagnostics == other.diagnostics
        &&& self.temp_counter == other.temp_counter
        &&& self.closure_counter == other.closure_counter
        &&& self.deinit_flag_counter == other.deinit_flag_counter
        &&& self.thunk_cache == other.thunk_cache
    }

    /// Everything but the MIR and the current block is unchanged.
    pub open spec fn same_but_block(&self, other: &LoweringContext) -> bool {
        &&& self.current_function == other.current_function
        &&& self.local_map == other.local_map
        &&& self.type_param_map == other.type_param_map
        &&& self.loop_stack == other.loop_stack
        &&& self.scope_stack == other.scope_stack
        &&& self.statement_temps == other.statement_temps
        &&& self.diagnostics == other.diagnostics
        &&& self.temp_counter == other.temp_counter
        &&& self.closure_counter == other.closure_counter
        &&& self.deinit_flag_counter == other.deinit_flag_counter
        &&& self.thunk_cache == other.thunk_cache
    }


    // === Construction ===

    /// Creates a new lowering context.
    pub fn new() -> (r: LoweringContext)
        ensures
            r.inv(),
            r.mir.names@.len() == 0,
            r.mir.types@.len() == 0,
            r.mir.functions@.len() == 0,
            r.mir.blocks@.len() == 0,
            r.mir.locals@.len() == 0,
            r.mir.statics@.len() == 0,
            r.cur_function() is None,
            r.cur_block() is None,
            r.local_map_view() == Map::<SemLocalId, LocalId>::empty(),
            r.type_param_view() == Map::<SymbolId, TypeParamId>::empty(),
            r.loops().len() == 0,
            r.scopes().len() == 0,
            r.temps().len() == 0,
            r.diags().len() == 0,
            r.temp_count() == 0,
            r.closure_count() == 0,
            r.flag_count() == 0,
            r.thunk_cache.view_entries().len() == 0,
    {
        LoweringContext {
            mir: MirContext::new(),
            current_function: None,
            local_map: Table::new(),
            type_param_map: Table::new(),
            loop_stack: Vec::new(),
            scope_stack: Vec::new(),
            statement_temps: Vec::new(),
            current_block: None,
            diagnostics: Vec::new(),
            temp_counter: 0,
            closure_counter: 0,
            deinit_flag_counter: 0,
            thunk_cache: ThunkCache::new(),
        }
    }

    /// Finishes lowering and returns the result.
    pub fn finish(self) -> (r: LoweringResult)
        ensures
            r.mir == self.mir,
            r.diagnostics@ == self.diags(),
    {
        LoweringResult { mir: self.mir, diagnostics: self.diagnostics }
    }

    // === Diagnostics ===

    /// Emits a lowering error as a diagnostic.
    pub fn emit_error(&mut self, error: LoweringError)
        requires
            old(self).inv(),
        ensures
            final(self).inv(),
            final(self).mir == old(self).mir,
            final(self).diags().len() == old(self).diags().len() + 1,
            final(self).diags().drop_last() == old(self).diags(),
            describes(&final(self).diags().last(), &error),
            final(self).cur_block() == old(self).cur_block(),
            final(self).cur_function() == old(self).cur_function(),
            final(self).scopes() == old(self).scopes(),
            final(self).loops() == old(self).loops(),
            final(self).temps() == old(self).temps(),
            final(self).local_map_view() == old(self).local_map_view(),
            final(self).type_param_view() == old(self).type_param_view(),
            final(self).temp_count() == old(self).temp_count(),
            final(self).closure_count() == old(self).closure_count(),
            final(self).flag_count() == old(self).flag_count(),
    {
        let d = error.into_diagnostic();
        self.diagnostics.push(d);
        assert(self.diagnostics@.drop_last() =~= old(self).diagnostics@);
    }

    /// Emits a raw diagnostic.
    pub fn emit_diagnostic(&mut self, diagnostic: Diagnostic)
        requires
            old(self).inv(),
        ensures
            final(self).inv(),
            final(self).mir == old(self).mir,
            final(self).diags() == old(self).diags().push(diagnostic),
            final(self).cur_block() == old(self).cur_block(),
            final(self).cur_function() == old(self).cur_function(),
            final(self).scopes() == old(self).scopes(),
            final(self).loops() == old(self).loops(),
            final(self).temps() == old(self).temps(),
            final(self).local_map_view() == old(self).local_map_view(),
            final(self).type_param_view() == old(self).type_param_view(),
            final(self).temp_count() == old(self).temp_count(),
            final(self).closure_count() == old(self).closure_count(),
            final(self).flag_count() == old(self).flag_count(),
    {
        self.diagnostics.push(diagnostic);
    }

    // === Function Management ===

    /// Enters a function for lowering: clears the per-function state and resets
    /// the temporary, closure and deinit flag counters.
    pub fn enter_function(&mut self, func_id: FunctionId)
        requires
            old(self).inv(),
            func_id.0 < old(self).mir.functions@.len(),
        ensures
            final(self).inv(),
            final(self).mir == old(self).mir,
            final(self).cur_function() == Some(func_id),
            final(self).cur_block() is None,
            final(self).local_map_view() == Map::<SemLocalId, LocalId>::empty(),
            final(self).type_param_view() == old(self).type_param_view(),
            final(self).loops().len() == 0,
            final(self).scopes().len() == 0,
            final(self).temps().len() == 0,
            final(self).diags() == old(self).diags(),
            final(self).temp_count() == 0,
            final(self).closure_count() == 0,
            final(self).flag_count() == 0,
    {
        self.current_function = Some(func_id);
        self.local_map = Table::new();
        self.loop_stack = Vec::new();
        self.scope_stack = Vec::new();
        self.statement_temps = Vec::new();
        self.current_block = None;
        self.temp_counter = 0;
        self.closure_counter = 0;
        self.deinit_flag_counter = 0;
    }

    /// Exits the current function: clears the per-function state; the counters are kept.
    pub fn exit_function(&mut self)
        requires
            old(self).inv(),
        ensures
            final(self).inv(),
            final(self).mir == old(self).mir,
            final(self).cur_function() is None,
            final(self).cur_block() is None,
            final(self).local_map_view() == Map::<SemLocalId, LocalId>::empty(),
            final(self).type_param_view() == old(self).type_param_view(),
            final(self).loops().len() == 0,
            final(self).scopes().len() == 0,
            final(self).temps().len() == 0,
            final(self).diags() == old(self).diags(),
            final(self).temp_count() == old(self).temp_count(),
            final(self).closure_count() == old(self).closure_count(),
            final(self).flag_count() == old(self).flag_count(),
    {
        self.current_function = None;
        self.local_map = Table::new();
        self.loop_stack = Vec::new();
        self.scope_stack = Vec::new();
        self.statement_temps = Vec::new();
        self.current_block = None;
    }

    /// The current function, if any.
    pub fn current_function(&self) -> (r: Option<FunctionId>)
        ensures
            r == self.cur_function(),
    {
        self.current_function
    }

    /// The current function; the context must be inside a function.
    pub fn current_function_unwrap(&self) -> (r: FunctionId)
        requires
            self.cur_function() is Some,
        ensures
            Some(r) == self.cur_function(),
    {
        self.current_function.unwrap()
    }

    /// Sets the current function (used when switching to a closure's context).
    pub fn set_current_function(&mut self, func_id: Option<FunctionId>)
        requires
            old(self).inv(),
            func_id matches Some(f) ==> f.0 < old(self).mir.functions@.len(),
        ensures
            final(self).inv(),
            final(self).mir == old(self).mir,
            final(self).cur_function() == func_id,
            final(self).cur_block() == old(self).cur_block(),
            final(self).local_map_view() == old(self).local_map_view(),
            final(self).loops() == old(self).loops(),
            final(self).scopes() == old(self).scopes(),
            final(self).temps() == old(self).temps(),
            final(self).diags() == old(self).diags(),
            final(self).temp_count() == old(self).temp_count(),
            final(self).closure_count() == old(self).closure_count(),
            final(self).flag_count() == old(self).flag_count(),
    {
        self.current_function = func_id;
    }

    // === Local Variable Mapping ===

    /// Maps a semantic local to a MIR local.
    pub fn map_local(&mut self, semantic_id: SemLocalId, mir_id: LocalId)
        requires
            old(self).inv(),
        ensures
            final(self).inv(),
            final(self).mir == old(self).mir,
            final(self).local_map_view() == old(self).local_map_view().insert(semantic_id, mir_id),
            final(self).cur_function() == old(self).cur_function(),
            final(self).type_param_view() == old(self).type_param_view(),
            final(self).cur_block() == old(self).cur_block(),
            final(self).loops() == old(self).loops(),
            final(self).scopes() == old(self).scopes(),
            final(self).temps() == old(self).temps(),
            final(self).diags() == old(self).diags(),
            final(self).temp_count() == old(self).temp_count(),
            final(self).closure_count() == old(self).closure_count(),
            final(self).flag_count() == old(self).flag_count(),
    {
        self.local_map.insert(semantic_id, mir_id);
    }

    /// The MIR local mapped to a semantic local, if any.
    pub fn get_local(&self, semantic_id: SemLocalId) -> (r: Option<LocalId>)
        requires
            self.inv(),
        ensures
            match r {
                Some(l) => self.local_map_view().contains_key(semantic_id)
                    && self.local_map_view()[semantic_id] == l,
                None => !self.local_map_view().contains_key(semantic_id),
            },
    {
        match self.local_map.get(semantic_id) {
            Some(l) => Some(*l),
            None => None,
        }
    }

    /// The MIR local mapped to a semantic local, which must be mapped.
    pub fn get_local_unwrap(&self, semantic_id: SemLocalId) -> (r: LocalId)
        requires
            self.inv(),
            self.local_map_view().contains_key(semantic_id),
        ensures
            r == self.local_map_view()[semantic_id],
    {
        *self.local_map.get(semantic_id).unwrap()
    }

    /// A copy of the local map (for restoring after lowering a nested closure).
    pub fn save_local_map(&self) -> (r: Table<SemLocalId, LocalId>)
        requires
            self.inv(),
        ensures
            r.wf(),
            r.map() == self.local_map_view(),
    {
        let mut e: Vec<(SemLocalId, LocalId)> = Vec::new();
        let mut i: usize = 0;
        while i < self.local_map.entries.len()
            invariant
                i <= self.local_map.entries@.len(),
                e@ == self.local_map.entries@.take(i as int),
            decreases self.local_map.entries.len() - i,
        {
            let x = self.local_map.entries[i];
            e.push(x);
            i = i + 1;
            assert(e@ =~= self.local_map.entries@.take(i as int));
        }
        assert(e@ =~= self.local_map.entries@);
        let r = Table { entries: e };
        assert(r.keys() =~= self.local_map.keys());
        r
    }

    /// Restores a previously saved local map.
    pub fn restore_local_map(&mut self, map: Table<SemLocalId, LocalId>)
        requires
            old(self).inv(),
            map.wf(),
        ensures
            final(self).inv(),
            final(self).mir == old(self).mir,
            final(self).local_map_view() == map.map(),
            final(self).cur_function() == old(self).cur_function(),
            final(self).type_param_view() == old(self).type_param_view(),
            final(self).cur_block() == old(self).cur_block(),
            final(self).loops() == old(self).loops(),
            final(self).scopes() == old(self).scopes(),
            final(self).temps() == old(self).temps(),
            final(self).diags() == old(self).diags(),
            final(self).temp_count() == old(self).temp_count(),
            final(self).closure_count() == old(self).closure_count(),
            final(self).flag_count() == old(self).flag_count(),
    {
        self.local_map = map;
    }

    // === Type Parameter Mapping ===

    /// Maps a semantic type parameter to a MIR type parameter.
    pub fn map_type_param(&mut self, semantic_id: SymbolId, mir_id: TypeParamId)
        requires
            old(self).inv(),
        ensures
            final(self).inv(),
            final(self).mir == old(self).mir,
            final(self).type_param_view() == old(self).type_param_view().insert(semantic_id, mir_id),
            final(self).local_map_view() == old(self).local_map_view(),
            final(self).cur_function() == old(self).cur_function(),
            final(self).cur_block() == old(self).cur_block(),
            final(self).scopes() == old(self).scopes(),
            final(self).loops() == old(self).loops(),
    {
        self.type_param_map.insert(semantic_id, mir_id);
    }

    /// The MIR type parameter mapped to a semantic type parameter, if any.
    pub fn get_type_param(&self, semantic_id: SymbolId) -> (r: Option<TypeParamId>)
        requires
            self.inv(),
        ensures
            match r {
                Some(t) => self.type_param_view().contains_key(semantic_id)
                    && self.type_param_view()[semantic_id] == t,
                None => !self.type_param_view().contains_key(semantic_id),
            },
    {
        match self.type_param_map.get(semantic_id) {
            Some(t) => Some(*t),
            None => None,
        }
    }

    /// Clears the type parameter mapping (when leaving a generic context).
    pub fn clear_type_params(&mut self)
        requires
            old(self).inv(),
        ensures
            final(self).inv(),
            final(self).mir == old(self).mir,
            final(self).type_param_view() == Map::<SymbolId, TypeParamId>::empty(),
            final(self).local_map_view() == old(self).local_map_view(),
            final(self).cur_function() == old(self).cur_function(),
            final(self).cur_block() == old(self).cur_block(),
            final(self).scopes() == old(self).scopes(),
            final(self).loops() == old(self).loops(),
    {
        self.type_param_map = Table::new();
    }

    // === Loop Stack ===

    /// Pushes a loop; its scope depth is the current scope stack depth.
    pub fn push_loop(
        &mut self,
        loop_id: LoopId,
        header_block: BlockId,
        exit_block: BlockId,
        label: Option<String>,
    )
        requires
            old(self).inv(),
        ensures
            final(self).inv(),
            final(self).mir == old(self).mir,
            final(self).loops() == old(self).loops().push(
                LoopInfo {
                    loop_id,
                    label,
                    header_block,
                    exit_block,
                    scope_depth: old(self).scopes().len() as usize,
                },
            ),
            final(self).scopes() == old(self).scopes(),
            final(self).cur_function() == old(self).cur_function(),
            final(self).type_param_view() == old(self).type_param_view(),
            final(self).cur_block() == old(self).cur_block(),
            final(self).local_map_view() == old(self).local_map_view(),
            final(self).temps() == old(self).temps(),
            final(self).diags() == old(self).diags(),
            final(self).temp_count() == old(self).temp_count(),
            final(self).closure_count() == old(self).closure_count(),
            final(self).flag_count() == old(self).flag_count(),
    {
        let depth = self.scope_stack.len();
        self.loop_stack.push(
            LoopInfo { loop_id, label, header_block, exit_block, scope_depth: depth },
        );
    }

    /// Pops the innermost loop.
    pub fn pop_loop(&mut self) -> (r: Option<LoopInfo>)
        requires
            old(self).inv(),
        ensures
            final(self).inv(),
            final(self).mir == old(self).mir,
            old(self).loops().len() == 0 ==> r is None && final(self).loops().len() == 0,
            old(self).loops().len() > 0 ==> r == Some(old(self).loops().last())
                && final(self).loops() == old(self).loops().drop_last(),
            final(self).scopes() == old(self).scopes(),
            final(self).cur_function() == old(self).cur_function(),
            final(self).type_param_view() == old(self).type_param_view(),
            final(self).cur_block() == old(self).cur_block(),
            final(self).local_map_view() == old(self).local_map_view(),
            final(self).temps() == old(self).temps(),
            final(self).diags() == old(self).diags(),
            final(self).temp_count() == old(self).temp_count(),
            final(self).closure_count() == old(self).closure_count(),
            final(self).flag_count() == old(self).flag_count(),
    {
        self.loop_stack.pop()
    }

    /// Finds the innermost loop with the given id.
    pub fn find_loop(&self, loop_id: LoopId) -> (r: Option<&LoopInfo>)
        ensures
            last_loop_with_id(self.loops(), loop_id) < 0 ==> r is None,
            last_loop_with_id(self.loops(), loop_id) >= 0 ==> r == Some(
                &self.loops()[last_loop_with_id(self.loops(), loop_id)],
            ),
    {
        let mut i: usize = self.loop_stack.len();
        assert(self.loop_stack@.take(i as int) =~= self.loop_stack@);
        while i > 0
            invariant
                i <= self.loop_stack@.len(),
                last_loop_with_id(self.loop_stack@, loop_id) == last_loop_with_id(
                    self.loop_stack@.take(i as int),
                    loop_id,
                ),
            decreases i,
        {
            proof {
                lemma_take_last(self.loop_stack@, i as int);
            }
            if self.loop_stack[i - 1].loop_id == loop_id {
                return Some(&self.loop_stack[i - 1]);
            }
            i = i - 1;
        }
        None
    }

    /// Finds the innermost loop with the given label.
    pub fn find_loop_by_label(&self, label: &str) -> (r: Option<&LoopInfo>)
        ensures
            last_loop_with_label(self.loops(), label@) < 0 ==> r is None,
            last_loop_with_label(self.loops(), label@) >= 0 ==> r == Some(
                &self.loops()[last_loop_with_label(self.loops(), label@)],
            ),
    {
        let mut i: usize = self.loop_stack.len();
        assert(self.loop_stack@.take(i as int) =~= self.loop_stack@);
        while i > 0
            invariant
                i <= self.loop_stack@.len(),
                last_loop_with_label(self.loop_stack@, label@) == last_loop_with_label(
                    self.loop_stack@.take(i as int),
                    label@,
                ),
            decreases i,
        {
            proof {
                lemma_take_last(self.loop_stack@, i as int);
            }
            let l = &self.loop_stack[i - 1];
            let matches = match &l.label {
                Some(s) => str_equal(s.as_str(), label),
                None => false,
            };
            if matches {
                return Some(l);
            }
            i = i - 1;
        }
        None
    }

    /// The ids of the active loops, outermost first.
    pub fn loop_stack_ids(&self) -> (r: Vec<LoopId>)
        ensures
            r@ == self.loops().map_values(|l: LoopInfo| l.loop_id),
    {
        let mut r: Vec<LoopId> = Vec::new();
        let mut i: usize = 0;
        while i < self.loop_stack.len()
            invariant
                i <= self.loop_stack@.len(),
                r@ == self.loop_stack@.take(i as int).map_values(|l: LoopInfo| l.loop_id),
            decreases self.loop_stack.len() - i,
        {
            r.push(self.loop_stack[i].loop_id);
            i = i + 1;
            assert(r@ =~= self.loop_stack@.take(i as int).map_values(|l: LoopInfo| l.loop_id));
        }
        assert(self.loop_stack@.take(i as int) =~= self.loop_stack@);
        r
    }

    /// The innermost loop.
    pub fn innermost_loop(&self) -> (r: Option<&LoopInfo>)
        ensures
            self.loops().len() == 0 ==> r is None,
            self.loops().len() > 0 ==> r == Some(&self.loops().last()),
    {
        self.loop_stack.last()
    }

    /// A copy of the loop stack (for restoring after lowering a nested closure).
    pub fn save_loop_stack(&self) -> (r: Vec<LoopInfo>)
        ensures
            r@ == self.loops(),
    {
        let mut r: Vec<LoopInfo> = Vec::new();
        let mut i: usize = 0;
        while i < self.loop_stack.len()
            invariant
                i <= self.loop_stack@.len(),
                r@ == self.loop_stack@.take(i as int),
            decreases self.loop_stack.len() - i,
        {
            r.push(self.loop_stack[i].duplicate());
            i = i + 1;
            assert(r@ =~= self.loop_stack@.take(i as int));
        }
        assert(r@ =~= self.loop_stack@);
        r
    }

    /// Restores a previously saved loop stack.
    pub fn restore_loop_stack(&mut self, stack: Vec<LoopInfo>)
        requires
            old(self).inv(),
        ensures
            final(self).inv(),
            final(self).mir == old(self).mir,
            final(self).loops() == stack@,
            final(self).scopes() == old(self).scopes(),
            final(self).cur_function() == old(self).cur_function(),
            final(self).type_param_view() == old(self).type_param_view(),
            final(self).cur_block() == old(self).cur_block(),
            final(self).local_map_view() == old(self).local_map_view(),
            final(self).temps() == old(self).temps(),
            final(self).diags() == old(self).diags(),
            final(self).temp_count() == old(self).temp_count(),
            final(self).closure_count() == old(self).closure_count(),
            final(self).flag_count() == old(self).flag_count(),
    {
        self.loop_stack = stack;
    }

    // === Block Management ===

    /// Sets the current block.
    pub fn set_current_block(&mut self, block: BlockId)
        requires
            old(self).inv(),
            block.0 < old(self).mir.blocks@.len(),
        ensures
            final(self).inv(),
            final(self).mir == old(self).mir,
            final(self).cur_block() == Some(block),
            final(self).same_but_block(old(self)),
            final(self).cur_function() == old(self).cur_function(),
            final(self).local_map_view() == old(self).local_map_view(),
            final(self).loops() == old(self).loops(),
            final(self).scopes() == old(self).scopes(),
            final(self).temps() == old(self).temps(),
            final(self).diags() == old(self).diags(),
            final(self).temp_count() == old(self).temp_count(),
            final(self).closure_count() == old(self).closure_count(),
            final(self).flag_count() == old(self).flag_count(),
    {
        self.current_block = Some(block);
    }

    /// The current block, if any.
    pub fn current_block(&self) -> (r: Option<BlockId>)
        ensures
            r == self.cur_block(),
    {
        self.current_block
    }

    /// The current block, which must be set.
    pub fn current_block_unwrap(&self) -> (r: BlockId)
        requires
            self.cur_block() is Some,
        ensures
            Some(r) == self.cur_block(),
    {
        self.current_block.unwrap()
    }

    /// Whether the current block is terminated; no current block counts as terminated.
    pub fn is_block_terminated(&self) -> (r: bool)
        requires
            self.inv(),
        ensures
            r == self.terminated(),
    {
        match self.current_block {
            Some(b) => self.mir.blocks[b.0].terminator.is_some(),
            None => true,
        }
    }

    // === Temporary Names and Counters ===

    /// A fresh temporary name `prefix_N`, where N is the temporary counter, which advances.
    pub fn fresh_temp(&mut self, prefix: &str) -> (r: String)
        requires
            old(self).inv(),
            old(self).temp_count() < u32::MAX,
        ensures
            final(self).inv(),
            r@ == prefix@ + "_"@ + decimal(old(self).temp_count() as nat),
            final(self).temp_count() == old(self).temp_count() + 1,
            final(self).mir == old(self).mir,
            final(self).cur_function() == old(self).cur_function(),
            final(self).type_param_view() == old(self).type_param_view(),
            final(self).cur_block() == old(self).cur_block(),
            final(self).local_map_view() == old(self).local_map_view(),
            final(self).loops() == old(self).loops(),
            final(self).scopes() == old(self).scopes(),
            final(self).temps() == old(self).temps(),
            final(self).diags() == old(self).diags(),
            final(self).closure_count() == old(self).closure_count(),
            final(self).flag_count() == old(self).flag_count(),
    {
        let n = self.temp_counter;
        self.temp_counter = self.temp_counter + 1;
        let mut s = owned(prefix);
        s.append("_");
        append_decimal(&mut s, n);
        s
    }

    /// The next closure index; the closure counter advances.
    pub fn next_closure_index(&mut self) -> (r: u32)
        requires
            old(self).inv(),
            old(self).closure_count() < u32::MAX,
        ensures
            final(self).inv(),
            r == old(self).closure_count(),
            final(self).closure_count() == old(self).closure_count() + 1,
            final(self).mir == old(self).mir,
            final(self).cur_function() == old(self).cur_function(),
            final(self).type_param_view() == old(self).type_param_view(),
            final(self).cur_block() == old(self).cur_block(),
            final(self).local_map_view() == old(self).local_map_view(),
            final(self).loops() == old(self).loops(),
            final(self).scopes() == old(self).scopes(),
            final(self).temps() == old(self).temps(),
            final(self).diags() == old(self).diags(),
            final(self).temp_count() == old(self).temp_count(),
            final(self).flag_count() == old(self).flag_count(),
    {
        let idx = self.closure_counter;
        self.closure_counter = self.closure_counter + 1;
        idx
    }

    /// The closure counter.
    pub fn get_closure_counter(&self) -> (r: u32)
        ensures
            r == self.closure_count(),
    {
        self.closure_counter
    }

    /// Sets the closure counter.
    pub fn set_closure_counter(&mut self, counter: u32)
        requires
            old(self).inv(),
        ensures
            final(self).inv(),
            final(self).closure_count() == counter,
            final(self).mir == old(self).mir,
            final(self).cur_function() == old(self).cur_function(),
            final(self).type_param_view() == old(self).type_param_view(),
            final(self).cur_block() == old(self).cur_block(),
            final(self).local_map_view() == old(self).local_map_view(),
            final(self).loops() == old(self).loops(),
            final(self).scopes() == old(self).scopes(),
            final(self).temps() == old(self).temps(),
            final(self).diags() == old(self).diags(),
            final(self).temp_count() == old(self).temp_count(),
            final(self).flag_count() == old(self).flag_count(),
    {
        self.closure_counter = counter;
    }

    /// The temporary counter.
    pub fn get_temp_counter(&self) -> (r: u32)
        ensures
            r == self.temp_count(),
    {
        self.temp_counter
    }

    /// Sets the temporary counter.
    pub fn set_temp_counter(&mut self, counter: u32)
        requires
            old(self).inv(),
        ensures
            final(self).inv(),
            final(self).temp_count() == counter,
            final(self).mir == old(self).mir,
            final(self).cur_function() == old(self).cur_function(),
            final(self).type_param_view() == old(self).type_param_view(),
            final(self).cur_block() == old(self).cur_block(),
            final(self).local_map_view() == old(self).local_map_view(),
            final(self).loops() == old(self).loops(),
            final(self).scopes() == old(self).scopes(),
            final(self).temps() == old(self).temps(),
            final(self).diags() == old(self).diags(),
            final(self).closure_count() == old(self).closure_count(),
            final(self).flag_count() == old(self).flag_count(),
    {
        self.temp_counter = counter;
    }

    /// The deinit flag counter.
    pub fn get_deinit_flag_counter(&self) -> (r: u32)
        ensures
            r == self.flag_count(),
    {
        self.deinit_flag_counter
    }

    /// Sets the deinit flag counter.
    pub fn set_deinit_flag_counter(&mut self, counter: u32)
        requires
            old(self).inv(),
        ensures
            final(self).inv(),
            final(self).flag_count() == counter,
            final(self).mir == old(self).mir,
            final(self).cur_function() == old(self).cur_function(),
            final(self).type_param_view() == old(self).type_param_view(),
            final(self).cur_block() == old(self).cur_block(),
            final(self).local_map_view() == old(self).local_map_view(),
            final(self).loops() == old(self).loops(),
            final(self).scopes() == old(self).scopes(),
            final(self).temps() == old(self).temps(),
            final(self).diags() == old(self).diags(),
            final(self).temp_count() == old(self).temp_count(),
            final(self).closure_count() == old(self).closure_count(),
    {
        self.deinit_flag_counter = counter;
    }

    /// A copy of the statement temporaries.
    pub fn save_statement_temps(&self) -> (r: Vec<LocalId>)
        ensures
            r@ == self.temps(),
    {
        let mut r: Vec<LocalId> = Vec::new();
        let mut i: usize = 0;
        while i < self.statement_temps.len()
            invariant
                i <= self.statement_temps@.len(),
                r@ == self.statement_temps@.take(i as int),
            decreases self.statement_temps.len() - i,
        {
            r.push(self.statement_temps[i]);
            i = i + 1;
            assert(r@ =~= self.statement_temps@.take(i as int));
        }
        assert(r@ =~= self.statement_temps@);
        r
    }

    /// Restores the statement temporaries.
    pub fn restore_statement_temps(&mut self, temps: Vec<LocalId>)
        requires
            old(self).inv(),
        ensures
            final(self).inv(),
            final(self).temps() == temps@,
            final(self).mir == old(self).mir,
            final(self).cur_function() == old(self).cur_function(),
            final(self).type_param_view() == old(self).type_param_view(),
            final(self).cur_block() == old(self).cur_block(),
            final(self).local_map_view() == old(self).local_map_view(),
            final(self).loops() == old(self).loops(),
            final(self).scopes() == old(self).scopes(),
            final(self).diags() == old(self).diags(),
            final(self).temp_count() == old(self).temp_count(),
            final(self).closure_count() == old(self).closure_count(),
            final(self).flag_count() == old(self).flag_count(),
    {
        self.statement_temps = temps;
    }
}


/// `new` is `old` with one local of function `f` added, named `name`, of type `ty`;
/// nothing else of the MIR changed.
pub open spec fn local_added(old: &MirContext, new: &MirContext, f: FunctionId, name: Seq<char>, ty: TyId) -> bool {
    &&& new.names == old.names
    &&& new.types == old.types
    &&& new.blocks == old.blocks
    &&& new.statics == old.statics
    &&& new.locals@.len() == old.locals@.len() + 1
    &&& new.locals@.drop_last() == old.locals@
    &&& new.locals@.last().name@ == name
    &&& new.locals@.last().ty == ty
    &&& new.functions@.len() == old.functions@.len()
    &&& forall|j: int| 0 <= j < old.functions@.len() && j != f.0 ==> new.functions@[j] == old.functions@[j]
    &&& new.functions@[f.0 as int].locals@ == old.functions@[f.0 as int].locals@.push(LocalId(old.locals@.len() as usize))
    &&& new.functions@[f.0 as int].blocks == old.functions@[f.0 as int].blocks
    &&& new.functions@[f.0 as int].params == old.functions@[f.0 as int].params
    &&& new.functions@[f.0 as int].name == old.functions@[f.0 as int].name
    &&& new.functions@[f.0 as int].return_ty == old.functions@[f.0 as int].return_ty
    &&& new.functions@[f.0 as int].entry_block == old.functions@[f.0 as int].entry_block
}

/// `new` is `old` with `n` deinit flag locals of function `f` added, named with the
/// counter values `count`, `count + 1`, ..., each of boolean type; no block changed.
pub open spec fn flags_added(old: &MirContext, new: &MirContext, f: FunctionId, count: nat, n: nat) -> bool {
    &&& new.names == old.names
    &&& new.statics == old.statics
    &&& old.types@.is_prefix_of(new.types@)
    &&& new.blocks@.len() == old.blocks@.len()
    &&& new.locals@.len() == old.locals@.len() + n
    &&& old.locals@.is_prefix_of(new.locals@)
    &&& forall|i: int| 0 <= i < n ==> {
        &&& (#[trigger] new.locals@[old.locals@.len() + i]).name@ == deinit_flag_name((count + i) as nat)
        &&& new.locals@[old.locals@.len() + i].ty.0 < new.types@.len()
        &&& new.types@[new.locals@[old.locals@.len() + i].ty.0 as int] == MirTy::Bool
    }
    &&& new.functions@.len() == old.functions@.len()
    &&& forall|j: int| 0 <= j < old.functions@.len() && j != f.0 ==> new.functions@[j] == old.functions@[j]
    &&& new.functions@[f.0 as int].locals@ == old.functions@[f.0 as int].locals@ + Seq::new(
        n,
        |i: int| LocalId((old.locals@.len() + i) as usize),
    )
    &&& new.functions@[f.0 as int].blocks == old.functions@[f.0 as int].blocks
    &&& new.functions@[f.0 as int].params == old.functions@[f.0 as int].params
    &&& new.functions@[f.0 as int].name == old.functions@[f.0 as int].name
    &&& new.functions@[f.0 as int].entry_block == old.functions@[f.0 as int].entry_block
}

/// The statements that set the flags `first`, `first + 1`, ... (`n` of them) to true.
pub open spec fn flag_inits(first: nat, n: nat) -> Seq<StmtV> {
    Seq::new(n, |i: int| StmtV::SetDeinitFlag { flag: LocalId((first + i) as usize), value: true })
}

proof fn lemma_flags_added_refl(m: &MirContext, f: FunctionId, count: nat)
    requires
        f.0 < m.functions@.len(),
    ensures
        flags_added(m, m, f, count, 0),
{
    assert(m.types@.is_prefix_of(m.types@));
    assert(m.locals@.is_prefix_of(m.locals@));
    assert(m.functions@[f.0 as int].locals@ =~= m.functions@[f.0 as int].locals@ + Seq::new(
        0,
        |i: int| LocalId((m.locals@.len() + i) as usize),
    ));
}

proof fn lemma_flags_added_step(
    a: &MirContext,
    b: &MirContext,
    c: &MirContext,
    f: FunctionId,
    count: nat,
    n: nat,
    ty: TyId,
)
    requires
        f.0 < a.functions@.len(),
        flags_added(a, b, f, count, n),
        b.names == c.names,
        b.statics == c.statics,
        b.types@.is_prefix_of(c.types@),
        c.blocks@.len() == b.blocks@.len(),
        c.locals@.len() == b.locals@.len() + 1,
        c.locals@.drop_last() == b.locals@,
        c.locals@.last().name@ == deinit_flag_name(count + n),
        c.locals@.last().ty == ty,
        ty.0 < c.types@.len(),
        c.types@[ty.0 as int] == MirTy::Bool,
        c.functions@.len() == b.functions@.len(),
        forall|j: int| 0 <= j < b.functions@.len() && j != f.0 ==> c.functions@[j] == b.functions@[j],
        c.functions@[f.0 as int].locals@ == b.functions@[f.0 as int].locals@.push(LocalId(b.locals@.len() as usize)),
        c.functions@[f.0 as int].blocks == b.functions@[f.0 as int].blocks,
        c.functions@[f.0 as int].params == b.functions@[f.0 as int].params,
        c.functions@[f.0 as int].name == b.functions@[f.0 as int].name,
        c.functions@[f.0 as int].entry_block == b.functions@[f.0 as int].entry_block,
    ensures
        flags_added(a, c, f, count, n + 1),
{
    let la = a.locals@.len();
    assert(a.types@.is_prefix_of(c.types@)) by {
        assert forall|i: int| 0 <= i < a.types@.len() implies a.types@[i] == c.types@[i] by {
            assert(b.types@[i] == a.types@[i]);
        }
    }
    assert(a.locals@.is_prefix_of(c.locals@)) by {
        assert forall|i: int| 0 <= i < la implies a.locals@[i] == c.locals@[i] by {
            assert(b.locals@[i] == a.locals@[i]);
            assert(c.locals@.drop_last()[i] == c.locals@[i]);
        }
    }
    assert forall|i: int| 0 <= i < n + 1 implies {
        &&& (#[trigger] c.locals@[la + i]).name@ == deinit_flag_name((count + i) as nat)
        &&& c.locals@[la + i].ty.0 < c.types@.len()
        &&& c.types@[c.locals@[la + i].ty.0 as int] == MirTy::Bool
    } by {
        if i < n {
            assert(c.locals@.drop_last()[la + i] == c.locals@[la + i]);
            assert(b.locals@[la + i] == c.locals@[la + i]);
            let t = b.locals@[la + i].ty.0 as int;
            assert(b.types@[t] == MirTy::Bool);
            assert(c.types@[t] == b.types@[t]);
        } else {
            assert(la + i == c.locals@.len() - 1);
        }
    }
    assert(c.functions@[f.0 as int].locals@ =~= a.functions@[f.0 as int].locals@ + Seq::new(
        n + 1,
        |i: int| LocalId((la + i) as usize),
    ));
}

impl LoweringContext {
    // === Statement Emission ===

    /// Adds a statement to the current block.
    pub fn emit_statement(&mut self, kind: StatementKind)
        requires
            old(self).inv(),
            old(self).cur_block() is Some,
        ensures
            final(self).inv(),
            final(self).same_state(old(self)),
            final(self).mir.only_block_changed(&old(self).mir, old(self).cur_block().unwrap()),
            final(self).mir.stmts_of(old(self).cur_block().unwrap()) == old(self).mir.stmts_of(
                old(self).cur_block().unwrap(),
            ).push(kind@),
            final(self).mir.blocks@[old(self).cur_block().unwrap().0 as int].terminator
                == old(self).mir.blocks@[old(self).cur_block().unwrap().0 as int].terminator,
    {
        let b = self.current_block_unwrap();
        self.mir.push_statement(b, kind);
    }

    /// Emits an assignment statement.
    pub fn emit_assign(&mut self, dest: Place, rvalue: Rvalue)
        requires
            old(self).inv(),
            old(self).cur_block() is Some,
        ensures
            final(self).inv(),
            final(self).same_state(old(self)),
            final(self).mir.only_block_changed(&old(self).mir, old(self).cur_block().unwrap()),
            final(self).mir.stmts_of(old(self).cur_block().unwrap()) == old(self).mir.stmts_of(
                old(self).cur_block().unwrap(),
            ).push(StmtV::Assign { dest: dest@, rvalue: rvalue@ }),
            final(self).mir.blocks@[old(self).cur_block().unwrap().0 as int].terminator
                == old(self).mir.blocks@[old(self).cur_block().unwrap().0 as int].terminator,
    {
        self.emit_statement(StatementKind::Assign { dest, rvalue });
    }

    /// Emits a copy assignment.
    pub fn emit_copy(&mut self, dest: Place, src: Place)
        requires
            old(self).inv(),
            old(self).cur_block() is Some,
        ensures
            final(self).inv(),
            final(self).same_state(old(self)),
            final(self).mir.only_block_changed(&old(self).mir, old(self).cur_block().unwrap()),
            final(self).mir.stmts_of(old(self).cur_block().unwrap()) == old(self).mir.stmts_of(
                old(self).cur_block().unwrap(),
            ).push(StmtV::Assign { dest: dest@, rvalue: crate::mir::RvalueV::Copy(src@) }),
            final(self).mir.blocks@[old(self).cur_block().unwrap().0 as int].terminator
                == old(self).mir.blocks@[old(self).cur_block().unwrap().0 as int].terminator,
    {
        self.emit_assign(dest, Rvalue::Copy(src));
    }

    /// Emits an immediate assignment.
    pub fn emit_imm(&mut self, dest: Place, imm: Immediate)
        requires
            old(self).inv(),
            old(self).cur_block() is Some,
        ensures
            final(self).inv(),
            final(self).same_state(old(self)),
            final(self).mir.only_block_changed(&old(self).mir, old(self).cur_block().unwrap()),
            final(self).mir.stmts_of(old(self).cur_block().unwrap()) == old(self).mir.stmts_of(
                old(self).cur_block().unwrap(),
            ).push(StmtV::Assign { dest: dest@, rvalue: crate::mir::RvalueV::Use(imm@) }),
            final(self).mir.blocks@[old(self).cur_block().unwrap().0 as int].terminator
                == old(self).mir.blocks@[old(self).cur_block().unwrap().0 as int].terminator,
    {
        self.emit_assign(dest, Rvalue::Use(imm));
    }

    /// Emits an assignment from a value: a copy from a place, an immediate, or
    /// nothing when the value is unreachable (the expression diverged).
    pub fn emit_assign_value(&mut self, dest: Place, value: Value)
        requires
            old(self).inv(),
            old(self).cur_block() is Some || value is Unreachable,
        ensures
            final(self).inv(),
            value is Unreachable ==> *final(self) == *old(self),
            final(self).same_state(old(self)),
            final(self).mir.only_block_changed(&old(self).mir, old(self).cur_block().unwrap()),
            final(self).mir.stmts_of(old(self).cur_block().unwrap()) == old(self).mir.stmts_of(
                old(self).cur_block().unwrap(),
            ) + assign_value_stmts(dest@, value@),
            final(self).mir.blocks@[old(self).cur_block().unwrap().0 as int].terminator
                == old(self).mir.blocks@[old(self).cur_block().unwrap().0 as int].terminator,
    {
        let ghost dv = dest@;
        let ghost vv = value@;
        let ghost b = self.current_block.unwrap();
        match value {
            Value::Place(p) => self.emit_copy(dest, p),
            Value::Immediate(i) => self.emit_imm(dest, i),
            Value::Unreachable => {},
        }
        assert(self.mir.stmts_of(b) =~= old(self).mir.stmts_of(b) + assign_value_stmts(dv, vv));
    }

    // === Terminator Emission ===

    /// Sets the terminator of the current block.
    pub fn emit_terminator(&mut self, kind: TerminatorKind)
        requires
            old(self).inv(),
            old(self).cur_block() is Some,
        ensures
            final(self).inv(),
            final(self).same_state(old(self)),
            final(self).mir.only_block_changed(&old(self).mir, old(self).cur_block().unwrap()),
            final(self).mir.stmts_of(old(self).cur_block().unwrap()) == old(self).mir.stmts_of(
                old(self).cur_block().unwrap(),
            ),
            final(self).mir.term_of(old(self).cur_block().unwrap()) == Some(kind@),
            final(self).terminated(),
    {
        let b = self.current_block_unwrap();
        self.mir.set_terminator(b, kind);
    }

    /// Emits a return terminator.
    pub fn emit_return(&mut self, value: Value)
        requires
            old(self).inv(),
            old(self).cur_block() is Some,
        ensures
            final(self).inv(),
            final(self).same_state(old(self)),
            final(self).mir.only_block_changed(&old(self).mir, old(self).cur_block().unwrap()),
            final(self).mir.stmts_of(old(self).cur_block().unwrap()) == old(self).mir.stmts_of(
                old(self).cur_block().unwrap(),
            ),
            final(self).mir.term_of(old(self).cur_block().unwrap()) == Some(crate::mir::TermV::Return(value@)),
    {
        self.emit_terminator(TerminatorKind::Return(value));
    }

    /// Emits a return of unit.
    pub fn emit_return_unit(&mut self)
        requires
            old(self).inv(),
            old(self).cur_block() is Some,
        ensures
            final(self).inv(),
            final(self).same_state(old(self)),
            final(self).mir.only_block_changed(&old(self).mir, old(self).cur_block().unwrap()),
            final(self).mir.stmts_of(old(self).cur_block().unwrap()) == old(self).mir.stmts_of(
                old(self).cur_block().unwrap(),
            ),
            final(self).mir.term_of(old(self).cur_block().unwrap()) == Some(
                crate::mir::TermV::Return(crate::mir::ValueV::Immediate(crate::mir::ImmediateV::Unit)),
            ),
    {
        self.emit_return(Value::Immediate(Immediate::unit()));
    }

    /// Emits an unconditional jump.
    pub fn emit_jump(&mut self, target: BlockId)
        requires
            old(self).inv(),
            old(self).cur_block() is Some,
        ensures
            final(self).inv(),
            final(self).same_state(old(self)),
            final(self).mir.only_block_changed(&old(self).mir, old(self).cur_block().unwrap()),
            final(self).mir.stmts_of(old(self).cur_block().unwrap()) == old(self).mir.stmts_of(
                old(self).cur_block().unwrap(),
            ),
            final(self).mir.term_of(old(self).cur_block().unwrap()) == Some(crate::mir::TermV::Jump(target)),
    {
        self.emit_terminator(TerminatorKind::Jump(target));
    }

    /// Emits a conditional branch.
    pub fn emit_branch(&mut self, condition: Value, then_block: BlockId, else_block: BlockId)
        requires
            old(self).inv(),
            old(self).cur_block() is Some,
        ensures
            final(self).inv(),
            final(self).same_state(old(self)),
            final(self).mir.only_block_changed(&old(self).mir, old(self).cur_block().unwrap()),
            final(self).mir.stmts_of(old(self).cur_block().unwrap()) == old(self).mir.stmts_of(
                old(self).cur_block().unwrap(),
            ),
            final(self).mir.term_of(old(self).cur_block().unwrap()) == Some(
                crate::mir::TermV::Branch { condition: condition@, then_block, else_block },
            ),
    {
        self.emit_terminator(TerminatorKind::Branch { condition, then_block, else_block });
    }

    /// Emits a switch terminator.
    pub fn emit_switch(&mut self, discriminant: Place, cases: Vec<(String, BlockId)>)
        requires
            old(self).inv(),
            old(self).cur_block() is Some,
        ensures
            final(self).inv(),
            final(self).same_state(old(self)),
            final(self).mir.only_block_changed(&old(self).mir, old(self).cur_block().unwrap()),
            final(self).mir.stmts_of(old(self).cur_block().unwrap()) == old(self).mir.stmts_of(
                old(self).cur_block().unwrap(),
            ),
            final(self).mir.term_of(old(self).cur_block().unwrap()) == Some(
                crate::mir::TermV::Switch {
                    discriminant: discriminant@,
                    cases: crate::mir::cases_view(cases@),
                },
            ),
    {
        self.emit_terminator(TerminatorKind::Switch { discriminant, cases });
    }

    /// Emits an unreachable terminator.
    pub fn emit_unreachable(&mut self)
        requires
            old(self).inv(),
            old(self).cur_block() is Some,
        ensures
            final(self).inv(),
            final(self).same_state(old(self)),
            final(self).mir.only_block_changed(&old(self).mir, old(self).cur_block().unwrap()),
            final(self).mir.stmts_of(old(self).cur_block().unwrap()) == old(self).mir.stmts_of(
                old(self).cur_block().unwrap(),
            ),
            final(self).mir.term_of(old(self).cur_block().unwrap()) == Some(crate::mir::TermV::Unreachable),
    {
        self.emit_terminator(TerminatorKind::Unreachable);
    }

    // === Local and Block Creation ===

    /// Creates a new local in the current function.
    pub fn create_local(&mut self, name: &str, ty: TyId) -> (r: LocalId)
        requires
            old(self).inv(),
            old(self).cur_function() is Some,
        ensures
            final(self).inv(),
            final(self).same_state(old(self)),
            r.0 == old(self).mir.locals@.len(),
            local_added(&old(self).mir, &final(self).mir, old(self).cur_function().unwrap(), name@, ty),
    {
        let f = self.current_function_unwrap();
        let r = self.mir.add_local(f, owned(name), ty);
        assert(self.mir.locals@.drop_last() =~= old(self).mir.locals@);
        r
    }

    /// Creates a temporary local named `prefix_N` from the temporary counter.
    pub fn create_temp(&mut self, prefix: &str, ty: TyId) -> (r: LocalId)
        requires
            old(self).inv(),
            old(self).cur_function() is Some,
            old(self).temp_count() < u32::MAX,
        ensures
            final(self).inv(),
            r.0 == old(self).mir.locals@.len(),
            local_added(
                &old(self).mir,
                &final(self).mir,
                old(self).cur_function().unwrap(),
                prefix@ + "_"@ + decimal(old(self).temp_count() as nat),
                ty,
            ),
            final(self).temp_count() == old(self).temp_count() + 1,
            final(self).cur_function() == old(self).cur_function(),
            final(self).type_param_view() == old(self).type_param_view(),
            final(self).cur_block() == old(self).cur_block(),
            final(self).local_map_view() == old(self).local_map_view(),
            final(self).loops() == old(self).loops(),
            final(self).scopes() == old(self).scopes(),
            final(self).temps() == old(self).temps(),
            final(self).diags() == old(self).diags(),
            final(self).closure_count() == old(self).closure_count(),
            final(self).flag_count() == old(self).flag_count(),
    {
        let name = self.fresh_temp(prefix);
        self.create_local(name.as_str(), ty)
    }

    /// Creates a new block in the current function.
    pub fn create_block(&mut self) -> (r: BlockId)
        requires
            old(self).inv(),
            old(self).cur_function() is Some,
        ensures
            final(self).inv(),
            final(self).same_state(old(self)),
            r.0 == old(self).mir.blocks@.len(),
            final(self).mir.blocks@.len() == old(self).mir.blocks@.len() + 1,
            forall|j: int| 0 <= j < old(self).mir.blocks@.len() ==> final(self).mir.blocks@[j] == old(self).mir.blocks@[j],
            final(self).mir.blocks@[r.0 as int].statements@.len() == 0,
            final(self).mir.blocks@[r.0 as int].terminator is None,
            final(self).mir.names == old(self).mir.names,
            final(self).mir.types == old(self).mir.types,
            final(self).mir.locals == old(self).mir.locals,
            final(self).mir.statics == old(self).mir.statics,
            final(self).mir.functions@.len() == old(self).mir.functions@.len(),
            ({
                let f = old(self).cur_function().unwrap().0 as int;
                &&& forall|j: int| 0 <= j < old(self).mir.functions@.len() && j != f
                    ==> final(self).mir.functions@[j] == old(self).mir.functions@[j]
                &&& final(self).mir.functions@[f].blocks@ == old(self).mir.functions@[f].blocks@.push(r)
                &&& final(self).mir.functions@[f].locals == old(self).mir.functions@[f].locals
                &&& final(self).mir.functions@[f].params == old(self).mir.functions@[f].params
                &&& final(self).mir.functions@[f].name == old(self).mir.functions@[f].name
                &&& final(self).mir.functions@[f].return_ty == old(self).mir.functions@[f].return_ty
                &&& final(self).mir.functions@[f].entry_block == old(self).mir.functions@[f].entry_block
            }),
    {
        let f = self.current_function_unwrap();
        self.mir.add_block(f)
    }

    // === Deinit Flags ===

    /// Creates a deinit flag local (`__deinit_flag_N`, of boolean type) without
    /// initializing it; the flag counter advances.
    pub fn create_deinit_flag_uninit(&mut self) -> (r: LocalId)
        requires
            old(self).inv(),
            old(self).cur_function() is Some,
            old(self).flag_count() < u32::MAX,
        ensures
            final(self).inv(),
            r.0 == old(self).mir.locals@.len(),
            flags_added(&old(self).mir, &final(self).mir, old(self).cur_function().unwrap(), old(self).flag_count() as nat, 1),
            final(self).mir.blocks == old(self).mir.blocks,
            final(self).flag_count() == old(self).flag_count() + 1,
            final(self).cur_function() == old(self).cur_function(),
            final(self).type_param_view() == old(self).type_param_view(),
            final(self).cur_block() == old(self).cur_block(),
            final(self).local_map_view() == old(self).local_map_view(),
            final(self).loops() == old(self).loops(),
            final(self).scopes() == old(self).scopes(),
            final(self).temps() == old(self).temps(),
            final(self).diags() == old(self).diags(),
            final(self).temp_count() == old(self).temp_count(),
            final(self).closure_count() == old(self).closure_count(),
    {
        let n = self.deinit_flag_counter;
        let mut name = owned("__deinit_flag_");
        append_decimal(&mut name, n);
        self.deinit_flag_counter = n + 1;
        let ghost m0 = self.mir;
        let ty_bool = self.mir.ty_bool();
        let ghost m1 = self.mir;
        let f = self.current_function_unwrap();
        let r = self.create_local(name.as_str(), ty_bool);
        proof {
            lemma_flags_added_refl(&old(self).mir, f, n as nat);
            assert(flags_added(&old(self).mir, &m1, f, n as nat, 0)) by {
                assert(m0.types@.is_prefix_of(m1.types@));
                assert(m1.functions@[f.0 as int].locals@ =~= m0.functions@[f.0 as int].locals@ + Seq::new(
                    0,
                    |i: int| LocalId((m0.locals@.len() + i) as usize),
                ));
                assert(m0.locals@.is_prefix_of(m1.locals@));
            }
            assert(m1.types@.is_prefix_of(self.mir.types@));
            lemma_flags_added_step(&old(self).mir, &m1, &self.mir, f, n as nat, 0, ty_bool);
        }
        r
    }

    /// Creates a deinit flag local initialized to true (needs deinit).
    fn create_deinit_flag(&mut self) -> (r: LocalId)
        requires
            old(self).inv(),
            old(self).cur_function() is Some,
            old(self).cur_block() is Some,
            old(self).flag_count() < u32::MAX,
        ensures
            final(self).inv(),
            r.0 == old(self).mir.locals@.len(),
            flags_added(&old(self).mir, &final(self).mir, old(self).cur_function().unwrap(), old(self).flag_count() as nat, 1),
            final(self).mir.blocks@.len() == old(self).mir.blocks@.len(),
            forall|j: int| 0 <= j < old(self).mir.blocks@.len() && j != old(self).cur_block().unwrap().0 ==> final(self).mir.blocks@[j] == old(self).mir.blocks@[j],
            final(self).mir.stmts_of(old(self).cur_block().unwrap()) == old(self).mir.stmts_of(
                old(self).cur_block().unwrap(),
            ).push(StmtV::SetDeinitFlag { flag: r, value: true }),
            final(self).mir.blocks@[old(self).cur_block().unwrap().0 as int].terminator
                == old(self).mir.blocks@[old(self).cur_block().unwrap().0 as int].terminator,
            final(self).flag_count() == old(self).flag_count() + 1,
            final(self).cur_function() == old(self).cur_function(),
            final(self).type_param_view() == old(self).type_param_view(),
            final(self).cur_block() == old(self).cur_block(),
            final(self).local_map_view() == old(self).local_map_view(),
            final(self).loops() == old(self).loops(),
            final(self).scopes() == old(self).scopes(),
            final(self).temps() == old(self).temps(),
            final(self).diags() == old(self).diags(),
            final(self).temp_count() == old(self).temp_count(),
            final(self).closure_count() == old(self).closure_count(),
    {
        let flag = self.create_deinit_flag_uninit();
        let ghost m1 = self.mir;
        self.emit_statement(StatementKind::SetDeinitFlag { flag, value: true });
        proof {
            let f = old(self).cur_function().unwrap();
            assert(flags_added(&old(self).mir, &self.mir, f, old(self).flag_count() as nat, 1));
        }
        flag
    }

    /// Sets a deinit flag to a specific value.
    pub fn set_deinit_flag(&mut self, flag: LocalId, value: bool)
        requires
            old(self).inv(),
            old(self).cur_block() is Some,
        ensures
            final(self).inv(),
            final(self).same_state(old(self)),
            final(self).mir.only_block_changed(&old(self).mir, old(self).cur_block().unwrap()),
            final(self).mir.stmts_of(old(self).cur_block().unwrap()) == old(self).mir.stmts_of(
                old(self).cur_block().unwrap(),
            ).push(StmtV::SetDeinitFlag { flag, value }),
            final(self).mir.blocks@[old(self).cur_block().unwrap().0 as int].terminator
                == old(self).mir.blocks@[old(self).cur_block().unwrap().0 as int].terminator,
    {
        self.emit_statement(StatementKind::SetDeinitFlag { flag, value });
    }
}

/// The statements that assign a value to a destination: a copy from a place, the
/// immediate, or none for an unreachable value.
pub open spec fn assign_value_stmts(dest: PlaceV, value: crate::mir::ValueV) -> Seq<StmtV> {
    match value {
        crate::mir::ValueV::Place(p) => seq![StmtV::Assign { dest, rvalue: crate::mir::RvalueV::Copy(p) }],
        crate::mir::ValueV::Immediate(i) => seq![StmtV::Assign { dest, rvalue: crate::mir::RvalueV::Use(i) }],
        crate::mir::ValueV::Unreachable => Seq::empty(),
    }
}



pub(crate) proof fn lemma_innermost_tracking_set(
    sv: Seq<Map<LocalId, DeinitStatus>>,
    local: LocalId,
    status: DeinitStatus,
    other: LocalId,
)
    ensures
        innermost_tracking(set_status(sv, local, status), other) == innermost_tracking(sv, other),
        set_status(sv, local, status).len() == sv.len(),
        forall|j: int| 0 <= j < sv.len() ==> (#[trigger] set_status(sv, local, status)[j]).dom() == sv[j].dom(),
{
    lemma_innermost_tracking_range(sv, local);
    let n = set_status(sv, local, status);
    assert forall|j: int| 0 <= j < sv.len() implies (#[trigger] n[j]).dom() == sv[j].dom() by {
        if j == innermost_tracking(sv, local) {
            assert(n[j].dom() =~= sv[j].dom());
        }
    }
    lemma_same_domains_tracking(sv, n, other);
}

pub(crate) proof fn lemma_same_domains_tracking(
    a: Seq<Map<LocalId, DeinitStatus>>,
    b: Seq<Map<LocalId, DeinitStatus>>,
    local: LocalId,
)
    requires
        a.len() == b.len(),
        forall|j: int| 0 <= j < a.len() ==> (#[trigger] b[j]).dom() == a[j].dom(),
    ensures
        innermost_tracking(a, local) == innermost_tracking(b, local),
    decreases a.len(),
{
    if a.len() > 0 {
        assert(b.last().dom() == a.last().dom());
        if !a.last().contains_key(local) {
            assert forall|j: int| 0 <= j < a.drop_last().len() implies
                (#[trigger] b.drop_last()[j]).dom() == a.drop_last()[j].dom() by {
                assert(b.drop_last()[j] == b[j]);
                assert(a.drop_last()[j] == a[j]);
            }
            lemma_same_domains_tracking(a.drop_last(), b.drop_last(), local);
        }
    }
}

impl LoweringContext {
    // === Scope Management for Deinit ===

    /// Enters a new (empty) lexical scope.
    pub fn enter_scope(&mut self)
        requires
            old(self).inv(),
        ensures
            final(self).inv(),
            final(self).mir == old(self).mir,
            final(self).scopes().len() == old(self).scopes().len() + 1,
            final(self).scopes().drop_last() == old(self).scopes(),
            final(self).scopes().last().locals@.len() == 0,
            final(self).scopes().last().deinit_status.keys().len() == 0,
            final(self).scopes().last().deinit_status.map() == Map::<LocalId, DeinitStatus>::empty(),
            final(self).scopes().last().local_types.keys().len() == 0,
            final(self).cur_function() == old(self).cur_function(),
            final(self).type_param_view() == old(self).type_param_view(),
            final(self).cur_block() == old(self).cur_block(),
            final(self).local_map_view() == old(self).local_map_view(),
            final(self).loops() == old(self).loops(),
            final(self).temps() == old(self).temps(),
            final(self).diags() == old(self).diags(),
            final(self).temp_count() == old(self).temp_count(),
            final(self).closure_count() == old(self).closure_count(),
            final(self).flag_count() == old(self).flag_count(),
    {
        self.scope_stack.push(ScopeInfo::new());
        assert(self.scope_stack@.drop_last() =~= old(self).scope_stack@);
    }

    /// Exits the current scope without emitting deinits; returns it (for branch merging).
    pub fn exit_scope_no_emit(&mut self) -> (r: Option<ScopeInfo>)
        requires
            old(self).inv(),
        ensures
            final(self).inv(),
            final(self).mir == old(self).mir,
            old(self).scopes().len() == 0 ==> r is None && final(self).scopes().len() == 0,
            old(self).scopes().len() > 0 ==> r == Some(old(self).scopes().last())
                && final(self).scopes() == old(self).scopes().drop_last(),
            final(self).cur_function() == old(self).cur_function(),
            final(self).type_param_view() == old(self).type_param_view(),
            final(self).cur_block() == old(self).cur_block(),
            final(self).local_map_view() == old(self).local_map_view(),
            final(self).loops() == old(self).loops(),
            final(self).temps() == old(self).temps(),
            final(self).diags() == old(self).diags(),
            final(self).temp_count() == old(self).temp_count(),
            final(self).closure_count() == old(self).closure_count(),
            final(self).flag_count() == old(self).flag_count(),
    {
        let r = self.scope_stack.pop();
        proof {
            assert forall|i: int| 0 <= i < self.scope_stack@.len() implies #[trigger] self.scope_stack@[i].wf() by {
                assert(self.scope_stack@[i] == old(self).scope_stack@[i]);
            }
        }
        r
    }

    /// The current scope depth.
    pub fn scope_depth(&self) -> (r: usize)
        ensures
            r == self.scopes().len(),
    {
        self.scope_stack.len()
    }

    /// A copy of the scope stack (for restoring after lowering a nested closure).
    pub fn save_scope_stack(&self) -> (r: Vec<ScopeInfo>)
        requires
            self.inv(),
        ensures
            r@.len() == self.scopes().len(),
            forall|i: int| 0 <= i < r@.len() ==> (#[trigger] r@[i]).same_as(&self.scopes()[i]) && r@[i].wf(),
    {
        let mut r: Vec<ScopeInfo> = Vec::new();
        let mut i: usize = 0;
        while i < self.scope_stack.len()
            invariant
                self.inv(),
                i <= self.scope_stack@.len(),
                r@.len() == i,
                forall|k: int| 0 <= k < i ==> (#[trigger] r@[k]).same_as(&self.scope_stack@[k]) && r@[k].wf(),
            decreases self.scope_stack.len() - i,
        {
            assert(self.scope_stack@[i as int].wf());
            r.push(self.scope_stack[i].duplicate());
            i = i + 1;
        }
        r
    }

    /// Restores a previously saved scope stack.
    pub fn restore_scope_stack(&mut self, stack: Vec<ScopeInfo>)
        requires
            old(self).inv(),
            forall|i: int| 0 <= i < stack@.len() ==> #[trigger] stack@[i].wf(),
        ensures
            final(self).inv(),
            final(self).mir == old(self).mir,
            final(self).scopes() == stack@,
            final(self).cur_function() == old(self).cur_function(),
            final(self).type_param_view() == old(self).type_param_view(),
            final(self).cur_block() == old(self).cur_block(),
            final(self).local_map_view() == old(self).local_map_view(),
            final(self).loops() == old(self).loops(),
            final(self).temps() == old(self).temps(),
            final(self).diags() == old(self).diags(),
            final(self).temp_count() == old(self).temp_count(),
            final(self).closure_count() == old(self).closure_count(),
            final(self).flag_count() == old(self).flag_count(),
    {
        self.scope_stack = stack;
    }

    // === Local Tracking for Deinit ===

    /// The position of the innermost scope tracking the status of `local`.
    fn find_tracking(&self, local: LocalId) -> (r: Option<usize>)
        requires
            self.inv(),
        ensures
            match r {
                Some(k) => k as int == innermost_tracking(status_maps(self.scopes()), local) && k
                    < self.scopes().len(),
                None => innermost_tracking(status_maps(self.scopes()), local) < 0,
            },
    {
        let ghost sv = status_maps(self.scope_stack@);
        let mut i: usize = self.scope_stack.len();
        assert(sv.take(i as int) =~= sv);
        while i > 0
            invariant
                self.inv(),
                sv == status_maps(self.scope_stack@),
                i <= self.scope_stack@.len(),
                innermost_tracking(sv, local) == innermost_tracking(sv.take(i as int), local),
            decreases i,
        {
            proof {
                lemma_take_last(sv, i as int);
            }
            assert(self.scope_stack@[i - 1].wf());
            if self.scope_stack[i - 1].deinit_status.contains(local) {
                return Some(i - 1);
            }
            i = i - 1;
        }
        None
    }

    /// The deinit status of a local in the innermost scope tracking it.
    pub fn get_deinit_status(&self, local: LocalId) -> (r: Option<&DeinitStatus>)
        requires
            self.inv(),
        ensures
            match r {
                Some(st) => status_in(status_maps(self.scopes()), local) == Some(*st),
                None => status_in(status_maps(self.scopes()), local) is None,
            },
    {
        match self.find_tracking(local) {
            Some(k) => {
                assert(self.scope_stack@[k as int].wf());
                proof {
                    let sv = status_maps(self.scope_stack@);
                    lemma_innermost_tracking_range(sv, local);
                    assert(sv[k as int] == self.scope_stack@[k as int].deinit_status.map());
                }
                self.scope_stack[k].deinit_status.get(local)
            },
            None => None,
        }
    }

    /// The deinit status of a local in the innermost scope tracking it (a copy).
    pub fn get_current_deinit_status(&self, local: LocalId) -> (r: Option<DeinitStatus>)
        requires
            self.inv(),
        ensures
            r == status_in(status_maps(self.scopes()), local),
    {
        match self.get_deinit_status(local) {
            Some(st) => Some(*st),
            None => None,
        }
    }

    /// Sets the status of a local in the innermost scope tracking it; no change
    /// when no scope tracks it.
    pub fn update_deinit_status(&mut self, local: LocalId, status: DeinitStatus)
        requires
            old(self).inv(),
        ensures
            final(self).inv(),
            final(self).mir == old(self).mir,
            same_shape(old(self).scopes(), final(self).scopes()),
            status_maps(final(self).scopes()) == set_status(status_maps(old(self).scopes()), local, status),
            final(self).cur_function() == old(self).cur_function(),
            final(self).type_param_view() == old(self).type_param_view(),
            final(self).cur_block() == old(self).cur_block(),
            final(self).local_map_view() == old(self).local_map_view(),
            final(self).loops() == old(self).loops(),
            final(self).temps() == old(self).temps(),
            final(self).diags() == old(self).diags(),
            final(self).temp_count() == old(self).temp_count(),
            final(self).closure_count() == old(self).closure_count(),
            final(self).flag_count() == old(self).flag_count(),
    {
        match self.find_tracking(local) {
            Some(k) => {
                assert(self.scope_stack@[k as int].wf());
                proof {
                    let sv = status_maps(self.scope_stack@);
                    lemma_innermost_tracking_range(sv, local);
                    assert(sv[k as int] == self.scope_stack@[k as int].deinit_status.map());
                    assert(self.scope_stack@[k as int].deinit_status.keys().contains(local));
                }
                self.scope_stack[k].deinit_status.insert(local, status);
                proof {
                    let sv = status_maps(old(self).scope_stack@);
                    assert(status_maps(self.scope_stack@) =~= sv.update(k as int, sv[k as int].insert(local, status)));
                    assert forall|i: int| 0 <= i < self.scope_stack@.len() implies #[trigger] self.scope_stack@[i].wf() by {
                        if i != k {
                            assert(self.scope_stack@[i] == old(self).scope_stack@[i]);
                        }
                    }
                }
            },
            None => {
                assert(status_maps(self.scope_stack@) =~= status_maps(old(self).scope_stack@));
            },
        }
    }

    /// Marks a local as moved (no deinit needed) in the innermost scope tracking it.
    pub fn mark_moved(&mut self, local: LocalId)
        requires
            old(self).inv(),
        ensures
            final(self).inv(),
            final(self).mir == old(self).mir,
            same_shape(old(self).scopes(), final(self).scopes()),
            status_maps(final(self).scopes()) == set_status(status_maps(old(self).scopes()), local, DeinitStatus::Moved),
            final(self).cur_function() == old(self).cur_function(),
            final(self).type_param_view() == old(self).type_param_view(),
            final(self).cur_block() == old(self).cur_block(),
            final(self).local_map_view() == old(self).local_map_view(),
            final(self).loops() == old(self).loops(),
            final(self).temps() == old(self).temps(),
            final(self).diags() == old(self).diags(),
            final(self).temp_count() == old(self).temp_count(),
            final(self).closure_count() == old(self).closure_count(),
            final(self).flag_count() == old(self).flag_count(),
    {
        self.update_deinit_status(local, DeinitStatus::Moved);
    }

    /// Registers a local as declared in the current scope; when `needs_deinit`, it is
    /// tracked as valid (and its type recorded, if given). No effect without a scope.
    pub fn track_local(&mut self, local: LocalId, needs_deinit: bool, ty: Option<TyRef>)
        requires
            old(self).inv(),
        ensures
            final(self).inv(),
            final(self).mir == old(self).mir,
            old(self).scopes().len() == 0 ==> final(self).scopes() == old(self).scopes(),
            old(self).scopes().len() > 0 ==> {
                let o = old(self).scopes().last();
                let n = final(self).scopes().last();
                &&& final(self).scopes().len() == old(self).scopes().len()
                &&& final(self).scopes().drop_last() == old(self).scopes().drop_last()
                &&& n.locals@ == o.locals@.push(local)
                &&& n.deinit_status.map() == (if needs_deinit {
                    o.deinit_status.map().insert(local, DeinitStatus::Valid)
                } else {
                    o.deinit_status.map()
                })
                &&& n.local_types.map() == (match ty {
                    Some(t) => if needs_deinit {
                        o.local_types.map().insert(local, t)
                    } else {
                        o.local_types.map()
                    },
                    None => o.local_types.map(),
                })
            },
            final(self).cur_function() == old(self).cur_function(),
            final(self).type_param_view() == old(self).type_param_view(),
            final(self).cur_block() == old(self).cur_block(),
            final(self).local_map_view() == old(self).local_map_view(),
            final(self).loops() == old(self).loops(),
            final(self).temps() == old(self).temps(),
            final(self).diags() == old(self).diags(),
            final(self).temp_count() == old(self).temp_count(),
            final(self).closure_count() == old(self).closure_count(),
            final(self).flag_count() == old(self).flag_count(),
    {
        let n = self.scope_stack.len();
        if n > 0 {
            let last = n - 1;
            assert(self.scope_stack@[last as int].wf());
            self.scope_stack[last].locals.push(local);
            if needs_deinit {
                self.scope_stack[last].deinit_status.insert(local, DeinitStatus::Valid);
                match ty {
                    Some(t) => {
                        self.scope_stack[last].local_types.insert(local, t);
                    },
                    None => {},
                }
            }
            proof {
                assert(self.scope_stack@.drop_last() =~= old(self).scope_stack@.drop_last());
                assert forall|i: int| 0 <= i < self.scope_stack@.len() implies #[trigger] self.scope_stack@[i].wf() by {
                    if i != last {
                        assert(self.scope_stack@[i] == old(self).scope_stack@[i]);
                    }
                }
            }
        }
    }

    /// The semantic type recorded for a local in the innermost scope recording one.
    pub fn get_local_type(&self, local: LocalId) -> (r: Option<&TyRef>)
        requires
            self.inv(),
        ensures
            innermost_typed(self.scopes(), local) < 0 ==> r is None,
            innermost_typed(self.scopes(), local) >= 0 ==> r == Some(
                &self.scopes()[innermost_typed(self.scopes(), local)].local_types.map()[local],
            ),
    {
        let mut i: usize = self.scope_stack.len();
        assert(self.scope_stack@.take(i as int) =~= self.scope_stack@);
        while i > 0
            invariant
                self.inv(),
                i <= self.scope_stack@.len(),
                innermost_typed(self.scope_stack@, local) == innermost_typed(self.scope_stack@.take(i as int), local),
            decreases i,
        {
            proof {
                lemma_take_last(self.scope_stack@, i as int);
            }
            assert(self.scope_stack@[i - 1].wf());
            match self.scope_stack[i - 1].local_types.get(local) {
                Some(t) => {
                    return Some(t);
                },
                None => {},
            }
            i = i - 1;
        }
        None
    }

    /// Registers a temporary for end-of-statement cleanup and tracks it as valid in
    /// the current scope (when there is one).
    pub fn track_statement_temp(&mut self, local: LocalId)
        requires
            old(self).inv(),
        ensures
            final(self).inv(),
            final(self).mir == old(self).mir,
            final(self).temps() == old(self).temps().push(local),
            old(self).scopes().len() == 0 ==> final(self).scopes() == old(self).scopes(),
            old(self).scopes().len() > 0 ==> {
                let o = old(self).scopes().last();
                let n = final(self).scopes().last();
                &&& final(self).scopes().len() == old(self).scopes().len()
                &&& final(self).scopes().drop_last() == old(self).scopes().drop_last()
                &&& n.locals == o.locals
                &&& n.local_types == o.local_types
                &&& n.deinit_status.map() == o.deinit_status.map().insert(local, DeinitStatus::Valid)
            },
            final(self).cur_function() == old(self).cur_function(),
            final(self).type_param_view() == old(self).type_param_view(),
            final(self).cur_block() == old(self).cur_block(),
            final(self).local_map_view() == old(self).local_map_view(),
            final(self).loops() == old(self).loops(),
            final(self).diags() == old(self).diags(),
            final(self).temp_count() == old(self).temp_count(),
            final(self).closure_count() == old(self).closure_count(),
            final(self).flag_count() == old(self).flag_count(),
    {
        self.statement_temps.push(local);
        let n = self.scope_stack.len();
        if n > 0 {
            let last = n - 1;
            assert(self.scope_stack@[last as int].wf());
            self.scope_stack[last].deinit_status.insert(local, DeinitStatus::Valid);
            proof {
                assert(self.scope_stack@.drop_last() =~= old(self).scope_stack@.drop_last());
                assert forall|i: int| 0 <= i < self.scope_stack@.len() implies #[trigger] self.scope_stack@[i].wf() by {
                    if i != last {
                        assert(self.scope_stack@[i] == old(self).scope_stack@[i]);
                    }
                }
            }
        }
    }
}


/// The local a value moves out of when it is a bare local place.
pub open spec fn moved_local(v: crate::mir::ValueV) -> Option<LocalId> {
    match v {
        crate::mir::ValueV::Place(PlaceV::Local(l)) => Some(l),
        _ => None,
    }
}

/// The statements that move a value into a destination: a move from a place, the
/// immediate, or none for an unreachable value.
pub open spec fn move_value_stmts(dest: PlaceV, value: crate::mir::ValueV) -> Seq<StmtV> {
    match value {
        crate::mir::ValueV::Place(p) => seq![StmtV::Assign { dest, rvalue: crate::mir::RvalueV::Move(p) }],
        crate::mir::ValueV::Immediate(i) => seq![StmtV::Assign { dest, rvalue: crate::mir::RvalueV::Use(i) }],
        crate::mir::ValueV::Unreachable => Seq::empty(),
    }
}

/// The status maps after moving out of the value's local, if it is one.
pub open spec fn after_move(sv: Seq<Map<LocalId, DeinitStatus>>, value: crate::mir::ValueV) -> Seq<Map<LocalId, DeinitStatus>> {
    match moved_local(value) {
        Some(l) => set_status(sv, l, DeinitStatus::Moved),
        None => sv,
    }
}

/// The end-of-statement cleanup of one temporary with the given status: nothing when
/// moved, a conditional deinit when maybe moved, else a deinit.
pub open spec fn temp_deinit_stmt(l: LocalId, st: Option<DeinitStatus>) -> Seq<StmtV> {
    match st {
        Some(DeinitStatus::Moved) => Seq::empty(),
        Some(DeinitStatus::MaybeMoved { flag }) => seq![StmtV::DeinitIf { place: PlaceV::Local(l), flag }],
        _ => seq![StmtV::Deinit { place: PlaceV::Local(l) }],
    }
}

/// The cleanup of the temporaries, last created first.
pub open spec fn temp_deinits(temps: Seq<LocalId>, sv: Seq<Map<LocalId, DeinitStatus>>) -> Seq<StmtV>
    decreases temps.len(),
{
    if temps.len() == 0 {
        Seq::empty()
    } else {
        temp_deinits(temps.drop_first(), sv) + temp_deinit_stmt(temps[0], status_in(sv, temps[0]))
    }
}

/// All tracked entries of the scopes: outermost scope first, each in its order.
pub open spec fn all_entries(s: Seq<ScopeInfo>) -> Seq<(LocalId, DeinitStatus)>
    decreases s.len(),
{
    if s.len() == 0 {
        Seq::empty()
    } else {
        all_entries(s.drop_last()) + s.last().deinit_status.entries@
    }
}

/// The statuses of all scopes merged into one map; inner scopes win.
pub open spec fn snapshot_map(sv: Seq<Map<LocalId, DeinitStatus>>) -> Map<LocalId, DeinitStatus>
    decreases sv.len(),
{
    if sv.len() == 0 {
        Map::empty()
    } else {
        snapshot_map(sv.drop_last()).union_prefer_right(sv.last())
    }
}

/// The value of `k` in `m`, or `d` when absent.
pub open spec fn lookup_or(m: Map<LocalId, DeinitStatus>, k: LocalId, d: DeinitStatus) -> DeinitStatus {
    if m.contains_key(k) {
        m[k]
    } else {
        d
    }
}

/// The outcome of a branch merge, as sequences.
pub struct MergeOut {
    pub updates: Seq<(LocalId, DeinitStatus)>,
    pub then_false: Seq<LocalId>,
    pub then_true: Seq<LocalId>,
    pub else_false: Seq<LocalId>,
    pub else_true: Seq<LocalId>,
    pub flags: nat,
}

/// An empty merge outcome.
pub open spec fn merge_none() -> MergeOut {
    MergeOut {
        updates: Seq::empty(),
        then_false: Seq::empty(),
        then_true: Seq::empty(),
        else_false: Seq::empty(),
        else_true: Seq::empty(),
        flags: 0,
    }
}

/// One local's contribution to a branch merge, given its status before the branch
/// and at the end of each branch. A local valid in one branch and moved in the
/// other gets a new flag (the next local, `first + flags`), set true at the end of
/// the branch where it is valid and false where it was moved; it becomes
/// maybe-moved. A local moved in both branches becomes moved. An existing flag is
/// set true at the end of a branch where the value is valid, false where it moved.
pub open spec fn merge_entry(
    acc: MergeOut,
    local: LocalId,
    before: DeinitStatus,
    th: DeinitStatus,
    el: DeinitStatus,
    first: nat,
) -> MergeOut {
    match (th, el) {
        (DeinitStatus::Valid, DeinitStatus::Valid) => acc,
        (DeinitStatus::Moved, DeinitStatus::Moved) => if before != DeinitStatus::Moved {
            MergeOut { updates: acc.updates.push((local, DeinitStatus::Moved)), ..acc }
        } else {
            acc
        },
        (DeinitStatus::Valid, DeinitStatus::Moved) => {
            let flag = LocalId((first + acc.flags) as usize);
            MergeOut {
                updates: acc.updates.push((local, DeinitStatus::MaybeMoved { flag })),
                then_true: acc.then_true.push(flag),
                else_false: acc.else_false.push(flag),
                flags: acc.flags + 1,
                ..acc
            }
        },
        (DeinitStatus::Moved, DeinitStatus::Valid) => {
            let flag = LocalId((first + acc.flags) as usize);
            MergeOut {
                updates: acc.updates.push((local, DeinitStatus::MaybeMoved { flag })),
                then_false: acc.then_false.push(flag),
                else_true: acc.else_true.push(flag),
                flags: acc.flags + 1,
                ..acc
            }
        },
        (DeinitStatus::MaybeMoved { flag }, DeinitStatus::Valid) => MergeOut {
            then_true: acc.then_true.push(flag),
            else_true: acc.else_true.push(flag),
            ..acc
        },
        (DeinitStatus::Valid, DeinitStatus::MaybeMoved { flag }) => MergeOut {
            then_true: acc.then_true.push(flag),
            else_true: acc.else_true.push(flag),
            ..acc
        },
        (DeinitStatus::MaybeMoved { flag }, DeinitStatus::Moved) => MergeOut {
            else_false: acc.else_false.push(flag),
            ..acc
        },
        (DeinitStatus::Moved, DeinitStatus::MaybeMoved { flag }) => MergeOut {
            then_false: acc.then_false.push(flag),
            ..acc
        },
        (DeinitStatus::MaybeMoved { .. }, DeinitStatus::MaybeMoved { .. }) => acc,
    }
}

/// The branch merge over the entries of the "before" snapshot, in order; a local
/// missing from a branch snapshot keeps its "before" status there.
pub open spec fn merge_all(
    entries: Seq<(LocalId, DeinitStatus)>,
    then_m: Map<LocalId, DeinitStatus>,
    else_m: Map<LocalId, DeinitStatus>,
    first: nat,
) -> MergeOut
    decreases entries.len(),
{
    if entries.len() == 0 {
        merge_none()
    } else {
        let acc = merge_all(entries.drop_last(), then_m, else_m, first);
        let (local, before) = entries.last();
        merge_entry(acc, local, before, lookup_or(then_m, local, before), lookup_or(else_m, local, before), first)
    }
}


/// How two branch statuses combine: equal definite statuses stay; an existing
/// maybe-moved flag is kept (the first branch's when both have one); valid in one
/// branch and moved in the other needs a fresh flag (`None`).
pub open spec fn merge_pair(a: DeinitStatus, b: DeinitStatus) -> Option<DeinitStatus> {
    match (a, b) {
        (DeinitStatus::Valid, DeinitStatus::Valid) => Some(DeinitStatus::Valid),
        (DeinitStatus::Moved, DeinitStatus::Moved) => Some(DeinitStatus::Moved),
        (DeinitStatus::MaybeMoved { flag }, _) => Some(DeinitStatus::MaybeMoved { flag }),
        (_, DeinitStatus::MaybeMoved { flag }) => Some(DeinitStatus::MaybeMoved { flag }),
        _ => None,
    }
}

/// The updates of a scope-based branch merge over the parent entries, with the
/// number of fresh flags; fresh flags are the locals `first`, `first + 1`, ...
pub open spec fn branch_updates(
    entries: Seq<(LocalId, DeinitStatus)>,
    then_m: Map<LocalId, DeinitStatus>,
    else_m: Map<LocalId, DeinitStatus>,
    first: nat,
) -> (Seq<(LocalId, DeinitStatus)>, nat)
    decreases entries.len(),
{
    if entries.len() == 0 {
        (Seq::empty(), 0)
    } else {
        let (ups, n) = branch_updates(entries.drop_last(), then_m, else_m, first);
        let (local, parent) = entries.last();
        let a = lookup_or(then_m, local, parent);
        let b = lookup_or(else_m, local, parent);
        let (merged, n2) = match merge_pair(a, b) {
            Some(st) => (st, n),
            None => (DeinitStatus::MaybeMoved { flag: LocalId((first + n) as usize) }, n + 1),
        };
        if merged != parent {
            (ups.push((local, merged)), n2)
        } else {
            (ups, n2)
        }
    }
}


proof fn lemma_skip_first<A>(s: Seq<A>, i: int)
    requires
        0 <= i < s.len(),
    ensures
        s.skip(i).drop_first() == s.skip(i + 1),
        s.skip(i)[0] == s[i],
        s.skip(i).len() > 0,
{
    assert(s.skip(i).drop_first() =~= s.skip(i + 1));
}

proof fn lemma_temp_deinits_step(temps: Seq<LocalId>, i: int, sv: Seq<Map<LocalId, DeinitStatus>>)
    requires
        0 < i <= temps.len(),
    ensures
        temp_deinits(temps.subrange(i - 1, temps.len() as int), sv) == temp_deinits(
            temps.subrange(i, temps.len() as int),
            sv,
        ) + temp_deinit_stmt(temps[i - 1], status_in(sv, temps[i - 1])),
{
    let s = temps.subrange(i - 1, temps.len() as int);
    assert(s.drop_first() =~= temps.subrange(i, temps.len() as int));
    assert(s[0] == temps[i - 1]);
}

impl LoweringContext {
    /// Marks a local as maybe-moved: returns the flag of the outermost scope where it
    /// is already maybe-moved; otherwise creates a flag initialized to true and makes
    /// it the local's flag in the innermost scope tracking it.
    pub fn mark_maybe_moved(&mut self, local: LocalId) -> (r: LocalId)
        requires
            old(self).inv(),
            outermost_maybe_flag(status_maps(old(self).scopes()), local) is None ==> {
                &&& old(self).cur_function() is Some
                &&& old(self).cur_block() is Some
                &&& old(self).flag_count() < u32::MAX
            },
        ensures
            final(self).inv(),
            outermost_maybe_flag(status_maps(old(self).scopes()), local) matches Some(f) ==> {
                &&& r == f
                &&& final(self).mir == old(self).mir
                &&& final(self).scopes() == old(self).scopes()
                &&& final(self).flag_count() == old(self).flag_count()
            },
            outermost_maybe_flag(status_maps(old(self).scopes()), local) is None ==> {
                &&& r.0 == old(self).mir.locals@.len()
                &&& flags_added(&old(self).mir, &final(self).mir, old(self).cur_function().unwrap(), old(self).flag_count() as nat, 1)
                &&& final(self).mir.blocks@.len() == old(self).mir.blocks@.len()
                &&& forall|j: int| 0 <= j < old(self).mir.blocks@.len() && j != old(self).cur_block().unwrap().0
                    ==> final(self).mir.blocks@[j] == old(self).mir.blocks@[j]
                &&& final(self).mir.stmts_of(old(self).cur_block().unwrap()) == old(self).mir.stmts_of(
                    old(self).cur_block().unwrap(),
                ).push(StmtV::SetDeinitFlag { flag: r, value: true })
                &&& final(self).mir.blocks@[old(self).cur_block().unwrap().0 as int].terminator
                    == old(self).mir.blocks@[old(self).cur_block().unwrap().0 as int].terminator
                &&& same_shape(old(self).scopes(), final(self).scopes())
                &&& status_maps(final(self).scopes()) == set_status(
                    status_maps(old(self).scopes()),
                    local,
                    DeinitStatus::MaybeMoved { flag: r },
                )
                &&& final(self).flag_count() == old(self).flag_count() + 1
            },
            final(self).cur_function() == old(self).cur_function(),
            final(self).type_param_view() == old(self).type_param_view(),
            final(self).cur_block() == old(self).cur_block(),
            final(self).local_map_view() == old(self).local_map_view(),
            final(self).loops() == old(self).loops(),
            final(self).temps() == old(self).temps(),
            final(self).diags() == old(self).diags(),
            final(self).temp_count() == old(self).temp_count(),
            final(self).closure_count() == old(self).closure_count(),
    {
        let ghost sv = status_maps(self.scope_stack@);
        let mut i: usize = 0;
        assert(sv.skip(0) =~= sv);
        while i < self.scope_stack.len()
            invariant
                self.inv(),
                *self == *old(self),
                sv == status_maps(self.scope_stack@),
                i <= self.scope_stack@.len(),
                outermost_maybe_flag(sv, local) == outermost_maybe_flag(sv.skip(i as int), local),
            decreases self.scope_stack.len() - i,
        {
            proof {
                lemma_skip_first(sv, i as int);
            }
            assert(self.scope_stack@[i as int].wf());
            assert(sv[i as int] == self.scope_stack@[i as int].deinit_status.map());
            match self.scope_stack[i].deinit_status.get(local) {
                Some(DeinitStatus::MaybeMoved { flag }) => {
                    return *flag;
                },
                _ => {},
            }
            i = i + 1;
        }
        assert(sv.skip(i as int).len() == 0);
        let flag = self.create_deinit_flag();
        self.update_deinit_status(local, DeinitStatus::MaybeMoved { flag });
        flag
    }

    /// Emits a move of a value into a destination, marking a bare local source as moved.
    pub fn emit_move_value(&mut self, dest: Place, value: Value)
        requires
            old(self).inv(),
            old(self).cur_block() is Some || value is Unreachable,
        ensures
            final(self).inv(),
            value is Unreachable ==> *final(self) == *old(self),
            final(self).mir.only_block_changed(&old(self).mir, old(self).cur_block().unwrap()),
            final(self).mir.stmts_of(old(self).cur_block().unwrap()) == old(self).mir.stmts_of(
                old(self).cur_block().unwrap(),
            ) + move_value_stmts(dest@, value@),
            final(self).mir.blocks@[old(self).cur_block().unwrap().0 as int].terminator
                == old(self).mir.blocks@[old(self).cur_block().unwrap().0 as int].terminator,
            same_shape(old(self).scopes(), final(self).scopes()),
            status_maps(final(self).scopes()) == after_move(status_maps(old(self).scopes()), value@),
            final(self).cur_function() == old(self).cur_function(),
            final(self).type_param_view() == old(self).type_param_view(),
            final(self).cur_block() == old(self).cur_block(),
            final(self).local_map_view() == old(self).local_map_view(),
            final(self).loops() == old(self).loops(),
            final(self).temps() == old(self).temps(),
            final(self).diags() == old(self).diags(),
            final(self).temp_count() == old(self).temp_count(),
            final(self).closure_count() == old(self).closure_count(),
            final(self).flag_count() == old(self).flag_count(),
    {
        let ghost dv = dest@;
        let ghost vv = value@;
        let ghost b = self.current_block.unwrap();
        match value {
            Value::Place(p) => {
                let l = p.as_local();
                self.emit_assign(dest, Rvalue::Move(p));
                match l {
                    Some(local) => self.mark_moved(local),
                    None => {},
                }
            },
            Value::Immediate(i) => self.emit_imm(dest, i),
            Value::Unreachable => {},
        }
        assert(self.mir.stmts_of(b) =~= old(self).mir.stmts_of(b) + move_value_stmts(dv, vv));
        assert(status_maps(self.scope_stack@) =~= after_move(status_maps(old(self).scope_stack@), vv));
    }

    /// Emits a copy (when the value's type is copyable) or a move (marking a bare
    /// local source as moved) of a value into a destination.
    pub fn emit_copy_or_move_value(&mut self, dest: Place, value: Value, copyable: bool)
        requires
            old(self).inv(),
            old(self).cur_block() is Some || value is Unreachable,
        ensures
            final(self).inv(),
            value is Unreachable ==> *final(self) == *old(self),
            final(self).mir.only_block_changed(&old(self).mir, old(self).cur_block().unwrap()),
            final(self).mir.stmts_of(old(self).cur_block().unwrap()) == old(self).mir.stmts_of(
                old(self).cur_block().unwrap(),
            ) + (if copyable {
                assign_value_stmts(dest@, value@)
            } else {
                move_value_stmts(dest@, value@)
            }),
            final(self).mir.blocks@[old(self).cur_block().unwrap().0 as int].terminator
                == old(self).mir.blocks@[old(self).cur_block().unwrap().0 as int].terminator,
            same_shape(old(self).scopes(), final(self).scopes()),
            status_maps(final(self).scopes()) == (if copyable {
                status_maps(old(self).scopes())
            } else {
                after_move(status_maps(old(self).scopes()), value@)
            }),
            final(self).cur_function() == old(self).cur_function(),
            final(self).type_param_view() == old(self).type_param_view(),
            final(self).cur_block() == old(self).cur_block(),
            final(self).local_map_view() == old(self).local_map_view(),
            final(self).loops() == old(self).loops(),
            final(self).temps() == old(self).temps(),
            final(self).diags() == old(self).diags(),
            final(self).temp_count() == old(self).temp_count(),
            final(self).closure_count() == old(self).closure_count(),
            final(self).flag_count() == old(self).flag_count(),
    {
        if copyable {
            self.emit_assign_value(dest, value);
            assert(status_maps(self.scope_stack@) =~= status_maps(old(self).scope_stack@));
            assert(same_shape(old(self).scope_stack@, self.scope_stack@));
        } else {
            self.emit_move_value(dest, value);
        }
    }

    /// Emits the end-of-statement cleanup of the statement temporaries (last created
    /// first) and clears them; nothing is emitted when the block is terminated.
    pub fn emit_temp_deinits(&mut self)
        requires
            old(self).inv(),
        ensures
            final(self).inv(),
            final(self).temps().len() == 0,
            old(self).terminated() ==> final(self).mir == old(self).mir,
            !old(self).terminated() ==> {
                &&& final(self).mir.only_block_changed(&old(self).mir, old(self).cur_block().unwrap())
                &&& final(self).mir.stmts_of(old(self).cur_block().unwrap()) == old(self).mir.stmts_of(
                    old(self).cur_block().unwrap(),
                ) + temp_deinits(old(self).temps(), status_maps(old(self).scopes()))
                &&& final(self).mir.blocks@[old(self).cur_block().unwrap().0 as int].terminator
                    == old(self).mir.blocks@[old(self).cur_block().unwrap().0 as int].terminator
            },
            final(self).scopes() == old(self).scopes(),
            final(self).cur_function() == old(self).cur_function(),
            final(self).type_param_view() == old(self).type_param_view(),
            final(self).cur_block() == old(self).cur_block(),
            final(self).local_map_view() == old(self).local_map_view(),
            final(self).loops() == old(self).loops(),
            final(self).diags() == old(self).diags(),
            final(self).temp_count() == old(self).temp_count(),
            final(self).closure_count() == old(self).closure_count(),
            final(self).flag_count() == old(self).flag_count(),
    {
        if self.is_block_terminated() {
            self.statement_temps = Vec::new();
            return;
        }
        let mut temps: Vec<LocalId> = Vec::new();
        std::mem::swap(&mut temps, &mut self.statement_temps);
        let ghost sv = status_maps(self.scope_stack@);
        let ghost b = self.current_block.unwrap();
        let n = temps.len();
        let mut i: usize = n;
        assert(temps@.subrange(n as int, n as int).len() == 0);
        while i > 0
            invariant
                self.inv(),
                self.cur_block() == Some(b),
                sv == status_maps(self.scope_stack@),
                self.scope_stack@ == old(self).scope_stack@,
                self.current_function == old(self).current_function,
                self.type_param_view() == old(self).type_param_view(),
                self.local_map == old(self).local_map,
                self.loop_stack == old(self).loop_stack,
                self.diagnostics == old(self).diagnostics,
                self.temp_counter == old(self).temp_counter,
                self.closure_counter == old(self).closure_counter,
                self.deinit_flag_counter == old(self).deinit_flag_counter,
                temps@ == old(self).statement_temps@,
                self.statement_temps@.len() == 0,
                n == temps@.len(),
                i <= n,
                self.mir.only_block_changed(&old(self).mir, b),
                self.mir.stmts_of(b) == old(self).mir.stmts_of(b) + temp_deinits(temps@.subrange(i as int, n as int), sv),
                self.mir.blocks@[b.0 as int].terminator == old(self).mir.blocks@[b.0 as int].terminator,
            decreases i,
        {
            let local = temps[i - 1];
            proof {
                lemma_temp_deinits_step(temps@, i as int, sv);
            }
            let ghost before = self.mir.stmts_of(b);
            match self.get_current_deinit_status(local) {
                Some(DeinitStatus::Moved) => {},
                Some(DeinitStatus::MaybeMoved { flag }) => {
                    self.emit_statement(StatementKind::DeinitIf { place: Place::local(local), flag });
                },
                _ => {
                    self.emit_statement(StatementKind::Deinit { place: Place::local(local) });
                },
            }
            assert(self.mir.stmts_of(b) =~= before + temp_deinit_stmt(local, status_in(sv, local)));
            i = i - 1;
        }
        assert(temps@.subrange(0, n as int) =~= temps@);
    }

    /// A snapshot of the statuses of all tracked locals (an inner scope's status wins).
    pub fn snapshot_parent_deinit_statuses(&self) -> (r: Table<LocalId, DeinitStatus>)
        requires
            self.inv(),
        ensures
            r.wf(),
            r.map() == snapshot_map(status_maps(self.scopes())),
    {
        let ghost sv = status_maps(self.scope_stack@);
        let mut r: Table<LocalId, DeinitStatus> = Table::new();
        let mut i: usize = 0;
        assert(sv.take(0) =~= Seq::<Map<LocalId, DeinitStatus>>::empty());
        while i < self.scope_stack.len()
            invariant
                self.inv(),
                sv == status_maps(self.scope_stack@),
                i <= self.scope_stack@.len(),
                r.wf(),
                r.map() == snapshot_map(sv.take(i as int)),
            decreases self.scope_stack.len() - i,
        {
            let scope = &self.scope_stack[i];
            assert(scope.wf());
            let ghost base = r.map();
            let mut j: usize = 0;
            while j < scope.deinit_status.len()
                invariant
                    scope.wf(),
                    r.wf(),
                    j <= scope.deinit_status.keys().len(),
                    r.map() == base.union_prefer_right(
                        scope.deinit_status.map().restrict(scope.deinit_status.keys().take(j as int).to_set()),
                    ),
                decreases scope.deinit_status.keys().len() - j,
            {
                let k = scope.deinit_status.key_at(j);
                let st = *scope.deinit_status.value_at(j);
                r.insert(k, st);
                proof {
                    let t = scope.deinit_status.keys();
                    assert(t.take(j + 1).to_set() =~= t.take(j as int).to_set().insert(k)) by {
                        assert(t.take(j + 1) =~= t.take(j as int).push(k));
                        t.take(j as int).lemma_push_to_set_commute(k);
                    }
                    assert(r.map() =~= base.union_prefer_right(
                        scope.deinit_status.map().restrict(t.take(j + 1).to_set()),
                    ));
                }
                j = j + 1;
            }
            proof {
                let t = scope.deinit_status.keys();
                assert(t.take(t.len() as int) =~= t);
                assert(scope.deinit_status.map().restrict(t.to_set()) =~= scope.deinit_status.map());
                lemma_take_last(sv, i + 1);
                assert(sv[i as int] == scope.deinit_status.map());
            }
            i = i + 1;
        }
        assert(sv.take(i as int) =~= sv);
        r
    }

    /// Applies status updates in order, each to the innermost scope tracking its local.
    pub fn apply_merge_updates(&mut self, updates: Vec<(LocalId, DeinitStatus)>)
        requires
            old(self).inv(),
        ensures
            final(self).inv(),
            final(self).mir == old(self).mir,
            same_shape(old(self).scopes(), final(self).scopes()),
            status_maps(final(self).scopes()) == apply_updates(status_maps(old(self).scopes()), updates@),
            final(self).cur_function() == old(self).cur_function(),
            final(self).type_param_view() == old(self).type_param_view(),
            final(self).cur_block() == old(self).cur_block(),
            final(self).local_map_view() == old(self).local_map_view(),
            final(self).loops() == old(self).loops(),
            final(self).temps() == old(self).temps(),
            final(self).diags() == old(self).diags(),
            final(self).temp_count() == old(self).temp_count(),
            final(self).closure_count() == old(self).closure_count(),
            final(self).flag_count() == old(self).flag_count(),
    {
        self.apply_status_entries(&updates);
    }

    /// Restores the statuses of a snapshot (each to the innermost scope tracking it).
    pub fn restore_deinit_statuses(&mut self, snapshot: &Table<LocalId, DeinitStatus>)
        requires
            old(self).inv(),
        ensures
            final(self).inv(),
            final(self).mir == old(self).mir,
            same_shape(old(self).scopes(), final(self).scopes()),
            status_maps(final(self).scopes()) == apply_updates(status_maps(old(self).scopes()), snapshot.entries@),
            final(self).cur_function() == old(self).cur_function(),
            final(self).type_param_view() == old(self).type_param_view(),
            final(self).cur_block() == old(self).cur_block(),
            final(self).local_map_view() == old(self).local_map_view(),
            final(self).loops() == old(self).loops(),
            final(self).temps() == old(self).temps(),
            final(self).diags() == old(self).diags(),
            final(self).temp_count() == old(self).temp_count(),
            final(self).closure_count() == old(self).closure_count(),
            final(self).flag_count() == old(self).flag_count(),
    {
        self.apply_status_entries(&snapshot.entries);
    }

    fn apply_status_entries(&mut self, updates: &Vec<(LocalId, DeinitStatus)>)
        requires
            old(self).inv(),
        ensures
            final(self).inv(),
            final(self).mir == old(self).mir,
            same_shape(old(self).scopes(), final(self).scopes()),
            status_maps(final(self).scopes()) == apply_updates(status_maps(old(self).scopes()), updates@),
            final(self).cur_function() == old(self).cur_function(),
            final(self).type_param_view() == old(self).type_param_view(),
            final(self).cur_block() == old(self).cur_block(),
            final(self).local_map_view() == old(self).local_map_view(),
            final(self).loops() == old(self).loops(),
            final(self).temps() == old(self).temps(),
            final(self).diags() == old(self).diags(),
            final(self).temp_count() == old(self).temp_count(),
            final(self).closure_count() == old(self).closure_count(),
            final(self).flag_count() == old(self).flag_count(),
    {
        let mut i: usize = 0;
        assert(updates@.take(0) =~= Seq::<(LocalId, DeinitStatus)>::empty());
        while i < updates.len()
            invariant
                self.inv(),
                i <= updates@.len(),
                self.mir == old(self).mir,
                same_shape(old(self).scope_stack@, self.scope_stack@),
                status_maps(self.scope_stack@) == apply_updates(status_maps(old(self).scope_stack@), updates@.take(i as int)),
                self.cur_function() == old(self).cur_function(),
                self.type_param_view() == old(self).type_param_view(),
                self.cur_block() == old(self).cur_block(),
                self.local_map_view() == old(self).local_map_view(),
                self.loops() == old(self).loops(),
                self.temps() == old(self).temps(),
                self.diags() == old(self).diags(),
                self.temp_count() == old(self).temp_count(),
                self.closure_count() == old(self).closure_count(),
                self.flag_count() == old(self).flag_count(),
            decreases updates.len() - i,
        {
            let (local, st) = updates[i];
            let ghost prev = self.scope_stack@;
            self.update_deinit_status(local, st);
            proof {
                lemma_take_last(updates@, i + 1);
                assert forall|j: int| 0 <= j < old(self).scope_stack@.len() implies {
                    &&& #[trigger] old(self).scope_stack@[j].locals == self.scope_stack@[j].locals
                    &&& old(self).scope_stack@[j].local_types == self.scope_stack@[j].local_types
                    &&& old(self).scope_stack@[j].deinit_status.keys() == self.scope_stack@[j].deinit_status.keys()
                    &&& old(self).scope_stack@[j].wf() == self.scope_stack@[j].wf()
                } by {
                    assert(prev[j].locals == self.scope_stack@[j].locals);
                }
            }
            i = i + 1;
        }
        assert(updates@.take(i as int) =~= updates@);
    }
}


proof fn lemma_flags_added_trans(
    a: &MirContext,
    b: &MirContext,
    c: &MirContext,
    f: FunctionId,
    count: nat,
    n: nat,
    m: nat,
)
    requires
        f.0 < a.functions@.len(),
        flags_added(a, b, f, count, n),
        flags_added(b, c, f, count + n, m),
    ensures
        flags_added(a, c, f, count, n + m),
{
    let la = a.locals@.len();
    let lb = b.locals@.len();
    assert(a.types@.is_prefix_of(c.types@)) by {
        assert forall|i: int| 0 <= i < a.types@.len() implies a.types@[i] == c.types@[i] by {
            assert(b.types@[i] == a.types@[i]);
        }
    }
    assert(a.locals@.is_prefix_of(c.locals@)) by {
        assert forall|i: int| 0 <= i < la implies a.locals@[i] == c.locals@[i] by {
            assert(b.locals@[i] == a.locals@[i]);
        }
    }
    assert forall|i: int| 0 <= i < n + m implies {
        &&& (#[trigger] c.locals@[la + i]).name@ == deinit_flag_name((count + i) as nat)
        &&& c.locals@[la + i].ty.0 < c.types@.len()
        &&& c.types@[c.locals@[la + i].ty.0 as int] == MirTy::Bool
    } by {
        if i < n {
            assert(b.locals@[la + i] == c.locals@[la + i]);
            let t = b.locals@[la + i].ty.0 as int;
            assert(b.types@[t] == c.types@[t]);
        } else {
            let k = i - n;
            assert(c.locals@[lb + k] == c.locals@[la + i]);
            assert((count + n + k) as nat == (count + i) as nat);
        }
    }
    assert(c.functions@[f.0 as int].locals@ =~= a.functions@[f.0 as int].locals@ + Seq::new(
        n + m,
        |i: int| LocalId((la + i) as usize),
    ));
}

proof fn lemma_merge_all_flags_mono(
    entries: Seq<(LocalId, DeinitStatus)>,
    then_m: Map<LocalId, DeinitStatus>,
    else_m: Map<LocalId, DeinitStatus>,
    first: nat,
    i: int,
    j: int,
)
    requires
        0 <= i <= j <= entries.len(),
    ensures
        merge_all(entries.take(i), then_m, else_m, first).flags <= merge_all(
            entries.take(j),
            then_m,
            else_m,
            first,
        ).flags,
    decreases j - i,
{
    if i < j {
        lemma_merge_all_flags_mono(entries, then_m, else_m, first, i, j - 1);
        lemma_take_last(entries, j);
    }
}

/// Entry `i` is a local that owns the deinit flag `f` in a branch merge, and its
/// status at the end of one side (the else branch when `else_side`, the then branch
/// otherwise) is `Moved` exactly when `moved`. Owning means: the local is
/// maybe-moved under `f` at the end of either branch, or the merge (whose status
/// updates are `updates`) makes it maybe-moved under `f`.
pub open spec fn flag_owner(
    entries: Seq<(LocalId, DeinitStatus)>,
    then_m: Map<LocalId, DeinitStatus>,
    else_m: Map<LocalId, DeinitStatus>,
    updates: Seq<(LocalId, DeinitStatus)>,
    f: LocalId,
    i: int,
    else_side: bool,
    moved: bool,
) -> bool {
    &&& 0 <= i < entries.len()
    &&& {
        let l = entries[i].0;
        let b = entries[i].1;
        let th = lookup_or(then_m, l, b);
        let el = lookup_or(else_m, l, b);
        &&& ((if else_side { el } else { th }) == DeinitStatus::Moved) == moved
        &&& (th == DeinitStatus::MaybeMoved { flag: f } || el == DeinitStatus::MaybeMoved { flag: f }
            || updates.contains((l, DeinitStatus::MaybeMoved { flag: f })))
    }
}

/// Every flag that a merge sets at the end of a branch belongs to a local whose
/// status there agrees with the value: true for a local that is not moved there,
/// false for one that is.
pub open spec fn flags_follow_statuses(
    entries: Seq<(LocalId, DeinitStatus)>,
    then_m: Map<LocalId, DeinitStatus>,
    else_m: Map<LocalId, DeinitStatus>,
    out: MergeOut,
) -> bool {
    &&& forall|f: LocalId| #[trigger] out.then_true.contains(f)
        ==> exists|i: int| flag_owner(entries, then_m, else_m, out.updates, f, i, false, false)
    &&& forall|f: LocalId| #[trigger] out.then_false.contains(f)
        ==> exists|i: int| flag_owner(entries, then_m, else_m, out.updates, f, i, false, true)
    &&& forall|f: LocalId| #[trigger] out.else_true.contains(f)
        ==> exists|i: int| flag_owner(entries, then_m, else_m, out.updates, f, i, true, false)
    &&& forall|f: LocalId| #[trigger] out.else_false.contains(f)
        ==> exists|i: int| flag_owner(entries, then_m, else_m, out.updates, f, i, true, true)
}

/// In a branch merge, the end of a branch sets a local's deinit flag true only when
/// the local is not moved at the end of that branch (it is valid or maybe-moved
/// there), and false only when it is moved there: a value that a branch consumed is
/// never marked to be deinitialized again, and one it kept is never forgotten.
pub proof fn law_branch_flags_follow_branch_statuses(
    entries: Seq<(LocalId, DeinitStatus)>,
    then_m: Map<LocalId, DeinitStatus>,
    else_m: Map<LocalId, DeinitStatus>,
    first: nat,
)
    ensures
        flags_follow_statuses(entries, then_m, else_m, merge_all(entries, then_m, else_m, first)),
    decreases entries.len(),
{
    if entries.len() > 0 {
        let pe = entries.drop_last();
        law_branch_flags_follow_branch_statuses(pe, then_m, else_m, first);
        let prev = merge_all(pe, then_m, else_m, first);
        let out = merge_all(entries, then_m, else_m, first);
        let k = entries.len() - 1;
        let l = entries[k].0;
        let b = entries[k].1;
        let th = lookup_or(then_m, l, b);
        let el = lookup_or(else_m, l, b);
        assert(out == merge_entry(prev, l, b, th, el, first));
        assert(out.updates == prev.updates || exists|u: (LocalId, DeinitStatus)| out.updates == prev.updates.push(u));
        assert forall|x: (LocalId, DeinitStatus)| prev.updates.contains(x) implies out.updates.contains(x) by {
            let j = choose|j: int| 0 <= j < prev.updates.len() && prev.updates[j] == x;
            if out.updates != prev.updates {
                let u = choose|u: (LocalId, DeinitStatus)| out.updates == prev.updates.push(u);
                assert(out.updates[j] == x);
            }
        }
        assert forall|f: LocalId, i: int, es: bool, mv: bool|
            flag_owner(pe, then_m, else_m, prev.updates, f, i, es, mv) implies flag_owner(
            entries,
            then_m,
            else_m,
            out.updates,
            f,
            i,
            es,
            mv,
        ) by {
            assert(entries[i] == pe[i]);
            if prev.updates.contains((pe[i].0, DeinitStatus::MaybeMoved { flag: f })) {
                assert(out.updates.contains((pe[i].0, DeinitStatus::MaybeMoved { flag: f })));
            }
        }
        assert forall|f: LocalId| #[trigger] out.then_true.contains(f) implies exists|i: int|
            flag_owner(entries, then_m, else_m, out.updates, f, i, false, false) by {
            if prev.then_true.contains(f) {
                let i = choose|i: int| flag_owner(pe, then_m, else_m, prev.updates, f, i, false, false);
                assert(flag_owner(entries, then_m, else_m, out.updates, f, i, false, false));
            } else {
                assert(out.then_true == prev.then_true.push(f));
                lemma_fresh_flag_owned(prev, l, b, th, el, first, f);
                assert(flag_owner(entries, then_m, else_m, out.updates, f, k, false, false));
            }
        }
        assert forall|f: LocalId| #[trigger] out.then_false.contains(f) implies exists|i: int|
            flag_owner(entries, then_m, else_m, out.updates, f, i, false, true) by {
            if prev.then_false.contains(f) {
                let i = choose|i: int| flag_owner(pe, then_m, else_m, prev.updates, f, i, false, true);
                assert(flag_owner(entries, then_m, else_m, out.updates, f, i, false, true));
            } else {
                assert(out.then_false == prev.then_false.push(f));
                lemma_fresh_flag_owned(prev, l, b, th, el, first, f);
                assert(flag_owner(entries, then_m, else_m, out.updates, f, k, false, true));
            }
        }
        assert forall|f: LocalId| #[trigger] out.else_true.contains(f) implies exists|i: int|
            flag_owner(entries, then_m, else_m, out.updates, f, i, true, false) by {
            if prev.else_true.contains(f) {
                let i = choose|i: int| flag_owner(pe, then_m, else_m, prev.updates, f, i, true, false);
                assert(flag_owner(entries, then_m, else_m, out.updates, f, i, true, false));
            } else {
                assert(out.else_true == prev.else_true.push(f));
                lemma_fresh_flag_owned(prev, l, b, th, el, first, f);
                assert(flag_owner(entries, then_m, else_m, out.updates, f, k, true, false));
            }
        }
        assert forall|f: LocalId| #[trigger] out.else_false.contains(f) implies exists|i: int|
            flag_owner(entries, then_m, else_m, out.updates, f, i, true, true) by {
            if prev.else_false.contains(f) {
                let i = choose|i: int| flag_owner(pe, then_m, else_m, prev.updates, f, i, true, true);
                assert(flag_owner(entries, then_m, else_m, out.updates, f, i, true, true));
            } else {
                assert(out.else_false == prev.else_false.push(f));
                lemma_fresh_flag_owned(prev, l, b, th, el, first, f);
                assert(flag_owner(entries, then_m, else_m, out.updates, f, k, true, true));
            }
        }
    }
}

/// A flag that one merge step adds to a list belongs to the step's local, whose
/// status at the end of each side agrees with the list.
proof fn lemma_fresh_flag_owned(
    acc: MergeOut,
    l: LocalId,
    b: DeinitStatus,
    th: DeinitStatus,
    el: DeinitStatus,
    first: nat,
    f: LocalId,
)
    ensures
        ({
            let out = merge_entry(acc, l, b, th, el, first);
            let owns = th == DeinitStatus::MaybeMoved { flag: f } || el == DeinitStatus::MaybeMoved { flag: f }
                || out.updates.contains((l, DeinitStatus::MaybeMoved { flag: f }));
            &&& out.then_true == acc.then_true.push(f) ==> th != DeinitStatus::Moved && owns
            &&& out.then_false == acc.then_false.push(f) ==> th == DeinitStatus::Moved && owns
            &&& out.else_true == acc.else_true.push(f) ==> el != DeinitStatus::Moved && owns
            &&& out.else_false == acc.else_false.push(f) ==> el == DeinitStatus::Moved && owns
        }),
{
    let out = merge_entry(acc, l, b, th, el, first);
    let fresh = LocalId((first + acc.flags) as usize);
    if out.updates == acc.updates.push((l, DeinitStatus::MaybeMoved { flag: fresh })) {
        assert(out.updates.last() == (l, DeinitStatus::MaybeMoved { flag: fresh }));
        assert(out.updates.contains((l, DeinitStatus::MaybeMoved { flag: fresh })));
    }
    assert forall|s: Seq<LocalId>, g: LocalId| s.push(f) == s.push(g) implies f == g by {
        assert(s.push(f).last() == s.push(g).last());
    }
    assert forall|s: Seq<LocalId>| s.push(f) != s by {
        assert(s.push(f).len() != s.len());
    }
}

impl LoweringContext {
    /// Merges the deinit statuses of the locals tracked before a branch with their
    /// statuses at the end of each branch (a local missing from a branch keeps its
    /// "before" status there). A local valid in one branch and moved in the other
    /// gets a fresh uninitialized flag and becomes maybe-moved; one moved in both
    /// becomes moved; existing flags are set per branch. The flags to set at the end
    /// of each branch come back in the result.
    pub fn compute_branch_merge(
        &mut self,
        before: &Table<LocalId, DeinitStatus>,
        then_statuses: &Table<LocalId, DeinitStatus>,
        else_statuses: &Table<LocalId, DeinitStatus>,
    ) -> (r: BranchMergeResult)
        requires
            old(self).inv(),
            then_statuses.wf(),
            else_statuses.wf(),
            merge_all(before.entries@, then_statuses.map(), else_statuses.map(), old(self).mir.locals@.len()).flags > 0
                ==> old(self).cur_function() is Some,
            old(self).flag_count() + merge_all(
                before.entries@,
                then_statuses.map(),
                else_statuses.map(),
                old(self).mir.locals@.len(),
            ).flags <= u32::MAX,
        ensures
            final(self).inv(),
            ({
                let out = merge_all(before.entries@, then_statuses.map(), else_statuses.map(), old(self).mir.locals@.len());
                &&& r.updates@ == out.updates
                &&& r.then_flag_false@ == out.then_false
                &&& r.then_flag_true@ == out.then_true
                &&& r.else_flag_false@ == out.else_false
                &&& r.else_flag_true@ == out.else_true
                &&& final(self).flag_count() == old(self).flag_count() + out.flags
                &&& out.flags == 0 ==> final(self).mir == old(self).mir
                &&& out.flags > 0 ==> flags_added(
                    &old(self).mir,
                    &final(self).mir,
                    old(self).cur_function().unwrap(),
                    old(self).flag_count() as nat,
                    out.flags,
                )
            }),
            final(self).mir.blocks == old(self).mir.blocks,
            final(self).cur_function() == old(self).cur_function(),
            final(self).type_param_view() == old(self).type_param_view(),
            final(self).cur_block() == old(self).cur_block(),
            final(self).local_map_view() == old(self).local_map_view(),
            final(self).loops() == old(self).loops(),
            final(self).scopes() == old(self).scopes(),
            final(self).temps() == old(self).temps(),
            final(self).diags() == old(self).diags(),
            final(self).temp_count() == old(self).temp_count(),
            final(self).closure_count() == old(self).closure_count(),
    {
        let ghost first = old(self).mir.locals@.len();
        let ghost tm = then_statuses.map();
        let ghost em = else_statuses.map();
        let ghost es = before.entries@;
        let mut updates: Vec<(LocalId, DeinitStatus)> = Vec::new();
        let mut then_flag_false: Vec<LocalId> = Vec::new();
        let mut then_flag_true: Vec<LocalId> = Vec::new();
        let mut else_flag_false: Vec<LocalId> = Vec::new();
        let mut else_flag_true: Vec<LocalId> = Vec::new();
        let n = before.entries.len();
        let mut i: usize = 0;
        assert(es.take(0) =~= Seq::<(LocalId, DeinitStatus)>::empty());
        while i < n
            invariant
                self.inv(),
                n == es.len(),
                es == before.entries@,
                tm == then_statuses.map(),
                em == else_statuses.map(),
                then_statuses.wf(),
                else_statuses.wf(),
                first == old(self).mir.locals@.len(),
                i <= n,
                merge_all(es, tm, em, first).flags > 0 ==> old(self).cur_function() is Some,
                old(self).flag_count() + merge_all(es, tm, em, first).flags <= u32::MAX,
                ({
                    let out = merge_all(es.take(i as int), tm, em, first);
                    &&& updates@ == out.updates
                    &&& then_flag_false@ == out.then_false
                    &&& then_flag_true@ == out.then_true
                    &&& else_flag_false@ == out.else_false
                    &&& else_flag_true@ == out.else_true
                    &&& self.flag_count() == old(self).flag_count() + out.flags
                    &&& out.flags == 0 ==> self.mir == old(self).mir
                    &&& out.flags > 0 ==> flags_added(
                        &old(self).mir,
                        &self.mir,
                        old(self).cur_function().unwrap(),
                        old(self).flag_count() as nat,
                        out.flags,
                    )
                }),
                self.mir.blocks == old(self).mir.blocks,
                self.cur_function() == old(self).cur_function(),
                self.type_param_view() == old(self).type_param_view(),
                self.cur_block() == old(self).cur_block(),
                self.local_map_view() == old(self).local_map_view(),
                self.loops() == old(self).loops(),
                self.scopes() == old(self).scopes(),
                self.temps() == old(self).temps(),
                self.diags() == old(self).diags(),
                self.temp_count() == old(self).temp_count(),
                self.closure_count() == old(self).closure_count(),
            decreases n - i,
        {
            let (local, bst) = before.entries[i];
            let th = match then_statuses.get(local) {
                Some(st) => *st,
                None => bst,
            };
            let el = match else_statuses.get(local) {
                Some(st) => *st,
                None => bst,
            };
            let ghost acc = merge_all(es.take(i as int), tm, em, first);
            let ghost m0 = self.mir;
            proof {
                lemma_take_last(es, i + 1);
                lemma_merge_all_flags_mono(es, tm, em, first, i + 1, n as int);
                assert(es.take(n as int) =~= es);
                assert(th == lookup_or(tm, local, bst));
                assert(el == lookup_or(em, local, bst));
                assert(es.take(i + 1).last() == (local, bst));
                assert(merge_all(es.take(i + 1), tm, em, first) == merge_entry(acc, local, bst, th, el, first));
                if acc.flags > 0 {
                    assert(m0.locals@.len() == first + acc.flags);
                } else {
                    assert(m0.locals@.len() == first);
                }
            }
            let ghost nf: nat = acc.flags;
            match (th, el) {
                (DeinitStatus::Valid, DeinitStatus::Valid) => {},
                (DeinitStatus::Moved, DeinitStatus::Moved) => {
                    if bst != DeinitStatus::Moved {
                        updates.push((local, DeinitStatus::Moved));
                    }
                },
                (DeinitStatus::Valid, DeinitStatus::Moved) => {
                    assert(merge_all(es.take(i + 1), tm, em, first).flags == nf + 1);
                    assert(old(self).cur_function() is Some);
                    let flag = self.create_deinit_flag_uninit();
                    updates.push((local, DeinitStatus::MaybeMoved { flag }));
                    then_flag_true.push(flag);
                    else_flag_false.push(flag);
                    proof {
                        let f = old(self).cur_function().unwrap();
                        if nf == 0 {
                            assert(flags_added(&old(self).mir, &self.mir, f, old(self).flag_count() as nat, 1));
                        } else {
                            lemma_flags_added_trans(&old(self).mir, &m0, &self.mir, f, old(self).flag_count() as nat, nf, 1);
                        }
                    }
                },
                (DeinitStatus::Moved, DeinitStatus::Valid) => {
                    assert(merge_all(es.take(i + 1), tm, em, first).flags == nf + 1);
                    assert(old(self).cur_function() is Some);
                    let flag = self.create_deinit_flag_uninit();
                    updates.push((local, DeinitStatus::MaybeMoved { flag }));
                    then_flag_false.push(flag);
                    else_flag_true.push(flag);
                    proof {
                        let f = old(self).cur_function().unwrap();
                        if nf == 0 {
                            assert(flags_added(&old(self).mir, &self.mir, f, old(self).flag_count() as nat, 1));
                        } else {
                            lemma_flags_added_trans(&old(self).mir, &m0, &self.mir, f, old(self).flag_count() as nat, nf, 1);
                        }
                    }
                },
                (DeinitStatus::MaybeMoved { flag }, DeinitStatus::Valid) => {
                    then_flag_true.push(flag);
                    else_flag_true.push(flag);
                },
                (DeinitStatus::Valid, DeinitStatus::MaybeMoved { flag }) => {
                    then_flag_true.push(flag);
                    else_flag_true.push(flag);
                },
                (DeinitStatus::MaybeMoved { flag }, DeinitStatus::Moved) => {
                    else_flag_false.push(flag);
                },
                (DeinitStatus::Moved, DeinitStatus::MaybeMoved { flag }) => {
                    then_flag_false.push(flag);
                },
                (DeinitStatus::MaybeMoved { .. }, DeinitStatus::MaybeMoved { .. }) => {},
            }
            i = i + 1;
        }
        assert(es.take(n as int) =~= es);
        BranchMergeResult { updates, then_flag_false, then_flag_true, else_flag_false, else_flag_true }
    }
}


proof fn lemma_branch_updates_mono(
    entries: Seq<(LocalId, DeinitStatus)>,
    then_m: Map<LocalId, DeinitStatus>,
    else_m: Map<LocalId, DeinitStatus>,
    first: nat,
    i: int,
    j: int,
)
    requires
        0 <= i <= j <= entries.len(),
    ensures
        branch_updates(entries.take(i), then_m, else_m, first).1 <= branch_updates(
            entries.take(j),
            then_m,
            else_m,
            first,
        ).1,
    decreases j - i,
{
    if i < j {
        lemma_branch_updates_mono(entries, then_m, else_m, first, i, j - 1);
        lemma_take_last(entries, j);
    }
}

impl LoweringContext {
    /// Merges two branch statuses; valid in one branch and moved in the other needs
    /// a fresh flag, created initialized to true in the current block.
    fn merge_statuses(&mut self, a: DeinitStatus, b: DeinitStatus) -> (r: DeinitStatus)
        requires
            old(self).inv(),
            merge_pair(a, b) is None ==> {
                &&& old(self).cur_function() is Some
                &&& old(self).cur_block() is Some
                &&& old(self).flag_count() < u32::MAX
            },
        ensures
            final(self).inv(),
            merge_pair(a, b) matches Some(st) ==> r == st && *final(self) == *old(self),
            merge_pair(a, b) is None ==> {
                &&& r == DeinitStatus::MaybeMoved { flag: LocalId(old(self).mir.locals@.len() as usize) }
                &&& flags_added(&old(self).mir, &final(self).mir, old(self).cur_function().unwrap(), old(self).flag_count() as nat, 1)
                &&& final(self).mir.blocks@.len() == old(self).mir.blocks@.len()
                &&& forall|j: int| 0 <= j < old(self).mir.blocks@.len() && j != old(self).cur_block().unwrap().0
                    ==> final(self).mir.blocks@[j] == old(self).mir.blocks@[j]
                &&& final(self).mir.stmts_of(old(self).cur_block().unwrap()) == old(self).mir.stmts_of(
                    old(self).cur_block().unwrap(),
                ).push(StmtV::SetDeinitFlag { flag: LocalId(old(self).mir.locals@.len() as usize), value: true })
                &&& final(self).mir.blocks@[old(self).cur_block().unwrap().0 as int].terminator
                    == old(self).mir.blocks@[old(self).cur_block().unwrap().0 as int].terminator
                &&& final(self).flag_count() == old(self).flag_count() + 1
                &&& final(self).cur_function() == old(self).cur_function()
                &&& final(self).type_param_view() == old(self).type_param_view()
                &&& final(self).cur_block() == old(self).cur_block()
                &&& final(self).local_map_view() == old(self).local_map_view()
                &&& final(self).loops() == old(self).loops()
                &&& final(self).scopes() == old(self).scopes()
                &&& final(self).temps() == old(self).temps()
                &&& final(self).diags() == old(self).diags()
                &&& final(self).temp_count() == old(self).temp_count()
                &&& final(self).closure_count() == old(self).closure_count()
            },
    {
        match (a, b) {
            (DeinitStatus::Valid, DeinitStatus::Valid) => DeinitStatus::Valid,
            (DeinitStatus::Moved, DeinitStatus::Moved) => DeinitStatus::Moved,
            (DeinitStatus::MaybeMoved { flag }, _) => DeinitStatus::MaybeMoved { flag },
            (_, DeinitStatus::MaybeMoved { flag }) => DeinitStatus::MaybeMoved { flag },
            _ => {
                let flag = self.create_deinit_flag();
                DeinitStatus::MaybeMoved { flag }
            },
        }
    }

    /// All tracked entries of the scope stack, outermost scope first.
    fn collect_scope_entries(&self) -> (r: Vec<(LocalId, DeinitStatus)>)
        ensures
            r@ == all_entries(self.scopes()),
    {
        let ghost sc = self.scope_stack@;
        let mut r: Vec<(LocalId, DeinitStatus)> = Vec::new();
        let mut i: usize = 0;
        assert(sc.take(0) =~= Seq::<ScopeInfo>::empty());
        while i < self.scope_stack.len()
            invariant
                sc == self.scope_stack@,
                i <= sc.len(),
                r@ == all_entries(sc.take(i as int)),
            decreases self.scope_stack.len() - i,
        {
            let scope = &self.scope_stack[i];
            let ghost base = r@;
            let mut j: usize = 0;
            while j < scope.deinit_status.entries.len()
                invariant
                    j <= scope.deinit_status.entries@.len(),
                    r@ == base + scope.deinit_status.entries@.take(j as int),
                decreases scope.deinit_status.entries.len() - j,
            {
                r.push(scope.deinit_status.entries[j]);
                j = j + 1;
                assert(r@ =~= base + scope.deinit_status.entries@.take(j as int));
            }
            proof {
                lemma_take_last(sc, i + 1);
                assert(scope.deinit_status.entries@.take(j as int) =~= scope.deinit_status.entries@);
            }
            i = i + 1;
        }
        assert(sc.take(i as int) =~= sc);
        r
    }

    /// Merges the statuses of the locals tracked in the scope stack with their
    /// statuses in two branch scopes (a local missing from a branch scope keeps its
    /// parent status there): equal statuses stay, an existing maybe-moved flag is
    /// kept, and valid in one branch but moved in the other creates a flag,
    /// initialized to true in the current block. Returns the changed statuses, in
    /// scope order (outermost first).
    pub fn merge_branch_scopes(&mut self, then_scope: &ScopeInfo, else_scope: &ScopeInfo) -> (r: Vec<
        (LocalId, DeinitStatus),
    >)
        requires
            old(self).inv(),
            then_scope.wf(),
            else_scope.wf(),
            ({
                let n = branch_updates(
                    all_entries(old(self).scopes()),
                    then_scope.deinit_status.map(),
                    else_scope.deinit_status.map(),
                    old(self).mir.locals@.len(),
                ).1;
                &&& n > 0 ==> old(self).cur_function() is Some && old(self).cur_block() is Some
                &&& old(self).flag_count() + n <= u32::MAX
            }),
        ensures
            final(self).inv(),
            ({
                let first = old(self).mir.locals@.len();
                let bu = branch_updates(
                    all_entries(old(self).scopes()),
                    then_scope.deinit_status.map(),
                    else_scope.deinit_status.map(),
                    first,
                );
                let cb = old(self).cur_block().unwrap();
                &&& r@ == bu.0
                &&& final(self).flag_count() == old(self).flag_count() + bu.1
                &&& bu.1 == 0 ==> final(self).mir == old(self).mir
                &&& bu.1 > 0 ==> {
                    &&& flags_added(&old(self).mir, &final(self).mir, old(self).cur_function().unwrap(), old(self).flag_count() as nat, bu.1)
                    &&& final(self).mir.blocks@.len() == old(self).mir.blocks@.len()
                    &&& forall|j: int| 0 <= j < old(self).mir.blocks@.len() && j != cb.0
                        ==> final(self).mir.blocks@[j] == old(self).mir.blocks@[j]
                    &&& final(self).mir.stmts_of(cb) == old(self).mir.stmts_of(cb) + flag_inits(first, bu.1)
                    &&& final(self).mir.blocks@[cb.0 as int].terminator == old(self).mir.blocks@[cb.0 as int].terminator
                }
            }),
            final(self).cur_function() == old(self).cur_function(),
            final(self).type_param_view() == old(self).type_param_view(),
            final(self).cur_block() == old(self).cur_block(),
            final(self).local_map_view() == old(self).local_map_view(),
            final(self).loops() == old(self).loops(),
            final(self).scopes() == old(self).scopes(),
            final(self).temps() == old(self).temps(),
            final(self).diags() == old(self).diags(),
            final(self).temp_count() == old(self).temp_count(),
            final(self).closure_count() == old(self).closure_count(),
    {
        let to_check = self.collect_scope_entries();
        let ghost es = to_check@;
        let ghost tm = then_scope.deinit_status.map();
        let ghost em = else_scope.deinit_status.map();
        let ghost first = old(self).mir.locals@.len();
        let ghost cb = old(self).cur_block().unwrap();
        let mut updates: Vec<(LocalId, DeinitStatus)> = Vec::new();
        let ghost mut nf: nat = 0;
        let n = to_check.len();
        let mut k: usize = 0;
        assert(es.take(0) =~= Seq::<(LocalId, DeinitStatus)>::empty());
        assert(flag_inits(first, 0) =~= Seq::<StmtV>::empty());
        assert(old(self).mir.stmts_of(cb) + flag_inits(first, 0) =~= old(self).mir.stmts_of(cb));
        while k < n
            invariant
                self.inv(),
                es == to_check@,
                es == all_entries(old(self).scopes()),
                n == es.len(),
                k <= n,
                tm == then_scope.deinit_status.map(),
                em == else_scope.deinit_status.map(),
                then_scope.wf(),
                else_scope.wf(),
                first == old(self).mir.locals@.len(),
                cb == old(self).cur_block().unwrap(),
                branch_updates(es, tm, em, first).1 > 0 ==> old(self).cur_function() is Some && old(self).cur_block() is Some,
                old(self).flag_count() + branch_updates(es, tm, em, first).1 <= u32::MAX,
                (updates@, nf) == branch_updates(es.take(k as int), tm, em, first),
                self.flag_count() == old(self).flag_count() + nf,
                nf == 0 ==> self.mir == old(self).mir,
                nf > 0 ==> {
                    &&& flags_added(&old(self).mir, &self.mir, old(self).cur_function().unwrap(), old(self).flag_count() as nat, nf)
                    &&& self.mir.blocks@.len() == old(self).mir.blocks@.len()
                    &&& forall|j: int| 0 <= j < old(self).mir.blocks@.len() && j != cb.0
                        ==> self.mir.blocks@[j] == old(self).mir.blocks@[j]
                    &&& self.mir.stmts_of(cb) == old(self).mir.stmts_of(cb) + flag_inits(first, nf)
                    &&& self.mir.blocks@[cb.0 as int].terminator == old(self).mir.blocks@[cb.0 as int].terminator
                },
                self.cur_function() == old(self).cur_function(),
                self.type_param_view() == old(self).type_param_view(),
                self.cur_block() == old(self).cur_block(),
                self.local_map_view() == old(self).local_map_view(),
                self.loops() == old(self).loops(),
                self.scopes() == old(self).scopes(),
                self.temps() == old(self).temps(),
                self.diags() == old(self).diags(),
                self.temp_count() == old(self).temp_count(),
                self.closure_count() == old(self).closure_count(),
            decreases n - k,
        {
            let (local, parent) = to_check[k];
            let a = match then_scope.deinit_status.get(local) {
                Some(st) => *st,
                None => parent,
            };
            let b = match else_scope.deinit_status.get(local) {
                Some(st) => *st,
                None => parent,
            };
            let ghost m0 = self.mir;
            proof {
                lemma_take_last(es, k + 1);
                lemma_branch_updates_mono(es, tm, em, first, k + 1, n as int);
                assert(es.take(n as int) =~= es);
                assert(a == lookup_or(tm, local, parent));
                assert(b == lookup_or(em, local, parent));
                assert(es.take(k + 1).last() == (local, parent));
                if nf > 0 {
                    assert(m0.locals@.len() == first + nf);
                }
            }
            let merged = self.merge_statuses(a, b);
            proof {
                if merge_pair(a, b) is None {
                    let f = old(self).cur_function().unwrap();
                    assert(flag_inits(first, nf + 1) =~= flag_inits(first, nf).push(
                        StmtV::SetDeinitFlag { flag: LocalId((first + nf) as usize), value: true },
                    ));
                    if nf == 0 {
                        assert(self.mir.stmts_of(cb) =~= old(self).mir.stmts_of(cb) + flag_inits(first, 1));
                    } else {
                        lemma_flags_added_trans(&old(self).mir, &m0, &self.mir, f, old(self).flag_count() as nat, nf, 1);
                        assert(self.mir.stmts_of(cb) =~= old(self).mir.stmts_of(cb) + flag_inits(first, nf + 1));
                    }
                    nf = nf + 1;
                }
            }
            if merged != parent {
                updates.push((local, merged));
            }
            k = k + 1;
        }
        assert(es.take(n as int) =~= es);
        updates
    }
}


/// Arguments passed by shared reference, one per value.
pub open spec fn borrowed_args(vs: Seq<crate::mir::ValueV>) -> Seq<crate::mir::CallArgV> {
    Seq::new(vs.len(), |i: int| crate::mir::CallArgV { value: vs[i], mode: crate::mir::PassingMode::Ref })
}

/// Each value as an argument passed by shared reference, in order.
fn borrow_all(args: Vec<Value>) -> (r: Vec<CallArg>)
    ensures
        crate::mir::args_view(r@) == borrowed_args(crate::mir::values_view(args@)),
{
    let ghost vs = crate::mir::values_view(args@);
    let mut rest = args;
    let mut out: Vec<CallArg> = Vec::new();
    let ghost n = vs.len();
    while rest.len() > 0
        invariant
            vs.len() == n,
            out@.len() + rest@.len() == n,
            crate::mir::values_view(rest@) == vs.skip(out@.len() as int),
            crate::mir::args_view(out@) == borrowed_args(vs.take(out@.len() as int)),
        decreases rest.len(),
    {
        let ghost k = out@.len();
        let ghost r0 = rest@;
        let v = rest.remove(0);
        proof {
            assert(crate::mir::values_view(r0)[0] == v@);
            assert(crate::mir::values_view(rest@) =~= crate::mir::values_view(r0).drop_first());
        }
        let ghost o0 = out@;
        let ghost vv = v@;
        out.push(CallArg::borrow(v));
        proof {
            assert(vs.skip(k as int)[0] == vs[k as int]);
            assert(vv == vs[k as int]);
            assert(vs.skip(k as int).drop_first() =~= vs.skip((k + 1) as int));
            assert forall|i: int| 0 <= i < k + 1 implies #[trigger] crate::mir::args_view(out@)[i] == borrowed_args(
                vs.take((k + 1) as int),
            )[i] by {
                if i < k {
                    assert(out@[i] == o0[i]);
                    assert(crate::mir::args_view(o0)[i] == borrowed_args(vs.take(k as int))[i]);
                }
            }
            assert(crate::mir::args_view(out@) =~= borrowed_args(vs.take((k + 1) as int)));
        }
    }
    assert(vs.take(n as int) =~= vs);
    out
}

impl LoweringContext {
    /// Emits a call assigning its result to `dest`; every argument is passed by
    /// shared reference.
    pub fn emit_call(&mut self, dest: Place, callee: Callee, args: Vec<Value>)
        requires
            old(self).inv(),
            old(self).cur_block() is Some,
        ensures
            final(self).inv(),
            final(self).same_state(old(self)),
            final(self).mir.only_block_changed(&old(self).mir, old(self).cur_block().unwrap()),
            final(self).mir.stmts_of(old(self).cur_block().unwrap()) == old(self).mir.stmts_of(
                old(self).cur_block().unwrap(),
            ).push(StmtV::Assign {
                dest: dest@,
                rvalue: crate::mir::RvalueV::Call { callee: callee@, args: borrowed_args(crate::mir::values_view(args@)) },
            }),
            final(self).mir.blocks@[old(self).cur_block().unwrap().0 as int].terminator
                == old(self).mir.blocks@[old(self).cur_block().unwrap().0 as int].terminator,
    {
        let call_args = borrow_all(args);
        self.emit_assign(dest, Rvalue::Call { callee, args: call_args });
    }

    /// Emits a call assigning its result to `dest`, with explicit passing modes.
    pub fn emit_call_with_modes(&mut self, dest: Place, callee: Callee, args: Vec<CallArg>)
        requires
            old(self).inv(),
            old(self).cur_block() is Some,
        ensures
            final(self).inv(),
            final(self).same_state(old(self)),
            final(self).mir.only_block_changed(&old(self).mir, old(self).cur_block().unwrap()),
            final(self).mir.stmts_of(old(self).cur_block().unwrap()) == old(self).mir.stmts_of(
                old(self).cur_block().unwrap(),
            ).push(StmtV::Assign {
                dest: dest@,
                rvalue: crate::mir::RvalueV::Call { callee: callee@, args: crate::mir::args_view(args@) },
            }),
            final(self).mir.blocks@[old(self).cur_block().unwrap().0 as int].terminator
                == old(self).mir.blocks@[old(self).cur_block().unwrap().0 as int].terminator,
    {
        self.emit_assign(dest, Rvalue::Call { callee, args });
    }

    /// Emits a direct call of the named function (generic when type arguments are
    /// given) assigning its result to `dest`; arguments are passed by shared reference.
    pub fn emit_direct_call(&mut self, dest: Place, func_name: NameId, type_args: Vec<TyId>, args: Vec<Value>)
        requires
            old(self).inv(),
            old(self).cur_block() is Some,
        ensures
            final(self).inv(),
            final(self).same_state(old(self)),
            final(self).mir.only_block_changed(&old(self).mir, old(self).cur_block().unwrap()),
            final(self).mir.stmts_of(old(self).cur_block().unwrap()) == old(self).mir.stmts_of(
                old(self).cur_block().unwrap(),
            ).push(StmtV::Assign {
                dest: dest@,
                rvalue: crate::mir::RvalueV::Call {
                    callee: crate::mir::CalleeV::Direct { name: func_name, type_args: type_args@ },
                    args: borrowed_args(crate::mir::values_view(args@)),
                },
            }),
            final(self).mir.blocks@[old(self).cur_block().unwrap().0 as int].terminator
                == old(self).mir.blocks@[old(self).cur_block().unwrap().0 as int].terminator,
    {
        let callee = if type_args.len() == 0 {
            let c = Callee::direct(func_name);
            assert(type_args@ =~= Seq::<TyId>::empty());
            c
        } else {
            Callee::direct_generic(func_name, type_args)
        };
        self.emit_call(dest, callee, args);
    }

    /// Emits a call of a unit-returning function (no result); arguments are passed
    /// by shared reference.
    pub fn emit_call_unit(&mut self, callee: Callee, args: Vec<Value>)
        requires
            old(self).inv(),
            old(self).cur_block() is Some,
        ensures
            final(self).inv(),
            final(self).same_state(old(self)),
            final(self).mir.only_block_changed(&old(self).mir, old(self).cur_block().unwrap()),
            final(self).mir.stmts_of(old(self).cur_block().unwrap()) == old(self).mir.stmts_of(
                old(self).cur_block().unwrap(),
            ).push(StmtV::Call { callee: callee@, args: borrowed_args(crate::mir::values_view(args@)) }),
            final(self).mir.blocks@[old(self).cur_block().unwrap().0 as int].terminator
                == old(self).mir.blocks@[old(self).cur_block().unwrap().0 as int].terminator,
    {
        let call_args = borrow_all(args);
        self.emit_statement(StatementKind::Call { callee, args: call_args });
    }

    /// Emits a call of a unit-returning function with explicit passing modes.
    pub fn emit_call_unit_with_modes(&mut self, callee: Callee, args: Vec<CallArg>)
        requires
            old(self).inv(),
            old(self).cur_block() is Some,
        ensures
            final(self).inv(),
            final(self).same_state(old(self)),
            final(self).mir.only_block_changed(&old(self).mir, old(self).cur_block().unwrap()),
            final(self).mir.stmts_of(old(self).cur_block().unwrap()) == old(self).mir.stmts_of(
                old(self).cur_block().unwrap(),
            ).push(StmtV::Call { callee: callee@, args: crate::mir::args_view(args@) }),
            final(self).mir.blocks@[old(self).cur_block().unwrap().0 as int].terminator
                == old(self).mir.blocks@[old(self).cur_block().unwrap().0 as int].terminator,
    {
        self.emit_statement(StatementKind::Call { callee, args });
    }
}

} // verus!
