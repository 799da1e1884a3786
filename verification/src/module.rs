//! Module-level parts of lowering: the static fields that the static initializer
//! sets, whether errors occurred, and the call of the static initializer at the
//! start of `main`.

use vstd::prelude::*;

use crate::context::{LoweringContext, LoweringResult};
use crate::item::ItemNode;
use crate::sem::{SymbolId, SymbolKind};
use crate::error::{Diagnostic, Severity};
use crate::context::assign_value_stmts;
use crate::mir::{
    interned, names_view, BlockId, CalleeV, Callee, FunctionId, MirContext, MirTy, NameId, Place, PlaceV, StatementKind,
    StaticDef, StmtV, TermV, TyId, Value, ImmediateV, ValueV,
};
use crate::text::str_equal;

verus! {

/// The diagnostic is an error or an internal bug.
pub open spec fn is_error(d: Diagnostic) -> bool {
    d.severity == Severity::Error || d.severity == Severity::Bug
}

impl LoweringResult {
    /// Whether any error (or internal bug) was reported during lowering.
    pub fn has_errors(&self) -> (r: bool)
        ensures
            r == exists|i: int| 0 <= i < self.diagnostics@.len() && is_error(#[trigger] self.diagnostics@[i]),
    {
        let mut i: usize = 0;
        while i < self.diagnostics.len()
            invariant
                i <= self.diagnostics@.len(),
                forall|k: int| 0 <= k < i ==> !is_error(#[trigger] self.diagnostics@[k]),
            decreases self.diagnostics.len() - i,
        {
            let s = self.diagnostics[i].severity;
            if s == Severity::Error || s == Severity::Bug {
                assert(is_error(self.diagnostics@[i as int]));
                return true;
            }
            i = i + 1;
        }
        false
    }
}

/// The name's last segment is `main`.
pub open spec fn is_main_name(segs: Seq<Seq<char>>) -> bool {
    segs.len() > 0 && segs.last() == "main"@
}

/// Function `i` is the first whose name ends in `main`.
pub open spec fn first_main_at(m: &MirContext, i: int) -> bool {
    &&& 0 <= i < m.functions@.len()
    &&& is_main_name(m.name_view(m.functions@[i].name))
    &&& forall|k: int| 0 <= k < i ==> !is_main_name(#[trigger] m.name_view(m.functions@[k].name))
}

/// Every function's name is interned and its entry block, if any, exists.
pub open spec fn functions_wf(m: &MirContext) -> bool {
    forall|i: int| 0 <= i < m.functions@.len() ==> {
        &&& (#[trigger] m.functions@[i]).name.0 < m.names@.len()
        &&& m.functions@[i].entry_block matches Some(b) ==> b.0 < m.blocks@.len()
    }
}

/// Whether the interned name's last segment is `main`.
fn name_is_main(m: &MirContext, id: NameId) -> (r: bool)
    requires
        id.0 < m.names@.len(),
    ensures
        r == is_main_name(m.name_view(id)),
{
    let segs = m.name(id);
    if segs.len() == 0 {
        return false;
    }
    let last = &segs[segs.len() - 1];
    proof {
        reveal_strlit("main");
        assert(m.name_view(id).last() == last@);
    }
    str_equal(last.as_str(), "main")
}

/// The first function whose name ends in `main`.
fn find_main(m: &MirContext) -> (r: Option<usize>)
    requires
        functions_wf(m),
    ensures
        r matches Some(i) ==> first_main_at(m, i as int),
        r is None ==> forall|k: int| 0 <= k < m.functions@.len() ==> !is_main_name(#[trigger] m.name_view(m.functions@[k].name)),
{
    let mut i: usize = 0;
    while i < m.functions.len()
        invariant
            functions_wf(m),
            i <= m.functions@.len(),
            forall|k: int| 0 <= k < i ==> !is_main_name(#[trigger] m.name_view(m.functions@[k].name)),
        decreases m.functions.len() - i,
    {
        assert(m.functions@[i as int].name.0 < m.names@.len());
        if name_is_main(m, m.functions[i].name) {
            return Some(i);
        }
        i = i + 1;
    }
    None
}

/// Inserts a call of the static initializer `init_func_name` (no arguments) as the
/// first statement of the entry block of the first function whose name ends in
/// `main`; nothing changes when there is no such function or it has no entry block.
pub fn inject_init_call_into_main(ctx: &mut LoweringContext, init_func_name: NameId)
    requires
        functions_wf(&old(ctx).mir),
    ensures
        final(ctx).same_state(old(ctx)),
        (exists|i: int| first_main_at(&old(ctx).mir, i)) ==> {
            let i = choose|i: int| first_main_at(&old(ctx).mir, i);
            match old(ctx).mir.functions@[i].entry_block {
                Some(b) => {
                    &&& final(ctx).mir.only_block_changed(&old(ctx).mir, b)
                    &&& final(ctx).mir.stmts_of(b) == old(ctx).mir.stmts_of(b).insert(
                        0,
                        StmtV::Call {
                            callee: CalleeV::Direct { name: init_func_name, type_args: Seq::empty() },
                            args: Seq::empty(),
                        },
                    )
                    &&& final(ctx).mir.blocks@[b.0 as int].terminator == old(ctx).mir.blocks@[b.0 as int].terminator
                },
                None => final(ctx).mir == old(ctx).mir,
            }
        },
        !(exists|i: int| first_main_at(&old(ctx).mir, i)) ==> final(ctx).mir == old(ctx).mir,
{
    let main_func = match find_main(&ctx.mir) {
        Some(f) => f,
        None => {
            proof {
                if exists|j: int| first_main_at(&old(ctx).mir, j) {
                    let j = choose|j: int| first_main_at(&old(ctx).mir, j);
                    assert(!is_main_name(ctx.mir.name_view(ctx.mir.functions@[j].name)));
                }
            }
            return;
        },
    };
    proof {
        assert(first_main_at(&old(ctx).mir, main_func as int));
        let c = choose|j: int| first_main_at(&old(ctx).mir, j);
        if c < main_func {
            assert(!is_main_name(ctx.mir.name_view(ctx.mir.functions@[c].name)));
        } else if c > main_func {
            assert(!is_main_name(ctx.mir.name_view(ctx.mir.functions@[main_func as int].name)));
        }
        assert(c == main_func);
    }
    let entry = match ctx.mir.functions[main_func].entry_block {
        Some(b) => b,
        None => {
            return;
        },
    };
    let callee = Callee::direct(init_func_name);
    let ghost cv = callee@;
    let call = StatementKind::Call { callee, args: Vec::new() };
    assert(call@ == StmtV::Call { callee: cv, args: Seq::empty() }) by {
        assert(crate::mir::args_view(Seq::<crate::mir::CallArg>::empty()) =~= Seq::<crate::mir::CallArgV>::empty());
    }
    ctx.mir.insert_statement(entry, 0, call);
}


/// The kind makes its fields module-level (implicitly static).
pub open spec fn is_namespace_kind(k: Option<SymbolKind>) -> bool {
    k == Some(SymbolKind::Module) || k == Some(SymbolKind::SourceFile)
}

/// The symbol is a stored static field with an initializer: a field that is declared
/// static or sits directly in a module or source file, is not computed, and has a body.
pub open spec fn is_initialized_static(n: &ItemNode, parent: Option<SymbolKind>) -> bool {
    &&& n.kind == SymbolKind::Field
    &&& (n.is_static || is_namespace_kind(parent))
    &&& !n.is_computed
    &&& n.has_body
}

/// The initialized static fields of a symbol and its descendants, in declaration order
/// (a symbol before its children); `parent` is the kind of the symbol's parent.
pub open spec fn static_fields(n: &ItemNode, parent: Option<SymbolKind>) -> Seq<SymbolId>
    decreases n, 1nat,
{
    (if is_initialized_static(n, parent) {
        seq![n.id]
    } else {
        Seq::empty()
    }) + children_static_fields(n.children@, n.kind)
}

/// The initialized static fields of the children (whose parent has kind `k`) and their
/// descendants, in order.
pub open spec fn children_static_fields(cs: Seq<ItemNode>, k: SymbolKind) -> Seq<SymbolId>
    decreases cs, 0nat,
{
    if cs.len() == 0 {
        Seq::empty()
    } else {
        children_static_fields(cs.drop_last(), k) + static_fields(&cs.last(), Some(k))
    }
}

/// Appends the initialized static fields of `symbol` and its descendants, in
/// declaration order; `parent` is the kind of the symbol's parent, if it has one.
pub fn collect_static_fields_with_initializers(
    symbol: &ItemNode,
    parent: Option<SymbolKind>,
    result: &mut Vec<SymbolId>,
)
    ensures
        final(result)@ == old(result)@ + static_fields(symbol, parent),
    decreases symbol, 1nat,
{
    let ghost start = result@;
    let is_module_level = match parent {
        Some(SymbolKind::Module) | Some(SymbolKind::SourceFile) => true,
        _ => false,
    };
    if symbol.kind == SymbolKind::Field && (symbol.is_static || is_module_level) && !symbol.is_computed
        && symbol.has_body {
        result.push(symbol.id);
    }
    let ghost mid = result@;
    let mut i: usize = 0;
    while i < symbol.children.len()
        invariant
            i <= symbol.children@.len(),
            result@ == mid + children_static_fields(symbol.children@.take(i as int), symbol.kind),
        decreases symbol.children.len() - i,
    {
        proof {
            assert(symbol.children@.take(i + 1).drop_last() =~= symbol.children@.take(i as int));
        }
        collect_static_fields_with_initializers(&symbol.children[i], Some(symbol.kind), result);
        i = i + 1;
    }
    proof {
        assert(symbol.children@.take(i as int) =~= symbol.children@);
    }
    assert(result@ =~= start + static_fields(symbol, parent));
}


/// The name of the static initializer function.
pub open spec fn static_init_name() -> Seq<Seq<char>> {
    seq!["__kestrel_init_statics"@]
}

/// Starts the static initializer function `__kestrel_init_statics`, returning unit:
/// interns its name, adds it, enters it and makes a new block its entry block and
/// the current block. Returns its name and the function.
pub fn begin_static_init_function(ctx: &mut LoweringContext) -> (r: (NameId, FunctionId))
    requires
        old(ctx).inv(),
    ensures
        final(ctx).inv(),
        final(ctx).mir.name_view(r.0) == static_init_name(),
        names_view(final(ctx).mir.names@) == interned(names_view(old(ctx).mir.names@), static_init_name()),
        r.1.0 == old(ctx).mir.functions@.len(),
        final(ctx).mir.functions@.len() == old(ctx).mir.functions@.len() + 1,
        forall|j: int| 0 <= j < old(ctx).mir.functions@.len() ==> final(ctx).mir.functions@[j] == old(ctx).mir.functions@[j],
        ({
            let func = final(ctx).mir.functions@[r.1.0 as int];
            let entry = BlockId(old(ctx).mir.blocks@.len() as usize);
            &&& func.name == r.0
            &&& final(ctx).mir.types@[func.return_ty.0 as int] == MirTy::Unit
            &&& func.params@.len() == 0
            &&& func.locals@.len() == 0
            &&& func.blocks@ == seq![entry]
            &&& func.entry_block == Some(entry)
            &&& final(ctx).cur_block() == Some(entry)
        }),
        final(ctx).mir.blocks@.len() == old(ctx).mir.blocks@.len() + 1,
        forall|j: int| 0 <= j < old(ctx).mir.blocks@.len() ==> final(ctx).mir.blocks@[j] == old(ctx).mir.blocks@[j],
        final(ctx).mir.blocks@.last().statements@.len() == 0,
        final(ctx).mir.blocks@.last().terminator is None,
        final(ctx).mir.locals == old(ctx).mir.locals,
        final(ctx).mir.statics == old(ctx).mir.statics,
        old(ctx).mir.types@.is_prefix_of(final(ctx).mir.types@),
        final(ctx).cur_function() == Some(r.1),
        final(ctx).local_map_view() == Map::<crate::sem::SemLocalId, crate::mir::LocalId>::empty(),
        final(ctx).type_param_view() == old(ctx).type_param_view(),
        final(ctx).loops().len() == 0,
        final(ctx).scopes().len() == 0,
        final(ctx).temps().len() == 0,
        final(ctx).diags() == old(ctx).diags(),
        final(ctx).temp_count() == 0,
        final(ctx).closure_count() == 0,
        final(ctx).flag_count() == 0,
{
    let name = ctx.mir.intern_name_parts(&["__kestrel_init_statics"]);
    proof {
        reveal_strlit("__kestrel_init_statics");
    }
    let unit = ctx.mir.ty_unit();
    let func = ctx.mir.add_function(name, unit);
    ctx.enter_function(func);
    let entry = ctx.create_block();
    ctx.set_current_block(entry);
    ctx.mir.set_entry_block(func, entry);
    (name, func)
}

/// A static of this name is declared.
pub open spec fn has_static(statics: Seq<StaticDef>, name: NameId) -> bool {
    exists|i: int| 0 <= i < statics.len() && (#[trigger] statics[i]).name == name
}

/// Stores a static's initial value: declares the static (name and type) unless one of
/// that name is declared already, and assigns the value to it in the current block.
pub fn store_static_initializer(ctx: &mut LoweringContext, static_name: NameId, ty: TyId, value: Value)
    requires
        old(ctx).inv(),
        old(ctx).cur_block() is Some,
    ensures
        final(ctx).inv(),
        final(ctx).same_state(old(ctx)),
        final(ctx).mir.statics@ == if has_static(old(ctx).mir.statics@, static_name) {
            old(ctx).mir.statics@
        } else {
            old(ctx).mir.statics@.push(StaticDef { name: static_name, ty })
        },
        ({
            let b = old(ctx).cur_block().unwrap();
            &&& final(ctx).mir.names == old(ctx).mir.names
            &&& final(ctx).mir.types == old(ctx).mir.types
            &&& final(ctx).mir.functions == old(ctx).mir.functions
            &&& final(ctx).mir.locals == old(ctx).mir.locals
            &&& final(ctx).mir.blocks@.len() == old(ctx).mir.blocks@.len()
            &&& forall|j: int| 0 <= j < old(ctx).mir.blocks@.len() && j != b.0
                ==> final(ctx).mir.blocks@[j] == old(ctx).mir.blocks@[j]
            &&& final(ctx).mir.stmts_of(b) == old(ctx).mir.stmts_of(b) + assign_value_stmts(
                PlaceV::Global(static_name),
                value@,
            )
            &&& final(ctx).mir.term_of(b) == old(ctx).mir.term_of(b)
        }),
{
    let mut exists = false;
    let mut i: usize = 0;
    while i < ctx.mir.statics.len()
        invariant
            i <= ctx.mir.statics@.len(),
            exists <==> (exists|k: int| 0 <= k < i && (#[trigger] ctx.mir.statics@[k]).name == static_name),
        decreases ctx.mir.statics.len() - i,
    {
        if ctx.mir.statics[i].name == static_name {
            exists = true;
        }
        i = i + 1;
    }
    if !exists {
        ctx.mir.add_static(static_name, ty);
    }
    ctx.emit_assign_value(Place::global(static_name), value);
}

/// Ends the static initializer function: returns unit from the current block and
/// leaves the function.
pub fn finish_static_init_function(ctx: &mut LoweringContext)
    requires
        old(ctx).inv(),
        old(ctx).cur_block() is Some,
    ensures
        final(ctx).inv(),
        ({
            let b = old(ctx).cur_block().unwrap();
            &&& final(ctx).mir.only_block_changed(&old(ctx).mir, b)
            &&& final(ctx).mir.stmts_of(b) == old(ctx).mir.stmts_of(b)
            &&& final(ctx).mir.term_of(b) == Some(TermV::Return(ValueV::Immediate(ImmediateV::Unit)))
        }),
        final(ctx).cur_function() is None,
        final(ctx).cur_block() is None,
        final(ctx).diags() == old(ctx).diags(),
        final(ctx).scopes().len() == 0,
        final(ctx).loops().len() == 0,
{
    ctx.emit_return_unit();
    ctx.exit_function();
}

} // verus!
