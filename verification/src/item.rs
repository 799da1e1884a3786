//! Item dispatch: which lowering each symbol of a module gets, in order.
//!
//! Functions and initializers are lowered as functions; a struct is lowered with
//! its methods and initializers, an enum with its methods, an extension's methods
//! and initializers as functions of the extended type; modules and source files
//! are walked; a protocol is reported as unsupported; other symbols produce
//! nothing.

use vstd::prelude::*;

use crate::context::LoweringContext;
use crate::error::{Diagnostic, LoweringError, Severity, Span};
use crate::sem::{SymbolId, SymbolKind};

verus! {

/// A symbol of the tree being lowered, with its children in declaration order.
#[derive(Debug)]
pub struct ItemNode {
    pub id: SymbolId,
    pub kind: SymbolKind,
    pub span: Span,
    /// For a field: whether it is declared `static`.
    pub is_static: bool,
    /// For a field: whether it is a computed property (accessors, no storage).
    pub is_computed: bool,
    /// Whether it carries an executable body (for a field, its initializer).
    pub has_body: bool,
    pub children: Vec<ItemNode>,
}

/// One lowering step of the dispatch.
#[derive(Clone, Copy, PartialEq, Eq, Debug, Structural)]
pub enum ItemAction {
    LowerFunction(SymbolId),
    LowerInitializer(SymbolId),
    LowerStruct(SymbolId),
    LowerEnum(SymbolId),
}

/// Which children of a symbol are lowered with it.
#[derive(Clone, Copy, PartialEq, Eq, Debug, Structural)]
pub enum ChildFilter {
    All,
    FunctionsAndInitializers,
    Functions,
}

/// The child is lowered with its parent under the filter.
pub open spec fn passes(f: ChildFilter, k: SymbolKind) -> bool {
    match f {
        ChildFilter::All => true,
        ChildFilter::FunctionsAndInitializers => k == SymbolKind::Function || k == SymbolKind::Initializer,
        ChildFilter::Functions => k == SymbolKind::Function,
    }
}

/// The lowering steps of a symbol, in order.
pub open spec fn item_plan(n: &ItemNode) -> Seq<ItemAction>
    decreases n, 1nat,
{
    match n.kind {
        SymbolKind::Function => seq![ItemAction::LowerFunction(n.id)],
        SymbolKind::Initializer => seq![ItemAction::LowerInitializer(n.id)],
        SymbolKind::Struct => seq![ItemAction::LowerStruct(n.id)] + children_plan(
            n.children@,
            ChildFilter::FunctionsAndInitializers,
        ),
        SymbolKind::Module | SymbolKind::SourceFile => children_plan(n.children@, ChildFilter::All),
        SymbolKind::Enum => seq![ItemAction::LowerEnum(n.id)] + children_plan(n.children@, ChildFilter::Functions),
        SymbolKind::Protocol => Seq::empty(),
        SymbolKind::Extension => children_plan(n.children@, ChildFilter::FunctionsAndInitializers),
        _ => Seq::empty(),
    }
}

/// The lowering steps of the children that pass the filter, in order.
pub open spec fn children_plan(cs: Seq<ItemNode>, f: ChildFilter) -> Seq<ItemAction>
    decreases cs, 0nat,
{
    if cs.len() == 0 {
        Seq::empty()
    } else {
        children_plan(cs.drop_last(), f) + if passes(f, cs.last().kind) {
            item_plan(&cs.last())
        } else {
            Seq::empty()
        }
    }
}

/// The spans of the protocols met by the dispatch, in order (each is reported as
/// an unsupported item).
pub open spec fn item_reports(n: &ItemNode) -> Seq<Span>
    decreases n, 1nat,
{
    match n.kind {
        SymbolKind::Struct | SymbolKind::Extension => children_reports(n.children@, ChildFilter::FunctionsAndInitializers),
        SymbolKind::Module | SymbolKind::SourceFile => children_reports(n.children@, ChildFilter::All),
        SymbolKind::Enum => children_reports(n.children@, ChildFilter::Functions),
        SymbolKind::Protocol => seq![n.span],
        _ => Seq::empty(),
    }
}

/// The spans of the protocols met among the children that pass the filter.
pub open spec fn children_reports(cs: Seq<ItemNode>, f: ChildFilter) -> Seq<Span>
    decreases cs, 0nat,
{
    if cs.len() == 0 {
        Seq::empty()
    } else {
        children_reports(cs.drop_last(), f) + if passes(f, cs.last().kind) {
            item_reports(&cs.last())
        } else {
            Seq::empty()
        }
    }
}

/// The diagnostic reports an unsupported item of the given kind at the span.
pub open spec fn reports_unsupported_item(d: Diagnostic, kind: Seq<char>, s: Span) -> bool {
    &&& d.severity == Severity::Warning
    &&& d.message@ == "unsupported item: "@ + kind
    &&& d.labels@.len() == 1
    &&& d.labels@[0].file_id == s.file_id
    &&& d.labels@[0].start == s.start
    &&& d.labels@[0].end == s.end
    &&& d.labels@[0].message@ == "this item kind is not yet supported in MIR lowering"@
}

/// The diagnostics after `old` are one unsupported-protocol report per span.
pub open spec fn protocols_reported(old: Seq<Diagnostic>, new: Seq<Diagnostic>, spans: Seq<Span>) -> bool {
    &&& new.len() == old.len() + spans.len()
    &&& new.take(old.len() as int) == old
    &&& forall|i: int| 0 <= i < spans.len() ==> reports_unsupported_item(#[trigger] new[old.len() + i], "Protocol"@, spans[i])
}

proof fn lemma_reports_trans(a: Seq<Diagnostic>, b: Seq<Diagnostic>, c: Seq<Diagnostic>, x: Seq<Span>, y: Seq<Span>)
    requires
        protocols_reported(a, b, x),
        protocols_reported(b, c, y),
    ensures
        protocols_reported(a, c, x + y),
{
    assert(c.take(a.len() as int) =~= a) by {
        assert forall|i: int| 0 <= i < a.len() implies c[i] == a[i] by {
            assert(c.take(b.len() as int)[i] == b[i]);
            assert(b.take(a.len() as int)[i] == a[i]);
        }
    }
    assert forall|i: int| 0 <= i < (x + y).len() implies reports_unsupported_item(
        #[trigger] c[a.len() + i],
        "Protocol"@,
        (x + y)[i],
    ) by {
        if i < x.len() {
            assert(c.take(b.len() as int)[a.len() + i] == b[a.len() + i]);
        } else {
            assert(c[b.len() + (i - x.len())] == c[a.len() + i]);
        }
    }
}

proof fn lemma_reports_refl(a: Seq<Diagnostic>)
    ensures
        protocols_reported(a, a, Seq::empty()),
{
    assert(a.take(a.len() as int) =~= a);
}

/// Whether a child of the given kind is lowered with its parent under the filter.
fn child_passes(f: ChildFilter, k: SymbolKind) -> (r: bool)
    ensures
        r == passes(f, k),
{
    match f {
        ChildFilter::All => true,
        ChildFilter::FunctionsAndInitializers => k == SymbolKind::Function || k == SymbolKind::Initializer,
        ChildFilter::Functions => k == SymbolKind::Function,
    }
}

/// Appends the lowering steps of a symbol (see `item_plan`) and reports each
/// protocol met as an unsupported item (see `item_reports`).
pub fn lower_item(ctx: &mut LoweringContext, symbol: &ItemNode, plan: &mut Vec<ItemAction>)
    requires
        old(ctx).inv(),
    ensures
        final(ctx).inv(),
        final(plan)@ == old(plan)@ + item_plan(symbol),
        protocols_reported(old(ctx).diags(), final(ctx).diags(), item_reports(symbol)),
        final(ctx).mir == old(ctx).mir,
        final(ctx).cur_function() == old(ctx).cur_function(),
        final(ctx).type_param_view() == old(ctx).type_param_view(),
        final(ctx).cur_block() == old(ctx).cur_block(),
        final(ctx).local_map_view() == old(ctx).local_map_view(),
        final(ctx).loops() == old(ctx).loops(),
        final(ctx).scopes() == old(ctx).scopes(),
        final(ctx).temps() == old(ctx).temps(),
        final(ctx).temp_count() == old(ctx).temp_count(),
        final(ctx).closure_count() == old(ctx).closure_count(),
        final(ctx).flag_count() == old(ctx).flag_count(),
    decreases symbol, 1nat,
{
    proof {
        lemma_reports_refl(ctx.diags());
    }
    match symbol.kind {
        SymbolKind::Function => {
            plan.push(ItemAction::LowerFunction(symbol.id));
        },
        SymbolKind::Initializer => {
            plan.push(ItemAction::LowerInitializer(symbol.id));
        },
        SymbolKind::Struct => {
            plan.push(ItemAction::LowerStruct(symbol.id));
            lower_children(ctx, symbol, ChildFilter::FunctionsAndInitializers, plan);
        },
        SymbolKind::Module | SymbolKind::SourceFile => {
            lower_children(ctx, symbol, ChildFilter::All, plan);
        },
        SymbolKind::Enum => {
            plan.push(ItemAction::LowerEnum(symbol.id));
            lower_children(ctx, symbol, ChildFilter::Functions, plan);
        },
        SymbolKind::Protocol => {
            let e = LoweringError::unsupported_item("Protocol", symbol.span);
            proof {
                reveal_strlit("Protocol");
            }
            ctx.emit_error(e);
            proof {
                let n = old(ctx).diags().len();
                assert(ctx.diags().take(n as int) =~= ctx.diags().drop_last());
                assert(ctx.diags()[n as int] == ctx.diags().last());
            }
        },
        SymbolKind::Extension => {
            lower_children(ctx, symbol, ChildFilter::FunctionsAndInitializers, plan);
        },
        _ => {},
    }
    assert(final(plan)@ =~= old(plan)@ + item_plan(symbol));
}

/// Appends the lowering steps of the children that pass the filter.
fn lower_children(ctx: &mut LoweringContext, symbol: &ItemNode, f: ChildFilter, plan: &mut Vec<ItemAction>)
    requires
        old(ctx).inv(),
    ensures
        final(ctx).inv(),
        final(plan)@ == old(plan)@ + children_plan(symbol.children@, f),
        protocols_reported(old(ctx).diags(), final(ctx).diags(), children_reports(symbol.children@, f)),
        final(ctx).mir == old(ctx).mir,
        final(ctx).cur_function() == old(ctx).cur_function(),
        final(ctx).type_param_view() == old(ctx).type_param_view(),
        final(ctx).cur_block() == old(ctx).cur_block(),
        final(ctx).local_map_view() == old(ctx).local_map_view(),
        final(ctx).loops() == old(ctx).loops(),
        final(ctx).scopes() == old(ctx).scopes(),
        final(ctx).temps() == old(ctx).temps(),
        final(ctx).temp_count() == old(ctx).temp_count(),
        final(ctx).closure_count() == old(ctx).closure_count(),
        final(ctx).flag_count() == old(ctx).flag_count(),
    decreases symbol, 0nat,
{
    let ghost cs = symbol.children@;
    let ghost start = plan@;
    let ghost d0 = ctx.diags();
    let mut i: usize = 0;
    assert(cs.take(0) =~= Seq::<ItemNode>::empty());
    assert(start + children_plan(cs.take(0), f) =~= start);
    proof {
        lemma_reports_refl(d0);
    }
    while i < symbol.children.len()
        invariant
            cs == symbol.children@,
            i <= cs.len(),
            plan@ == start + children_plan(cs.take(i as int), f),
            d0 == old(ctx).diags(),
            protocols_reported(d0, ctx.diags(), children_reports(cs.take(i as int), f)),
            ctx.inv(),
            ctx.mir == old(ctx).mir,
            ctx.cur_function() == old(ctx).cur_function(),
            ctx.type_param_view() == old(ctx).type_param_view(),
            ctx.cur_block() == old(ctx).cur_block(),
            ctx.local_map_view() == old(ctx).local_map_view(),
            ctx.loops() == old(ctx).loops(),
            ctx.scopes() == old(ctx).scopes(),
            ctx.temps() == old(ctx).temps(),
            ctx.temp_count() == old(ctx).temp_count(),
            ctx.closure_count() == old(ctx).closure_count(),
            ctx.flag_count() == old(ctx).flag_count(),
        decreases symbol.children.len() - i,
    {
        proof {
            assert(cs.take(i + 1).drop_last() =~= cs.take(i as int));
            assert(cs.take(i + 1).last() == cs[i as int]);
            assert(decreases_to!(*symbol => symbol.children));
            assert(decreases_to!(symbol.children => symbol.children@[i as int]));
        }
        let child = &symbol.children[i];
        let ghost dprev = ctx.diags();
        if child_passes(f, child.kind) {
            lower_item(ctx, child, plan);
            proof {
                lemma_reports_trans(d0, dprev, ctx.diags(), children_reports(cs.take(i as int), f), item_reports(child));
            }
        } else {
            proof {
                assert(children_reports(cs.take(i as int), f) + Seq::<Span>::empty() =~= children_reports(cs.take(i as int), f));
            }
        }
        assert(plan@ =~= start + children_plan(cs.take(i + 1), f));
        i = i + 1;
    }
    assert(cs.take(i as int) =~= cs);
}

} // verus!

verus! {

proof fn lemma_child_in_plan(cs: Seq<ItemNode>, f: ChildFilter, i: int, k: int) -> (j: int)
    requires
        0 <= i < cs.len(),
        passes(f, cs[i].kind),
        0 <= k < item_plan(&cs[i]).len(),
    ensures
        0 <= j < children_plan(cs, f).len(),
        children_plan(cs, f)[j] == item_plan(&cs[i])[k],
    decreases cs.len(),
{
    let prev = cs.drop_last();
    let part = if passes(f, cs.last().kind) {
        item_plan(&cs.last())
    } else {
        Seq::empty()
    };
    assert(children_plan(cs, f) == children_plan(prev, f) + part);
    if i == cs.len() - 1 {
        let j = children_plan(prev, f).len() + k;
        assert((children_plan(prev, f) + part)[j] == part[k]);
        j
    } else {
        assert(prev[i] == cs[i]);
        let j = lemma_child_in_plan(prev, f, i, k);
        assert((children_plan(prev, f) + part)[j] == children_plan(prev, f)[j]);
        j
    }
}

/// The methods and initializers of a struct or an extension are all lowered: for
/// every child that is a function its function lowering, and for every child that
/// is an initializer its initializer lowering, is in the symbol's plan. An enum's
/// methods are in its plan too.
pub proof fn law_methods_and_initializers_are_lowered(n: &ItemNode, i: int)
    requires
        0 <= i < n.children@.len(),
    ensures
        (n.kind == SymbolKind::Struct || n.kind == SymbolKind::Extension || n.kind == SymbolKind::Enum)
            && n.children@[i].kind == SymbolKind::Function ==> item_plan(n).contains(
            ItemAction::LowerFunction(n.children@[i].id),
        ),
        (n.kind == SymbolKind::Struct || n.kind == SymbolKind::Extension) && n.children@[i].kind
            == SymbolKind::Initializer ==> item_plan(n).contains(ItemAction::LowerInitializer(n.children@[i].id)),
{
    let c = n.children@[i];
    let cs = n.children@;
    if c.kind == SymbolKind::Function || c.kind == SymbolKind::Initializer {
        let a = if c.kind == SymbolKind::Function {
            ItemAction::LowerFunction(c.id)
        } else {
            ItemAction::LowerInitializer(c.id)
        };
        assert(item_plan(&c)[0] == a);
        if n.kind == SymbolKind::Struct {
            let p = children_plan(cs, ChildFilter::FunctionsAndInitializers);
            let j = lemma_child_in_plan(cs, ChildFilter::FunctionsAndInitializers, i, 0);
            assert(item_plan(n) == seq![ItemAction::LowerStruct(n.id)] + p);
            assert(item_plan(n)[j + 1] == a);
        } else if n.kind == SymbolKind::Extension {
            let j = lemma_child_in_plan(cs, ChildFilter::FunctionsAndInitializers, i, 0);
            assert(item_plan(n)[j] == a);
        } else if n.kind == SymbolKind::Enum && c.kind == SymbolKind::Function {
            let p = children_plan(cs, ChildFilter::Functions);
            let j = lemma_child_in_plan(cs, ChildFilter::Functions, i, 0);
            assert(item_plan(n) == seq![ItemAction::LowerEnum(n.id)] + p);
            assert(item_plan(n)[j + 1] == a);
        }
    }
}

} // verus!
