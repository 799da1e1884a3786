use kestrel_execution_graph_lowering::context::LoweringContext;
use kestrel_execution_graph_lowering::error::{Severity, Span};
use kestrel_execution_graph_lowering::item::{lower_item, ItemAction, ItemNode};
use kestrel_execution_graph_lowering::sem::{SymbolId, SymbolKind};

fn item(id: u64, kind: SymbolKind, children: Vec<ItemNode>) -> ItemNode {
    ItemNode {
        id: SymbolId(id),
        kind,
        span: Span { file_id: 1, start: id as usize, end: id as usize + 1 },
        is_static: false,
        is_computed: false,
        has_body: false,
        children,
    }
}

#[test]
fn dispatch_lowers_items_in_declaration_order() {
    let module = item(
        0,
        SymbolKind::Module,
        vec![
            item(
                1,
                SymbolKind::Struct,
                vec![
                    item(2, SymbolKind::Function, vec![]),
                    item(3, SymbolKind::Field, vec![]),
                    item(4, SymbolKind::Initializer, vec![]),
                ],
            ),
            item(5, SymbolKind::Protocol, vec![item(6, SymbolKind::Function, vec![])]),
            item(
                7,
                SymbolKind::Enum,
                vec![
                    item(8, SymbolKind::EnumCase, vec![]),
                    item(9, SymbolKind::Function, vec![]),
                    item(10, SymbolKind::Initializer, vec![]),
                ],
            ),
            item(
                11,
                SymbolKind::SourceFile,
                vec![
                    item(12, SymbolKind::Extension, vec![item(13, SymbolKind::Function, vec![])]),
                    item(14, SymbolKind::TypeAlias, vec![]),
                    item(15, SymbolKind::Import, vec![]),
                    item(16, SymbolKind::Function, vec![]),
                ],
            ),
        ],
    );
    let mut ctx = LoweringContext::new();
    let mut plan = Vec::new();
    lower_item(&mut ctx, &module, &mut plan);
    assert_eq!(
        plan,
        vec![
            ItemAction::LowerStruct(SymbolId(1)),
            ItemAction::LowerFunction(SymbolId(2)),
            ItemAction::LowerInitializer(SymbolId(4)),
            ItemAction::LowerEnum(SymbolId(7)),
            ItemAction::LowerFunction(SymbolId(9)),
            ItemAction::LowerFunction(SymbolId(13)),
            ItemAction::LowerFunction(SymbolId(16)),
        ]
    );
    let result = ctx.finish();
    assert_eq!(result.diagnostics.len(), 1);
    assert_eq!(result.diagnostics[0].severity, Severity::Warning);
    assert_eq!(result.diagnostics[0].message, "unsupported item: Protocol");
    assert_eq!(result.diagnostics[0].labels[0].start, 5);
    assert_eq!(
        result.diagnostics[0].labels[0].message,
        "this item kind is not yet supported in MIR lowering"
    );
}

#[test]
fn dispatch_of_single_function() {
    let mut ctx = LoweringContext::new();
    let mut plan = vec![ItemAction::LowerEnum(SymbolId(99))];
    lower_item(&mut ctx, &item(3, SymbolKind::Function, vec![]), &mut plan);
    assert_eq!(plan, vec![ItemAction::LowerEnum(SymbolId(99)), ItemAction::LowerFunction(SymbolId(3))]);
    let mut empty = Vec::new();
    lower_item(&mut ctx, &item(4, SymbolKind::Field, vec![]), &mut empty);
    assert!(empty.is_empty());
}
