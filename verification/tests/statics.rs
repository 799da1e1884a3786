use kestrel_execution_graph_lowering::sem::IntBits;
use kestrel_execution_graph_lowering::context::LoweringContext;
use kestrel_execution_graph_lowering::error::Span;
use kestrel_execution_graph_lowering::item::ItemNode;
use kestrel_execution_graph_lowering::mir::{BlockId, Immediate, LocalId, MirTy, Place, Value};
use kestrel_execution_graph_lowering::module::{
    begin_static_init_function, collect_static_fields_with_initializers, finish_static_init_function,
    inject_init_call_into_main, store_static_initializer,
};
use kestrel_execution_graph_lowering::sem::{SymbolId, SymbolKind};

fn node(id: u64, kind: SymbolKind, children: Vec<ItemNode>) -> ItemNode {
    ItemNode {
        id: SymbolId(id),
        kind,
        span: Span { file_id: 0, start: 0, end: 1 },
        is_static: false,
        is_computed: false,
        has_body: false,
        children,
    }
}

fn field(id: u64, is_static: bool, is_computed: bool, has_body: bool) -> ItemNode {
    ItemNode { is_static, is_computed, has_body, ..node(id, SymbolKind::Field, vec![]) }
}

fn stmts(ctx: &LoweringContext, b: BlockId) -> Vec<String> {
    ctx.mir.blocks[b.0].statements.iter().map(|s| format!("{:?}", s)).collect()
}

#[test]
fn module_level_and_static_fields_with_initializers_are_collected() {
    let module = node(
        0,
        SymbolKind::Module,
        vec![
            field(1, false, false, true),
            field(2, false, false, false),
            node(
                3,
                SymbolKind::Struct,
                vec![field(4, false, false, true), field(5, true, false, true), field(6, true, true, true)],
            ),
            node(7, SymbolKind::SourceFile, vec![field(8, false, false, true)]),
            field(9, true, false, true),
        ],
    );
    let mut out = Vec::new();
    collect_static_fields_with_initializers(&module, None, &mut out);
    assert_eq!(out, vec![SymbolId(1), SymbolId(5), SymbolId(8), SymbolId(9)]);
}

#[test]
fn root_field_uses_its_parent_kind() {
    let f = field(1, false, false, true);
    let mut out = vec![SymbolId(42)];
    collect_static_fields_with_initializers(&f, Some(SymbolKind::Struct), &mut out);
    assert_eq!(out, vec![SymbolId(42)]);
    collect_static_fields_with_initializers(&f, Some(SymbolKind::SourceFile), &mut out);
    assert_eq!(out, vec![SymbolId(42), SymbolId(1)]);
}

#[test]
fn static_init_function_stores_and_returns() {
    let mut ctx = LoweringContext::new();
    let counter = ctx.mir.intern_name_parts(&["Test", "counter"]);
    let int_ty = ctx.mir.intern_type(MirTy::Unit);
    let (name, func) = begin_static_init_function(&mut ctx);
    let parts: Vec<String> = ctx.mir.names[name.0].clone();
    assert_eq!(parts, vec!["__kestrel_init_statics".to_string()]);
    let entry = ctx.current_block().unwrap();
    assert_eq!(ctx.mir.functions[func.0].entry_block, Some(entry));
    store_static_initializer(&mut ctx, counter, int_ty, Value::Immediate(Immediate::Int(IntBits::I64, 0)));
    store_static_initializer(&mut ctx, counter, int_ty, Value::Place(Place::local(LocalId(3))));
    assert_eq!(ctx.mir.statics.len(), 1);
    assert_eq!(
        stmts(&ctx, entry),
        vec![
            format!("Assign {{ dest: Global({:?}), rvalue: Use(Int(I64, 0)) }}", counter),
            format!("Assign {{ dest: Global({:?}), rvalue: Copy(Local(LocalId(3))) }}", counter),
        ]
    );
    finish_static_init_function(&mut ctx);
    assert_eq!(format!("{:?}", ctx.mir.blocks[entry.0].terminator), "Some(Return(Immediate(Unit)))");
    assert_eq!(ctx.current_function(), None);
    inject_init_call_into_main(&mut ctx, name);
    assert_eq!(stmts(&ctx, entry).len(), 2);
}
