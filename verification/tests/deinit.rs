use std::rc::Rc;

use kestrel_execution_graph_lowering::context::{DeinitStatus, LoweringContext, ScopeInfo};
use kestrel_execution_graph_lowering::mir::{BlockId, FunctionId, LocalId, Place};
use kestrel_execution_graph_lowering::sem::{
    CaseDecl, FieldDecl, IntBits, SemTy, SymbolKind, SymbolNode, TypeDecl,
};

fn node(kind: SymbolKind, name: &str, parent: Option<SymbolNode>) -> SymbolNode {
    SymbolNode {
        kind,
        name: name.to_string(),
        parent: parent.map(Box::new),
        callable: None,
        subscript: None,
        extension_target: None,
        is_static: false,
        is_namespace_scope: false,
        is_computed: false,
    }
}

fn type_decl(kind: SymbolKind, name: &str, has_deinit: bool) -> TypeDecl {
    let root = node(SymbolKind::Module, "<root>", None);
    let module = node(SymbolKind::Module, "Test", Some(root));
    TypeDecl {
        symbol: node(kind, name, Some(module)),
        copyable: false,
        has_deinit,
        fields: Vec::new(),
        cases: Vec::new(),
    }
}

fn resource(name: &str) -> SemTy {
    SemTy::Struct(Box::new(type_decl(SymbolKind::Struct, name, true)))
}

fn in_function() -> (LoweringContext, FunctionId, BlockId) {
    let mut ctx = LoweringContext::new();
    let name = ctx.mir.intern_name_parts(&["Test", "foo"]);
    let unit = ctx.mir.ty_unit();
    let f = ctx.mir.add_function(name, unit);
    ctx.enter_function(f);
    let b = ctx.create_block();
    ctx.set_current_block(b);
    (ctx, f, b)
}

fn stmts(ctx: &LoweringContext, b: BlockId) -> Vec<String> {
    ctx.mir.blocks[b.0].statements.iter().map(|s| format!("{:?}", s)).collect()
}

fn name_of(ctx: &LoweringContext, stmt: &str) -> Vec<String> {
    let start = stmt.find("NameId(").unwrap() + "NameId(".len();
    let end = start + stmt[start..].find(')').unwrap();
    let id: usize = stmt[start..end].parse().unwrap();
    ctx.mir.names[id].clone()
}

#[test]
fn type_needs_deinit_rules() {
    let ctx = LoweringContext::new();
    assert!(!ctx.type_needs_deinit(&SemTy::Int(IntBits::I64)));
    assert!(!ctx.type_needs_deinit(&SemTy::Str));
    assert!(ctx.type_needs_deinit(&resource("File")));
    let mut copyable = type_decl(SymbolKind::Struct, "Handle", true);
    copyable.copyable = true;
    assert!(!ctx.type_needs_deinit(&SemTy::Struct(Box::new(copyable))));
    let mut plain = type_decl(SymbolKind::Struct, "Point", false);
    plain.fields.push(FieldDecl { name: "x".to_string(), ty: SemTy::Int(IntBits::I64) });
    assert!(!ctx.type_needs_deinit(&SemTy::Struct(Box::new(plain))));
    let mut holder = type_decl(SymbolKind::Struct, "Holder", false);
    holder.fields.push(FieldDecl { name: "f".to_string(), ty: resource("File") });
    assert!(ctx.type_needs_deinit(&SemTy::Struct(Box::new(holder))));
    let mut opt = type_decl(SymbolKind::Enum, "Maybe", false);
    opt.cases.push(CaseDecl { name: "Some".to_string(), payload: Some(vec![resource("File")]) });
    opt.cases.push(CaseDecl { name: "None".to_string(), payload: None });
    assert!(ctx.type_needs_deinit(&SemTy::Enum(Box::new(opt))));
    let mut flat = type_decl(SymbolKind::Enum, "Color", false);
    flat.cases.push(CaseDecl { name: "Red".to_string(), payload: None });
    assert!(!ctx.type_needs_deinit(&SemTy::Enum(Box::new(flat))));
}

#[test]
fn deinit_without_type_is_plain() {
    let (mut ctx, _, b) = in_function();
    ctx.emit_deinit_for_place(&Place::local(LocalId(0)), None);
    ctx.emit_deinit_for_place(&Place::local(LocalId(1)), Some(&SemTy::Str));
    assert_eq!(
        stmts(&ctx, b),
        vec![
            "Deinit { place: Local(LocalId(0)) }".to_string(),
            "Deinit { place: Local(LocalId(1)) }".to_string(),
        ]
    );
}

#[test]
fn struct_deinit_calls_body_then_fields_in_reverse() {
    let (mut ctx, _, b) = in_function();
    let mut pair = type_decl(SymbolKind::Struct, "Pair", true);
    pair.fields.push(FieldDecl { name: "first".to_string(), ty: resource("A") });
    pair.fields.push(FieldDecl { name: "n".to_string(), ty: SemTy::Int(IntBits::I64) });
    pair.fields.push(FieldDecl { name: "second".to_string(), ty: resource("B") });
    ctx.emit_deinit_for_place(&Place::local(LocalId(0)), Some(&SemTy::Struct(Box::new(pair))));
    let s = stmts(&ctx, b);
    assert_eq!(s.len(), 3);
    assert!(s[0].contains("args: [CallArg { value: Place(Local(LocalId(0))), mode: MutRef }]"));
    assert_eq!(name_of(&ctx, &s[0]), vec!["Test", "Pair", "deinit"]);
    assert!(s[1].contains("Place(Field(Local(LocalId(0)), \"second\"))"));
    assert_eq!(name_of(&ctx, &s[1]), vec!["Test", "B", "deinit"]);
    assert!(s[2].contains("Place(Field(Local(LocalId(0)), \"first\"))"));
    assert_eq!(name_of(&ctx, &s[2]), vec!["Test", "A", "deinit"]);
    assert_eq!(ctx.current_block(), Some(b));
}

#[test]
fn enum_deinit_switches_on_variant() {
    let (mut ctx, f, b) = in_function();
    let mut maybe = type_decl(SymbolKind::Enum, "Maybe", false);
    maybe.cases.push(CaseDecl {
        name: "Some".to_string(),
        payload: Some(vec![SemTy::Int(IntBits::I64), resource("File")]),
    });
    maybe.cases.push(CaseDecl { name: "None".to_string(), payload: None });
    let blocks_before = ctx.mir.blocks.len();
    ctx.emit_deinit_for_place(&Place::local(LocalId(0)), Some(&SemTy::Enum(Box::new(maybe))));
    let join = BlockId(blocks_before);
    let some_block = BlockId(blocks_before + 1);
    let none_block = BlockId(blocks_before + 2);
    let default_block = BlockId(blocks_before + 3);
    assert_eq!(ctx.mir.blocks.len(), blocks_before + 4);
    assert_eq!(
        format!("{:?}", ctx.mir.blocks[b.0].terminator),
        format!(
            "Some(Switch {{ discriminant: Local(LocalId(0)), cases: [(\"Some\", {:?}), (\"None\", {:?}), (\"_\", {:?})] }})",
            some_block, none_block, default_block
        )
    );
    let s = stmts(&ctx, some_block);
    assert_eq!(s.len(), 1);
    assert!(s[0].contains("Place(Index(Downcast(Local(LocalId(0)), \"Some\"), 1))"));
    assert_eq!(name_of(&ctx, &s[0]), vec!["Test", "File", "deinit"]);
    for blk in [some_block, none_block, default_block] {
        assert_eq!(
            format!("{:?}", ctx.mir.blocks[blk.0].terminator),
            format!("Some(Jump({:?}))", join)
        );
    }
    assert!(stmts(&ctx, none_block).is_empty());
    assert!(ctx.mir.blocks[join.0].terminator.is_none());
    assert_eq!(ctx.current_block(), Some(join));
    assert_eq!(
        ctx.mir.functions[f.0].blocks,
        vec![b, join, some_block, none_block, default_block]
    );
}

#[test]
fn enum_without_payload_drops_only_calls_deinit() {
    let (mut ctx, _, b) = in_function();
    let mut e = type_decl(SymbolKind::Enum, "Token", true);
    e.cases.push(CaseDecl { name: "A".to_string(), payload: Some(vec![SemTy::Bool]) });
    let blocks_before = ctx.mir.blocks.len();
    ctx.emit_deinit_for_place(&Place::local(LocalId(3)), Some(&SemTy::Enum(Box::new(e))));
    let s = stmts(&ctx, b);
    assert_eq!(s.len(), 1);
    assert_eq!(name_of(&ctx, &s[0]), vec!["Test", "Token", "deinit"]);
    assert_eq!(ctx.mir.blocks.len(), blocks_before);
}

#[test]
fn scope_exit_deinits_in_reverse_declaration_order() {
    let (mut ctx, _, b) = in_function();
    ctx.enter_scope();
    ctx.track_local(LocalId(0), true, None);
    ctx.track_local(LocalId(1), true, None);
    ctx.track_local(LocalId(2), false, None);
    ctx.track_local(LocalId(3), true, Some(Rc::new(resource("File"))));
    ctx.track_local(LocalId(4), true, None);
    ctx.mark_moved(LocalId(4));
    ctx.update_deinit_status(LocalId(1), DeinitStatus::MaybeMoved { flag: LocalId(9) });
    ctx.exit_scope();
    let s = stmts(&ctx, b);
    assert_eq!(s.len(), 3);
    assert!(s[0].contains("Place(Local(LocalId(3)))"));
    assert_eq!(name_of(&ctx, &s[0]), vec!["Test", "File", "deinit"]);
    assert_eq!(s[1], "DeinitIf { place: Local(LocalId(1)), flag: LocalId(9) }");
    assert_eq!(s[2], "Deinit { place: Local(LocalId(0)) }");
    assert_eq!(ctx.scope_depth(), 0);
}

#[test]
fn no_deinits_after_a_terminator() {
    let (mut ctx, _, b) = in_function();
    ctx.enter_scope();
    ctx.track_local(LocalId(0), true, None);
    ctx.emit_unreachable();
    ctx.exit_scope();
    assert!(stmts(&ctx, b).is_empty());
}

#[test]
fn return_deinits_all_scopes_innermost_first() {
    let (mut ctx, _, b) = in_function();
    ctx.enter_scope();
    ctx.track_local(LocalId(0), true, None);
    ctx.enter_scope();
    ctx.track_local(LocalId(1), true, None);
    ctx.emit_all_scope_deinits();
    assert_eq!(
        stmts(&ctx, b),
        vec![
            "Deinit { place: Local(LocalId(1)) }".to_string(),
            "Deinit { place: Local(LocalId(0)) }".to_string(),
        ]
    );
    assert_eq!(ctx.scope_depth(), 2);
}

#[test]
fn break_deinits_scopes_inside_the_loop() {
    let (mut ctx, _, b) = in_function();
    ctx.enter_scope();
    ctx.track_local(LocalId(0), true, None);
    ctx.push_loop(kestrel_execution_graph_lowering::sem::LoopId(5), b, b, None);
    ctx.enter_scope();
    ctx.track_local(LocalId(1), true, None);
    ctx.enter_scope();
    ctx.track_local(LocalId(2), true, None);
    ctx.emit_deinits_to_loop(kestrel_execution_graph_lowering::sem::LoopId(5));
    assert_eq!(
        stmts(&ctx, b),
        vec![
            "Deinit { place: Local(LocalId(2)) }".to_string(),
            "Deinit { place: Local(LocalId(1)) }".to_string(),
        ]
    );
}

#[test]
fn scope_deinits_of_a_given_scope() {
    let (mut ctx, _, b) = in_function();
    let mut scope = ScopeInfo::new();
    scope.locals.push(LocalId(7));
    scope.deinit_status.insert(LocalId(7), DeinitStatus::Valid);
    ctx.emit_scope_deinits(&scope);
    assert_eq!(stmts(&ctx, b), vec!["Deinit { place: Local(LocalId(7)) }".to_string()]);
}
