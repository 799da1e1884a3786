use kestrel_execution_graph_lowering::context::LoweringContext;
use kestrel_execution_graph_lowering::name::{
    init_name_suffix_from_callable, mangle_type_name, qualified_name_for_struct_init,
    qualified_name_for_symbol, qualified_name_from_parts,
};
use kestrel_execution_graph_lowering::sem::{
    FloatBits, IntBits, ParamInfo, SemTy, SymbolKind, SymbolNode, TypeDecl,
};

fn node(kind: SymbolKind, name: &str, parent: Option<SymbolNode>) -> SymbolNode {
    SymbolNode {
        kind,
        name: name.to_string(),
        parent: parent.map(Box::new),
        callable: None,
        subscript: None,
        extension_target: None,
        is_static: false,
        is_namespace_scope: false,
        is_computed: false,
    }
}

fn module(name: &str) -> SymbolNode {
    let root = node(SymbolKind::Module, "<root>", None);
    let mut m = node(SymbolKind::Module, name, Some(root));
    m.is_namespace_scope = true;
    m
}

fn decl(name: &str) -> TypeDecl {
    TypeDecl {
        symbol: node(SymbolKind::Struct, name, Some(module("Test"))),
        copyable: false,
        has_deinit: false,
        fields: Vec::new(),
        cases: Vec::new(),
    }
}

fn param(label: Option<&str>, name: &str, has_default: bool, ty: SemTy) -> ParamInfo {
    ParamInfo { label: label.map(|s| s.to_string()), name: name.to_string(), has_default, ty }
}

fn segments(ctx: &LoweringContext, id: kestrel_execution_graph_lowering::mir::NameId) -> Vec<String> {
    ctx.mir.names[id.0].clone()
}

#[test]
fn mangle_primitive_types() {
    assert_eq!(mangle_type_name(&SemTy::Int(IntBits::I32)), "I32");
    assert_eq!(mangle_type_name(&SemTy::Int(IntBits::I8)), "I8");
    assert_eq!(mangle_type_name(&SemTy::Float(FloatBits::F64)), "F64");
    assert_eq!(mangle_type_name(&SemTy::Bool), "Bool");
    assert_eq!(mangle_type_name(&SemTy::Str), "String");
    assert_eq!(mangle_type_name(&SemTy::Unit), "Unit");
    assert_eq!(mangle_type_name(&SemTy::Never), "Never");
    assert_eq!(mangle_type_name(&SemTy::SelfType), "Self");
    assert_eq!(mangle_type_name(&SemTy::Error), "Error");
    assert_eq!(mangle_type_name(&SemTy::Infer), "Infer");
    assert_eq!(mangle_type_name(&SemTy::UnresolvedFunction), "UnresolvedFn");
}

#[test]
fn mangle_composite_types() {
    assert_eq!(mangle_type_name(&SemTy::Pointer(Box::new(SemTy::Bool))), "PtrBool");
    let tuple = SemTy::Tuple(vec![SemTy::Int(IntBits::I8), SemTy::Bool, SemTy::Str]);
    assert_eq!(mangle_type_name(&tuple), "TupleI8_Bool_String");
    assert_eq!(mangle_type_name(&SemTy::Tuple(vec![])), "Tuple");
    let path = SemTy::UnresolvedPath(vec!["std".to_string(), "Vec".to_string()]);
    assert_eq!(mangle_type_name(&path), "std_Vec");
    assert_eq!(mangle_type_name(&SemTy::Struct(Box::new(decl("UInt32")))), "UInt32");
    assert_eq!(mangle_type_name(&SemTy::TypeParameter("T".to_string())), "T");
}

#[test]
fn init_suffix_without_parameters() {
    assert_eq!(init_name_suffix_from_callable(&vec![]), "init");
}

#[test]
fn init_suffix_uses_labels() {
    let ps = vec![param(Some("intLiteral"), "value", false, SemTy::Int(IntBits::I64))];
    assert_eq!(init_name_suffix_from_callable(&ps), "init$intLiteral");
    let ps = vec![
        param(None, "x", false, SemTy::Int(IntBits::I64)),
        param(Some("y"), "yy", false, SemTy::Bool),
    ];
    assert_eq!(init_name_suffix_from_callable(&ps), "init$x$y");
}

#[test]
fn init_suffix_from_label_includes_types() {
    let ps = vec![param(Some("from"), "v", false, SemTy::Struct(Box::new(decl("UInt32"))))];
    assert_eq!(init_name_suffix_from_callable(&ps), "init$from_UInt32");
    let ps = vec![param(Some("from"), "v", false, SemTy::Int(IntBits::I8))];
    assert_eq!(init_name_suffix_from_callable(&ps), "init$from_I8");
}

#[test]
fn qualified_name_of_function_with_labels() {
    let mut f = node(SymbolKind::Function, "parse", Some(module("Test")));
    f.callable = Some(vec![
        param(Some("string"), "s", false, SemTy::Str),
        param(None, "radix", false, SemTy::Int(IntBits::I64)),
        param(None, "strict", true, SemTy::Bool),
    ]);
    let mut ctx = LoweringContext::new();
    let id = qualified_name_for_symbol(&mut ctx, &f);
    assert_eq!(segments(&ctx, id), vec!["Test".to_string(), "parse$string$radix".to_string()]);
}

#[test]
fn qualified_name_of_function_without_parameters() {
    let mut f = node(SymbolKind::Function, "main", Some(module("Test")));
    f.callable = Some(vec![]);
    let mut ctx = LoweringContext::new();
    let id = qualified_name_for_symbol(&mut ctx, &f);
    assert_eq!(segments(&ctx, id), vec!["Test".to_string(), "main".to_string()]);
}

#[test]
fn qualified_name_of_method_and_initializer() {
    let s = node(SymbolKind::Struct, "Point", Some(module("Test")));
    let mut init = node(SymbolKind::Initializer, "init", Some(s));
    init.callable = Some(vec![param(Some("x"), "x", false, SemTy::Int(IntBits::I64))]);
    let mut ctx = LoweringContext::new();
    let id = qualified_name_for_symbol(&mut ctx, &init);
    assert_eq!(
        segments(&ctx, id),
        vec!["Test".to_string(), "Point".to_string(), "init$x".to_string()]
    );
}

#[test]
fn qualified_name_skips_source_files_and_instance_fields() {
    let file = node(SymbolKind::SourceFile, "main.ks", Some(module("Test")));
    let s = node(SymbolKind::Struct, "Point", Some(file));
    let field = node(SymbolKind::Field, "x", Some(s));
    let mut ctx = LoweringContext::new();
    let id = qualified_name_for_symbol(&mut ctx, &field);
    assert_eq!(segments(&ctx, id), vec!["Test".to_string(), "Point".to_string()]);
}

#[test]
fn qualified_name_of_module_level_field() {
    let field = node(SymbolKind::Field, "counter", Some(module("Test")));
    let mut ctx = LoweringContext::new();
    let id = qualified_name_for_symbol(&mut ctx, &field);
    assert_eq!(segments(&ctx, id), vec!["Test".to_string(), "counter".to_string()]);
}

#[test]
fn qualified_name_of_extension_uses_target() {
    let mut ext = node(SymbolKind::Extension, "(extension)", Some(module("Test")));
    ext.extension_target = Some(Box::new(SemTy::Int(IntBits::I32)));
    let mut f = node(SymbolKind::Function, "double", Some(ext));
    f.callable = Some(vec![]);
    let mut ctx = LoweringContext::new();
    let id = qualified_name_for_symbol(&mut ctx, &f);
    assert_eq!(
        segments(&ctx, id),
        vec!["Test".to_string(), "Int".to_string(), "double".to_string()]
    );
}

#[test]
fn qualified_name_of_subscript_and_getter() {
    let s = node(SymbolKind::Struct, "Array", Some(module("Test")));
    let mut sub = node(SymbolKind::Subscript, "subscript", Some(s));
    sub.subscript = Some(vec![param(Some("index"), "i", false, SemTy::Int(IntBits::I64))]);
    let mut ctx = LoweringContext::new();
    let id = qualified_name_for_symbol(&mut ctx, &sub);
    assert_eq!(
        segments(&ctx, id),
        vec!["Test".to_string(), "Array".to_string(), "subscript$index".to_string()]
    );
    let s2 = node(SymbolKind::Struct, "Point", Some(module("Test")));
    let getter = node(SymbolKind::Getter, "get:x", Some(s2));
    let id2 = qualified_name_for_symbol(&mut ctx, &getter);
    assert_eq!(
        segments(&ctx, id2),
        vec!["Test".to_string(), "Point".to_string(), "get:x".to_string()]
    );
}

#[test]
fn struct_init_name_and_parts() {
    let s = node(SymbolKind::Struct, "Point", Some(module("Test")));
    let mut ctx = LoweringContext::new();
    let id = qualified_name_for_struct_init(&mut ctx, &s);
    assert_eq!(
        segments(&ctx, id),
        vec!["Test".to_string(), "Point".to_string(), "init".to_string()]
    );
    let id2 = qualified_name_from_parts(&mut ctx, &["Test", "Point", "init"]);
    assert_eq!(id2, id);
    let id3 = qualified_name_from_parts(&mut ctx, &["__kestrel_init_statics"]);
    assert_ne!(id3, id);
    assert_eq!(ctx.mir.names.len(), 2);
}
