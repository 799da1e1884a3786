use kestrel_execution_graph_lowering::context::LoweringContext;
use kestrel_execution_graph_lowering::error::{Severity, Span};
use kestrel_execution_graph_lowering::format_options::{FormatAlignment, FormatSpec, FormatType, SignMode};
use kestrel_execution_graph_lowering::interpolation::{
    append_literal, append_value, begin_interpolation, begin_part, finish_interpolation, intern_interpolation_method,
    interpolation_counts, report_interpolation_lookup, InterpolationLookup, InterpolationPart, OptionsSource,
};
use kestrel_execution_graph_lowering::mir::{BlockId, Immediate, LocalId, MirTy, Place, Value};
use kestrel_execution_graph_lowering::sem::{SymbolKind, SymbolNode};

fn node(kind: SymbolKind, name: &str, parent: Option<SymbolNode>) -> SymbolNode {
    SymbolNode {
        kind,
        name: name.to_string(),
        parent: parent.map(Box::new),
        callable: None,
        subscript: None,
        extension_target: None,
        is_static: false,
        is_namespace_scope: false,
        is_computed: false,
    }
}

fn dsi_symbol() -> SymbolNode {
    let root = node(SymbolKind::Module, "<root>", None);
    let mut std_mod = node(SymbolKind::Module, "std", Some(root));
    std_mod.is_namespace_scope = true;
    let mut text = node(SymbolKind::Module, "text", Some(std_mod));
    text.is_namespace_scope = true;
    node(SymbolKind::Struct, "DefaultStringInterpolation", Some(text))
}

fn in_block() -> (LoweringContext, BlockId) {
    let mut ctx = LoweringContext::new();
    let name = ctx.mir.intern_name_parts(&["Test", "f"]);
    let unit = ctx.mir.ty_unit();
    let f = ctx.mir.add_function(name, unit);
    ctx.enter_function(f);
    let b = ctx.create_block();
    ctx.set_current_block(b);
    (ctx, b)
}

fn stmts(ctx: &LoweringContext, b: BlockId) -> Vec<String> {
    ctx.mir.blocks[b.0].statements.iter().map(|s| format!("{:?}", s)).collect()
}

#[test]
fn counts_of_parts() {
    let parts = vec![
        InterpolationPart::Literal("Hé ".to_string()),
        InterpolationPart::Interpolation,
        InterpolationPart::Literal("!".to_string()),
        InterpolationPart::Interpolation,
    ];
    assert_eq!(interpolation_counts(&parts), (5, 2));
    assert_eq!(interpolation_counts(&Vec::new()), (0, 0));
}

#[test]
fn failed_lookups_are_internal_errors() {
    let (mut ctx, _) = in_block();
    let span = Span { file_id: 1, start: 2, end: 9 };
    assert!(report_interpolation_lookup(&mut ctx, &InterpolationLookup::Found(dsi_symbol()), span).is_none());
    let v = report_interpolation_lookup(&mut ctx, &InterpolationLookup::NotRegistered, span);
    assert!(matches!(v, Some(Value::Immediate(Immediate::Error))));
    let v = report_interpolation_lookup(&mut ctx, &InterpolationLookup::SymbolMissing, span);
    assert!(matches!(v, Some(Value::Immediate(Immediate::Error))));
    assert_eq!(ctx.diagnostics.len(), 2);
    assert_eq!(ctx.diagnostics[0].severity, Severity::Bug);
    assert_eq!(
        ctx.diagnostics[0].message,
        "internal lowering error: DefaultStringInterpolation not found in builtin registry"
    );
    assert_eq!(ctx.diagnostics[1].message, "internal lowering error: DefaultStringInterpolation symbol not found");
    assert_eq!(ctx.diagnostics[1].labels[0].start, 2);
}

#[test]
fn interpolated_string_is_built_part_by_part() {
    let (mut ctx, b) = in_block();
    let dsi_name = ctx.mir.intern_name_parts(&["std", "text", "DefaultStringInterpolation"]);
    let dsi_ty = ctx.mir.intern_type(MirTy::Named(dsi_name));
    let string_name = ctx.mir.intern_name_parts(&["std", "text", "String"]);
    let string_ty = ctx.mir.intern_type(MirTy::Named(string_name));
    let first = ctx.mir.locals.len();
    let st = begin_interpolation(&mut ctx, &dsi_symbol(), dsi_ty, 4, 1);
    assert_eq!(st.dsi, LocalId(first));
    assert_eq!(ctx.mir.locals[first].name, "interpolation_0");
    assert_eq!(ctx.mir.locals[first + 1].name, "interp_ref_1");
    assert_eq!(ctx.mir.locals[first + 2].name, "init_ret_2");
    assert_eq!(st.segments, vec!["std", "text", "DefaultStringInterpolation"]);
    let init = ctx.mir.intern_name_parts(&["std", "text", "DefaultStringInterpolation", "init$literalCapacity$interpolationCount"]);
    let s = stmts(&ctx, b);
    assert_eq!(s[0], format!("Assign {{ dest: Local(LocalId({})), rvalue: RefMut(Local(LocalId({}))) }}", first + 1, first));
    assert_eq!(
        s[1],
        format!(
            "Assign {{ dest: Local(LocalId({})), rvalue: Call {{ callee: Direct {{ name: {:?}, type_args: [] }}, args: [CallArg {{ value: Place(Local(LocalId({}))), mode: MutRef }}, CallArg {{ value: Immediate(Int(I64, 4)), mode: Ref }}, CallArg {{ value: Immediate(Int(I64, 1)), mode: Ref }}] }} }}",
            first + 2, init, first + 1
        )
    );

    // "Hi "
    let part = begin_part(&mut ctx, &st);
    let append = intern_interpolation_method(&mut ctx, &st, "appendLiteral$literal");
    append_literal(&mut ctx, &st, part, append, &"Hi ".to_string(), string_ty);
    let s = stmts(&ctx, b);
    assert_eq!(s.len(), 2 + 1 + 4);
    assert!(s[4].contains("Immediate(StrPtr(\"Hi \"))") && s[4].contains("Immediate(Int(I64, 3))"));
    assert!(s[6].contains(&format!("{:?}", append)));

    // \(x) with default options
    let part2 = begin_part(&mut ctx, &st);
    let append2 = intern_interpolation_method(&mut ctx, &st, "appendInterpolation$value");
    let x_ty = ctx.mir.ty_bool();
    let before = ctx.mir.locals.len();
    append_value(&mut ctx, &st, part2, append2, Value::Place(Place::local(LocalId(0))), x_ty, &OptionsSource::Default);
    let names: Vec<&str> = ctx.mir.locals[before..].iter().map(|l| l.name.as_str()).collect();
    assert_eq!(names.len(), 4);
    assert!(names[0].starts_with("interp_ref_") && names[1].starts_with("format_opts_"));
    let s = stmts(&ctx, b);
    assert!(s[s.len() - 1].contains("type_args: [") && s[s.len() - 1].contains(&format!("{:?}", x_ty)));
    assert!(s[s.len() - 3].contains("FormatOptions") || s[s.len() - 3].contains("Call"));

    // \(y) with parsed options and an immediate value
    let part3 = begin_part(&mut ctx, &st);
    let before = ctx.mir.locals.len();
    let spec = FormatSpec {
        fill: ' ',
        alignment: FormatAlignment::Left,
        sign: SignMode::Negative,
        alternate: false,
        width: Some(4),
        precision: None,
        format_type: FormatType::Hex,
    };
    append_value(&mut ctx, &st, part3, append2, Value::Immediate(Immediate::Int(kestrel_execution_graph_lowering::sem::IntBits::I64, 7)), x_ty, &OptionsSource::Parsed(spec));
    let names: Vec<&str> = ctx.mir.locals[before..].iter().map(|l| l.name.as_str()).collect();
    assert!(names[0].starts_with("interp_ref_") && names[1].starts_with("interp_temp_"));
    assert!(names[2].starts_with("format_opts_") && names[3].starts_with("width_some_"));
    assert!(names.last().unwrap().starts_with("append_ret_"));
    let s = stmts(&ctx, b);
    assert!(s.iter().any(|t| t.contains("Construct")));

    // an unreachable value gets only its reference
    let before = ctx.mir.locals.len();
    let count = stmts(&ctx, b).len();
    append_value(&mut ctx, &st, part3, append2, Value::Unreachable, x_ty, &OptionsSource::Default);
    assert_eq!(ctx.mir.locals.len(), before + 1);
    assert_eq!(stmts(&ctx, b).len(), count);

    let result_first = ctx.mir.locals.len();
    let v = finish_interpolation(&mut ctx, &st, string_ty);
    assert_eq!(format!("{:?}", v), format!("Place(Local(LocalId({})))", result_first + 1));
    assert_eq!(ctx.mir.locals[result_first + 1].ty, string_ty);
    let build = ctx.mir.intern_name_parts(&["std", "text", "DefaultStringInterpolation", "build"]);
    let s = stmts(&ctx, b);
    assert!(s.last().unwrap().contains(&format!("{:?}", build)));
}
