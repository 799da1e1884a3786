use kestrel_execution_graph_lowering::context::LoweringContext;
use kestrel_execution_graph_lowering::format_options::{
    build_format_options_fields, FormatAlignment, FormatSpec, FormatType, SignMode,
};
use kestrel_execution_graph_lowering::mir::{BlockId, MirTy};

fn in_block() -> (LoweringContext, BlockId) {
    let mut ctx = LoweringContext::new();
    let name = ctx.mir.intern_name_parts(&["Test", "f"]);
    let unit = ctx.mir.ty_unit();
    let f = ctx.mir.add_function(name, unit);
    ctx.enter_function(f);
    let b = ctx.create_block();
    ctx.set_current_block(b);
    (ctx, b)
}

fn spec(width: Option<usize>, format_type: FormatType) -> FormatSpec {
    FormatSpec {
        fill: '*',
        alignment: FormatAlignment::Center,
        sign: SignMode::Always,
        alternate: true,
        width,
        precision: None,
        format_type,
    }
}

#[test]
fn format_options_fields_in_order() {
    let (mut ctx, b) = in_block();
    let first = ctx.mir.locals.len();
    let fields = build_format_options_fields(&mut ctx, &spec(Some(8), FormatType::HexUpper));
    let names: Vec<&str> = fields.iter().map(|f| f.0.as_str()).collect();
    assert_eq!(
        names,
        vec!["width", "precision", "alignment", "fill", "radix", "uppercase", "sign", "alternate", "floatStyle", "debug"]
    );
    let values: Vec<String> = fields.iter().map(|f| format!("{:?}", f.1)).collect();
    assert_eq!(values[0], format!("Place(Local(LocalId({})))", first));
    assert_eq!(values[1], format!("Place(Local(LocalId({})))", first + 1));
    assert_eq!(values[3], "Immediate(Int(I32, 42))");
    assert_eq!(values[4], "Immediate(Int(I64, 16))");
    assert_eq!(values[5], "Immediate(Bool(true))");
    assert_eq!(values[7], "Immediate(Bool(true))");
    assert_eq!(values[9], "Immediate(Bool(false))");
    let locals: Vec<&str> = ctx.mir.locals[first..].iter().map(|l| l.name.as_str()).collect();
    assert_eq!(locals, vec!["width_some_0", "precision_none_1", "alignment_2", "sign_3", "float_style_4"]);
    let opt_ty = ctx.mir.locals[first].ty;
    let optional = ctx.mir.intern_name_parts(&["std", "result", "Optional"]);
    let i64_ty = ctx.mir.ty_i64();
    assert_eq!(ctx.mir.types[opt_ty.0], MirTy::Applied(optional, i64_ty));
    let s: Vec<String> = ctx.mir.blocks[b.0].statements.iter().map(|s| format!("{:?}", s)).collect();
    assert_eq!(s.len(), 5);
    assert!(s[0].contains("EnumVariant") && s[0].contains("variant: \"Some\", payload: [Immediate(Int(I64, 8))]"));
    assert!(s[1].contains("variant: \"None\", payload: []"));
    assert!(s[2].contains("variant: \"Center\""));
    assert!(s[3].contains("variant: \"Always\""));
    assert!(s[4].contains("variant: \"Auto\""));
}

#[test]
fn radix_float_style_and_debug_follow_the_presentation() {
    let cases = [
        (FormatType::Binary, "2", "Auto", "false"),
        (FormatType::Octal, "8", "Auto", "false"),
        (FormatType::Hex, "16", "Auto", "false"),
        (FormatType::Display, "10", "Auto", "false"),
        (FormatType::Debug, "10", "Auto", "true"),
        (FormatType::Fixed, "10", "Fixed", "false"),
        (FormatType::Scientific, "10", "Scientific", "false"),
        (FormatType::ScientificUpper, "10", "ScientificUpper", "false"),
        (FormatType::Percent, "10", "Percent", "false"),
    ];
    for (t, radix, style, debug) in cases {
        let (mut ctx, b) = in_block();
        let fields = build_format_options_fields(&mut ctx, &spec(None, t));
        assert_eq!(format!("{:?}", fields[4].1), format!("Immediate(Int(I64, {}))", radix));
        assert_eq!(format!("{:?}", fields[5].1), "Immediate(Bool(false))");
        assert_eq!(format!("{:?}", fields[9].1), format!("Immediate(Bool({}))", debug));
        let last = format!("{:?}", ctx.mir.blocks[b.0].statements[4]);
        assert!(last.contains(&format!("variant: \"{}\"", style)));
    }
}
