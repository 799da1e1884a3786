//! The fields of the `FormatOptions` value that a format specification of a string
//! interpolation (`\(value:spec)`) stands for.

use vstd::prelude::*;

use crate::call_args::{a_name, a_stmt, a_temp, a_type, args_frame, args_state, ArgsState};
use crate::context::LoweringContext;
use crate::let_pattern::emitting;
use crate::mir::{
    name_pos, type_pos, Immediate, ImmediateV, LocalId, MirTy, NameId, Place, PlaceV, Rvalue, RvalueV, StmtV, TyId,
    Value, ValueV,
};
use crate::sem::IntBits;
use crate::text::{owned, string_views};

verus! {

/// How a formatted value is aligned in its width.
#[derive(Clone, Copy, PartialEq, Eq, Debug, Structural)]
pub enum FormatAlignment {
    Left,
    Right,
    Center,
}

/// When a number gets a sign.
#[derive(Clone, Copy, PartialEq, Eq, Debug, Structural)]
pub enum SignMode {
    /// Only negative numbers.
    Negative,
    /// Always.
    Always,
    /// A space in place of a plus sign.
    Space,
}

/// The presentation a format specification asks for.
#[derive(Clone, Copy, PartialEq, Eq, Debug, Structural)]
pub enum FormatType {
    /// The plain presentation.
    Display,
    Debug,
    Binary,
    Octal,
    Hex,
    HexUpper,
    Fixed,
    Scientific,
    ScientificUpper,
    Percent,
}

/// A parsed format specification.
#[derive(Clone, Copy, PartialEq, Eq, Debug, Structural)]
pub struct FormatSpec {
    pub fill: char,
    pub alignment: FormatAlignment,
    pub sign: SignMode,
    pub alternate: bool,
    pub width: Option<usize>,
    pub precision: Option<usize>,
    pub format_type: FormatType,
}

/// The views of named field values.
pub open spec fn fields_view(fs: Seq<(String, Value)>) -> Seq<(Seq<char>, ValueV)> {
    fs.map_values(|f: (String, Value)| (f.0@, f.1@))
}

/// The radix of a presentation: 2, 8 or 16 for binary, octal and hexadecimal, 10
/// otherwise.
pub open spec fn radix_of(t: FormatType) -> i64 {
    match t {
        FormatType::Binary => 2,
        FormatType::Octal => 8,
        FormatType::Hex | FormatType::HexUpper => 16,
        _ => 10,
    }
}

/// The `Alignment` variant of an alignment.
pub open spec fn alignment_variant(a: FormatAlignment) -> Seq<char> {
    match a {
        FormatAlignment::Left => "Left"@,
        FormatAlignment::Right => "Right"@,
        FormatAlignment::Center => "Center"@,
    }
}

/// The `Sign` variant of a sign mode.
pub open spec fn sign_variant(m: SignMode) -> Seq<char> {
    match m {
        SignMode::Negative => "Negative"@,
        SignMode::Always => "Always"@,
        SignMode::Space => "Space"@,
    }
}

/// The `FloatStyle` variant of a presentation: `Auto` for any that is not a float
/// style.
pub open spec fn float_style_variant(t: FormatType) -> Seq<char> {
    match t {
        FormatType::Fixed => "Fixed"@,
        FormatType::Scientific => "Scientific"@,
        FormatType::ScientificUpper => "ScientificUpper"@,
        FormatType::Percent => "Percent"@,
        _ => "Auto"@,
    }
}

/// `rv` assigned to local `dest` in the current block.
pub open spec fn put(s: ArgsState, dest: nat, rv: RvalueV) -> ArgsState {
    a_stmt(s, StmtV::Assign { dest: PlaceV::Local(LocalId(dest as usize)), rvalue: rv })
}

/// An optional number as a value of type `opt_ty` (`Optional[Int64]`) in a new
/// temporary: `{prefix}_some` holding `Some` of it, or `{prefix}_none` holding `None`.
pub open spec fn optional_field(s: ArgsState, prefix: Seq<char>, v: Option<usize>, opt_ty: TyId) -> (ArgsState, ValueV) {
    let n = s.w.locals.len();
    let s1 = match v {
        Some(x) => put(
            a_temp(s, prefix + "_some"@, opt_ty),
            n,
            RvalueV::EnumVariant {
                enum_ty: opt_ty,
                variant: "Some"@,
                payload: seq![ValueV::Immediate(ImmediateV::Int(IntBits::I64, x as i64))],
            },
        ),
        None => put(
            a_temp(s, prefix + "_none"@, opt_ty),
            n,
            RvalueV::EnumVariant { enum_ty: opt_ty, variant: "None"@, payload: Seq::empty() },
        ),
    };
    (s1, ValueV::Place(PlaceV::Local(LocalId(n as usize))))
}

/// A variant without payload of the enum `std.text.{enum_name}` in a new temporary
/// `temp`: the enum's name and type are interned, then the variant assigned.
pub open spec fn variant_field(s: ArgsState, enum_name: Seq<char>, temp: Seq<char>, variant: Seq<char>) -> (ArgsState, ValueV) {
    let segs = seq!["std"@, "text"@, enum_name];
    let name = NameId(name_pos(s.names, segs) as usize);
    let s1 = a_name(s, segs);
    let ty = TyId(type_pos(s1.w.types, MirTy::Named(name)) as usize);
    let s2 = a_type(s1, MirTy::Named(name));
    let n = s2.w.locals.len();
    (
        put(a_temp(s2, temp, ty), n, RvalueV::EnumVariant { enum_ty: ty, variant, payload: Seq::empty() }),
        ValueV::Place(PlaceV::Local(LocalId(n as usize))),
    )
}

/// What building the `FormatOptions` fields of a specification emits, and the
/// fields, in order: `width` and `precision` as `Optional[Int64]` values (the type
/// `std.result.Optional` applied to `Int64`, interned after `Int64`), `alignment`
/// as an `Alignment` variant, `fill` as the fill character's code (a 32-bit
/// constant; the other numbers are 64-bit), `radix`,
/// `uppercase` (upper-case hexadecimal), `sign` as a `Sign` variant, `alternate`,
/// `floatStyle` as a `FloatStyle` variant, and `debug` (the debug presentation).
pub open spec fn format_fields(s: ArgsState, spec: FormatSpec) -> (ArgsState, Seq<(Seq<char>, ValueV)>) {
    let i64_ty = TyId(type_pos(s.w.types, MirTy::Int(IntBits::I64)) as usize);
    let s1 = a_type(s, MirTy::Int(IntBits::I64));
    let opt_segs = seq!["std"@, "result"@, "Optional"@];
    let opt = NameId(name_pos(s1.names, opt_segs) as usize);
    let s2 = a_name(s1, opt_segs);
    let opt_ty = TyId(type_pos(s2.w.types, MirTy::Applied(opt, i64_ty)) as usize);
    let s3 = a_type(s2, MirTy::Applied(opt, i64_ty));
    let (s4, width) = optional_field(s3, "width"@, spec.width, opt_ty);
    let (s5, precision) = optional_field(s4, "precision"@, spec.precision, opt_ty);
    let (s6, alignment) = variant_field(s5, "Alignment"@, "alignment"@, alignment_variant(spec.alignment));
    let (s7, sign) = variant_field(s6, "Sign"@, "sign"@, sign_variant(spec.sign));
    let (s8, float_style) = variant_field(s7, "FloatStyle"@, "float_style"@, float_style_variant(spec.format_type));
    (
        s8,
        seq![
            ("width"@, width),
            ("precision"@, precision),
            ("alignment"@, alignment),
            ("fill"@, ValueV::Immediate(ImmediateV::Int(IntBits::I32, spec.fill as u32 as i32 as i64))),
            ("radix"@, ValueV::Immediate(ImmediateV::Int(IntBits::I64, radix_of(spec.format_type)))),
            ("uppercase"@, ValueV::Immediate(ImmediateV::Bool(spec.format_type == FormatType::HexUpper))),
            ("sign"@, sign),
            ("alternate"@, ValueV::Immediate(ImmediateV::Bool(spec.alternate))),
            ("floatStyle"@, float_style),
            ("debug"@, ValueV::Immediate(ImmediateV::Bool(spec.format_type == FormatType::Debug))),
        ],
    )
}

/// The statement `st` assigns to the place of `target` the variant named `variant`,
/// without payload.
pub open spec fn assigns_variant(st: StmtV, target: ValueV, variant: Seq<char>) -> bool {
    match st {
        StmtV::Assign { dest, rvalue: RvalueV::EnumVariant { variant: v, payload, .. } } => {
            &&& target == ValueV::Place(dest)
            &&& v == variant
            &&& payload.len() == 0
        },
        _ => false,
    }
}

/// Building the format options of a specification appends five assignments to the
/// current block and keeps what it held: the width, the precision, then the
/// alignment, the sign and the float style. The `alignment`, `sign` and
/// `floatStyle` fields are the temporaries of the last three, each assigned the
/// variant that bears the name of what the specification asks for (left-aligned
/// text is `Left`, a sign on every number is `Always`, scientific notation is
/// `Scientific`, and a presentation that is no float style is `Auto`).
pub proof fn law_format_options_follow_the_specification(s: ArgsState, spec: FormatSpec)
    requires
        s.w.cur < s.w.blocks.len(),
    ensures
        ({
            let out = format_fields(s, spec).0;
            let fields = format_fields(s, spec).1;
            let before = s.w.blocks[s.w.cur as int].statements;
            let after = out.w.blocks[s.w.cur as int].statements;
            let n = before.len() as int;
            &&& out.w.cur == s.w.cur
            &&& after.len() == n + 5
            &&& after.subrange(0, n) == before
            &&& fields[2].0 == "alignment"@
            &&& fields[6].0 == "sign"@
            &&& fields[8].0 == "floatStyle"@
            &&& spec.alignment == FormatAlignment::Left ==> assigns_variant(after[n + 2], fields[2].1, "Left"@)
            &&& spec.alignment == FormatAlignment::Right ==> assigns_variant(after[n + 2], fields[2].1, "Right"@)
            &&& spec.alignment == FormatAlignment::Center ==> assigns_variant(after[n + 2], fields[2].1, "Center"@)
            &&& spec.sign == SignMode::Negative ==> assigns_variant(after[n + 3], fields[6].1, "Negative"@)
            &&& spec.sign == SignMode::Always ==> assigns_variant(after[n + 3], fields[6].1, "Always"@)
            &&& spec.sign == SignMode::Space ==> assigns_variant(after[n + 3], fields[6].1, "Space"@)
            &&& spec.format_type == FormatType::Fixed ==> assigns_variant(after[n + 4], fields[8].1, "Fixed"@)
            &&& spec.format_type == FormatType::Scientific ==> assigns_variant(after[n + 4], fields[8].1, "Scientific"@)
            &&& spec.format_type == FormatType::ScientificUpper ==> assigns_variant(
                after[n + 4],
                fields[8].1,
                "ScientificUpper"@,
            )
            &&& spec.format_type == FormatType::Percent ==> assigns_variant(after[n + 4], fields[8].1, "Percent"@)
            &&& !(spec.format_type == FormatType::Fixed || spec.format_type == FormatType::Scientific
                || spec.format_type == FormatType::ScientificUpper || spec.format_type == FormatType::Percent)
                ==> assigns_variant(after[n + 4], fields[8].1, "Auto"@)
        }),
{
    let c = s.w.cur as int;
    let n = s.w.blocks[c].statements.len() as int;
    let i64_ty = TyId(type_pos(s.w.types, MirTy::Int(IntBits::I64)) as usize);
    let s1 = a_type(s, MirTy::Int(IntBits::I64));
    let opt_segs = seq!["std"@, "result"@, "Optional"@];
    let opt = NameId(name_pos(s1.names, opt_segs) as usize);
    let s2 = a_name(s1, opt_segs);
    let opt_ty = TyId(type_pos(s2.w.types, MirTy::Applied(opt, i64_ty)) as usize);
    let s3 = a_type(s2, MirTy::Applied(opt, i64_ty));
    assert(s3.w.blocks == s.w.blocks && s3.w.cur == s.w.cur);
    let s4 = optional_field(s3, "width"@, spec.width, opt_ty).0;
    assert(s4.w.cur == s.w.cur && s4.w.blocks.len() == s.w.blocks.len());
    assert(s4.w.blocks[c].statements == s.w.blocks[c].statements.push(s4.w.blocks[c].statements[n]));
    let s5 = optional_field(s4, "precision"@, spec.precision, opt_ty).0;
    assert(s5.w.cur == s.w.cur && s5.w.blocks.len() == s.w.blocks.len());
    assert(s5.w.blocks[c].statements.len() == n + 2);
    assert(s5.w.blocks[c].statements.subrange(0, n) =~= s.w.blocks[c].statements);
    let r6 = variant_field(s5, "Alignment"@, "alignment"@, alignment_variant(spec.alignment));
    let s6 = r6.0;
    assert(s6.w.cur == s.w.cur && s6.w.blocks.len() == s.w.blocks.len());
    assert(s6.w.blocks[c].statements.len() == n + 3);
    assert(assigns_variant(s6.w.blocks[c].statements[n + 2], r6.1, alignment_variant(spec.alignment)));
    assert(s6.w.blocks[c].statements.subrange(0, n) =~= s.w.blocks[c].statements);
    let r7 = variant_field(s6, "Sign"@, "sign"@, sign_variant(spec.sign));
    let s7 = r7.0;
    assert(s7.w.cur == s.w.cur && s7.w.blocks.len() == s.w.blocks.len());
    assert(s7.w.blocks[c].statements.len() == n + 4);
    assert(s7.w.blocks[c].statements[n + 2] == s6.w.blocks[c].statements[n + 2]);
    assert(assigns_variant(s7.w.blocks[c].statements[n + 3], r7.1, sign_variant(spec.sign)));
    assert(s7.w.blocks[c].statements.subrange(0, n) =~= s.w.blocks[c].statements);
    let r8 = variant_field(s7, "FloatStyle"@, "float_style"@, float_style_variant(spec.format_type));
    let s8 = r8.0;
    assert(s8.w.cur == s.w.cur && s8.w.blocks.len() == s.w.blocks.len());
    assert(s8.w.blocks[c].statements.len() == n + 5);
    assert(s8.w.blocks[c].statements[n + 2] == s6.w.blocks[c].statements[n + 2]);
    assert(s8.w.blocks[c].statements[n + 3] == s7.w.blocks[c].statements[n + 3]);
    assert(assigns_variant(s8.w.blocks[c].statements[n + 4], r8.1, float_style_variant(spec.format_type)));
    assert(s8.w.blocks[c].statements.subrange(0, n) =~= s.w.blocks[c].statements);
}

impl LoweringContext {
    /// Interns a name of three parts (a step of building format options).
    fn fmt_name(&mut self, a: &str, b: &str, c: &str) -> (r: NameId)
        requires
            emitting(old(self)),
        ensures
            args_frame(old(self), final(self)),
            r.0 == name_pos(args_state(old(self)).names, seq![a@, b@, c@]),
            args_state(final(self)) == a_name(args_state(old(self)), seq![a@, b@, c@]),
    {
        let mut parts: Vec<String> = Vec::new();
        parts.push(owned(a));
        parts.push(owned(b));
        parts.push(owned(c));
        assert(string_views(parts@) =~= seq![a@, b@, c@]);
        self.mir.intern_name(parts)
    }
}

/// Builds an optional number field (see `optional_field`).
fn build_optional(ctx: &mut LoweringContext, prefix: &str, v: Option<usize>, opt_ty: TyId) -> (r: Value)
    requires
        emitting(old(ctx)),
        old(ctx).temp_count() < u32::MAX,
    ensures
        args_frame(old(ctx), final(ctx)),
        args_state(final(ctx)) == optional_field(args_state(old(ctx)), prefix@, v, opt_ty).0,
        r@ == optional_field(args_state(old(ctx)), prefix@, v, opt_ty).1,
{
    proof {
        reveal_strlit("_some");
        reveal_strlit("_none");
    }
    match v {
        Some(x) => {
            let mut name = owned(prefix);
            name.append("_some");
            let local = ctx.args_temp(name.as_str(), opt_ty);
            let mut payload: Vec<Value> = Vec::new();
            payload.push(Value::Immediate(Immediate::Int(IntBits::I64, x as i64)));
            proof {
                assert(crate::mir::values_view(payload@) =~= seq![ValueV::Immediate(ImmediateV::Int(IntBits::I64, x as i64))]);
            }
            ctx.args_assign(local, Rvalue::EnumVariant { enum_ty: opt_ty, variant: owned("Some"), payload });
            Value::Place(Place::local(local))
        },
        None => {
            let mut name = owned(prefix);
            name.append("_none");
            let local = ctx.args_temp(name.as_str(), opt_ty);
            let payload: Vec<Value> = Vec::new();
            proof {
                assert(crate::mir::values_view(payload@) =~= Seq::<ValueV>::empty());
            }
            ctx.args_assign(local, Rvalue::EnumVariant { enum_ty: opt_ty, variant: owned("None"), payload });
            Value::Place(Place::local(local))
        },
    }
}

/// Builds a variant field (see `variant_field`).
fn build_variant(ctx: &mut LoweringContext, enum_name: &str, temp: &str, variant: &str) -> (r: Value)
    requires
        emitting(old(ctx)),
        old(ctx).temp_count() < u32::MAX,
    ensures
        args_frame(old(ctx), final(ctx)),
        args_state(final(ctx)) == variant_field(args_state(old(ctx)), enum_name@, temp@, variant@).0,
        r@ == variant_field(args_state(old(ctx)), enum_name@, temp@, variant@).1,
{
    let name = ctx.fmt_name("std", "text", enum_name);
    let ty = ctx.prim_type(MirTy::Named(name));
    let local = ctx.args_temp(temp, ty);
    let payload: Vec<Value> = Vec::new();
    proof {
        assert(crate::mir::values_view(payload@) =~= Seq::<ValueV>::empty());
    }
    ctx.args_assign(local, Rvalue::EnumVariant { enum_ty: ty, variant: owned(variant), payload });
    Value::Place(Place::local(local))
}

/// The fields of the `FormatOptions` value for a format specification, with the
/// temporaries that hold its optional and enum fields emitted in the current block
/// (see `format_fields`).
pub fn build_format_options_fields(ctx: &mut LoweringContext, spec: &FormatSpec) -> (r: Vec<(String, Value)>)
    requires
        emitting(old(ctx)),
        old(ctx).temp_count() + 5 <= u32::MAX,
    ensures
        args_frame(old(ctx), final(ctx)),
        args_state(final(ctx)) == format_fields(args_state(old(ctx)), *spec).0,
        fields_view(r@) == format_fields(args_state(old(ctx)), *spec).1,
{
    let i64_ty = ctx.prim_type(MirTy::Int(IntBits::I64));
    let optional = ctx.fmt_name("std", "result", "Optional");
    let opt_ty = ctx.prim_type(MirTy::Applied(optional, i64_ty));
    let width = build_optional(ctx, "width", spec.width, opt_ty);
    let precision = build_optional(ctx, "precision", spec.precision, opt_ty);
    let alignment_name = match spec.alignment {
        FormatAlignment::Left => "Left",
        FormatAlignment::Right => "Right",
        FormatAlignment::Center => "Center",
    };
    let alignment = build_variant(ctx, "Alignment", "alignment", alignment_name);
    let radix: i64 = match spec.format_type {
        FormatType::Binary => 2,
        FormatType::Octal => 8,
        FormatType::Hex | FormatType::HexUpper => 16,
        _ => 10,
    };
    let uppercase = spec.format_type == FormatType::HexUpper;
    let sign_name = match spec.sign {
        SignMode::Negative => "Negative",
        SignMode::Always => "Always",
        SignMode::Space => "Space",
    };
    let sign = build_variant(ctx, "Sign", "sign", sign_name);
    let float_style_name = match spec.format_type {
        FormatType::Fixed => "Fixed",
        FormatType::Scientific => "Scientific",
        FormatType::ScientificUpper => "ScientificUpper",
        FormatType::Percent => "Percent",
        _ => "Auto",
    };
    let float_style = build_variant(ctx, "FloatStyle", "float_style", float_style_name);
    let debug = spec.format_type == FormatType::Debug;
    let fill = spec.fill as u32 as i32 as i64;
    let mut fields: Vec<(String, Value)> = Vec::new();
    fields.push((owned("width"), width));
    fields.push((owned("precision"), precision));
    fields.push((owned("alignment"), alignment));
    fields.push((owned("fill"), Value::Immediate(Immediate::Int(IntBits::I32, fill))));
    fields.push((owned("radix"), Value::Immediate(Immediate::Int(IntBits::I64, radix))));
    fields.push((owned("uppercase"), Value::Immediate(Immediate::Bool(uppercase))));
    fields.push((owned("sign"), sign));
    fields.push((owned("alternate"), Value::Immediate(Immediate::Bool(spec.alternate))));
    fields.push((owned("floatStyle"), float_style));
    fields.push((owned("debug"), Value::Immediate(Immediate::Bool(debug))));
    proof {
        assert(fields_view(fields@) =~= format_fields(args_state(old(ctx)), *spec).1);
    }
    fields
}

} // verus!
