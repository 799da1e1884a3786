//! Interpolated strings (`"Hello \(name)!"`) lowered through the standard library's
//! `DefaultStringInterpolation`: an instance is initialized with the literal
//! capacity and the number of interpolations, each part is appended (a literal as a
//! `String`, an interpolated value by reference with its `FormatOptions`), and
//! `build` gives the string.
//!
//! The parts' expressions and the types are lowered between the steps here, in the
//! order the steps' documentation gives.

use vstd::prelude::*;

use crate::call_args::{a_name, a_stmt, a_temp, a_type, args_frame, args_state, ArgsState};
use crate::context::LoweringContext;
use crate::error::Span;
use crate::format_options::{build_format_options_fields, format_fields, put, FormatSpec};
use crate::let_pattern::emitting;
use crate::mir::{
    name_pos, type_pos, CallArg, CallArgV, Callee, CalleeV, Immediate, ImmediateV, LocalId, MirTy, NameId, PassingMode,
    Place, PlaceV, Rvalue, RvalueV, StmtV, TyId, Value, ValueV,
};
use crate::name::name_segments;
use crate::primitive::a_report;
use crate::sem::{IntBits, SymbolNode};
use crate::text::{copy_strings, owned, string_views};

verus! {

/// A part of an interpolated string as the counting of parts reads it: a literal
/// with its text, or an interpolated expression.
#[derive(Debug)]
pub enum InterpolationPart {
    Literal(String),
    Interpolation,
}

/// The number of UTF-8 bytes of a text, as `len` gives it.
pub open spec fn byte_len(t: Seq<char>) -> int {
    (vstd::utf8::encode_utf8(t).len() as usize) as int
}

/// The number of UTF-8 bytes of the literal parts.
pub open spec fn literal_bytes(parts: Seq<InterpolationPart>) -> int
    decreases parts.len(),
{
    if parts.len() == 0 {
        0
    } else {
        literal_bytes(parts.drop_last()) + match parts.last() {
            InterpolationPart::Literal(t) => byte_len(t@),
            InterpolationPart::Interpolation => 0,
        }
    }
}

/// The number of interpolated parts.
pub open spec fn interpolation_count(parts: Seq<InterpolationPart>) -> int
    decreases parts.len(),
{
    if parts.len() == 0 {
        0
    } else {
        interpolation_count(parts.drop_last()) + if parts.last() is Interpolation {
            1int
        } else {
            0int
        }
    }
}

proof fn lemma_counts_monotone(parts: Seq<InterpolationPart>, i: int)
    requires
        0 <= i <= parts.len(),
    ensures
        0 <= literal_bytes(parts.take(i)) <= literal_bytes(parts),
        0 <= interpolation_count(parts.take(i)) <= interpolation_count(parts),
        interpolation_count(parts) <= parts.len(),
    decreases parts.len(),
{
    if parts.len() > 0 {
        if i == parts.len() {
            assert(parts.take(i) =~= parts);
            lemma_counts_monotone(parts.drop_last(), i - 1);
            assert(parts.drop_last().take(i - 1) =~= parts.take(i - 1));
        } else {
            assert(parts.drop_last().take(i) =~= parts.take(i));
            lemma_counts_monotone(parts.drop_last(), i);
        }
    }
}

/// The capacity hints of an interpolated string: the number of bytes of its
/// literal parts and the number of its interpolated parts.
pub fn interpolation_counts(parts: &Vec<InterpolationPart>) -> (r: (i64, i64))
    requires
        literal_bytes(parts@) <= i64::MAX,
        parts@.len() <= i64::MAX,
    ensures
        r.0 == literal_bytes(parts@),
        r.1 == interpolation_count(parts@),
{
    let mut bytes: i64 = 0;
    let mut count: i64 = 0;
    let mut i: usize = 0;
    assert(parts@.take(0) =~= Seq::<InterpolationPart>::empty());
    while i < parts.len()
        invariant
            i <= parts@.len(),
            literal_bytes(parts@) <= i64::MAX,
            parts@.len() <= i64::MAX,
            0 <= bytes,
            0 <= count <= i,
            bytes == literal_bytes(parts@.take(i as int)),
            count == interpolation_count(parts@.take(i as int)),
        decreases parts.len() - i,
    {
        proof {
            lemma_counts_monotone(parts@, i + 1);
            lemma_counts_monotone(parts@.take(i + 1), i + 1);
            assert(parts@.take(i + 1).drop_last() =~= parts@.take(i as int));
            assert(parts@.take(i + 1).last() == parts@[i as int]);
        }
        match &parts[i] {
            InterpolationPart::Literal(text) => {
                let t = text.as_str();
                let len = t.len();
                proof {
                    assert(t@ == text@);
                    assert(len == byte_len(text@));
                    assert(literal_bytes(parts@.take(i + 1)) == bytes + len);
                }
                bytes = bytes + len as i64;
            },
            InterpolationPart::Interpolation => {
                count = count + 1;
            },
        }
        i = i + 1;
    }
    assert(parts@.take(parts@.len() as int) =~= parts@);
    (bytes, count)
}

// ---------------------------------------------------------------------------
// The emitted code
// ---------------------------------------------------------------------------

/// The outcome of looking up `DefaultStringInterpolation` in the builtin registry.
#[derive(Debug)]
pub enum InterpolationLookup {
    Found(SymbolNode),
    NotRegistered,
    SymbolMissing,
}

/// The call of `callee` with `args`, assigned to local `dest`.
pub open spec fn call_into(s: ArgsState, dest: nat, callee: CalleeV, args: Seq<CallArgV>) -> ArgsState {
    a_stmt(s, StmtV::Assign { dest: PlaceV::Local(LocalId(dest as usize)), rvalue: RvalueV::Call { callee, args } })
}

/// A place argument passed with `mode`.
pub open spec fn local_arg(l: nat, mode: PassingMode) -> CallArgV {
    CallArgV { value: ValueV::Place(PlaceV::Local(LocalId(l as usize))), mode }
}

/// A 64-bit integer argument passed by reference.
pub open spec fn int_arg(v: i64) -> CallArgV {
    CallArgV { value: ValueV::Immediate(ImmediateV::Int(IntBits::I64, v)), mode: PassingMode::Ref }
}

/// The start of an interpolated string for the `DefaultStringInterpolation` named
/// by `segs`, of lowered type `dsi_ty`: the instance `interpolation`, a mutable
/// reference `interp_ref` to it, and the call of its
/// `init$literalCapacity$interpolationCount` with the two counts into `init_ret`
/// (the unit type interned first).
pub open spec fn begin_code(s: ArgsState, segs: Seq<Seq<char>>, dsi_ty: TyId, capacity: i64, count: i64) -> ArgsState {
    let n = s.w.locals.len();
    let s1 = a_temp(s, "interpolation"@, dsi_ty);
    let rt = TyId(type_pos(s1.w.types, MirTy::RefMut(dsi_ty)) as usize);
    let s2 = put(a_temp(a_type(s1, MirTy::RefMut(dsi_ty)), "interp_ref"@, rt), n + 1, RvalueV::RefMut(PlaceV::Local(LocalId(n as usize))));
    let s3 = a_name(s2, segs);
    let init_segs = segs.push("init$literalCapacity$interpolationCount"@);
    let init = NameId(name_pos(s3.names, init_segs) as usize);
    let s4 = a_name(s3, init_segs);
    let ut = TyId(type_pos(s4.w.types, MirTy::Unit) as usize);
    let s5 = a_temp(a_type(s4, MirTy::Unit), "init_ret"@, ut);
    call_into(
        s5,
        n + 2,
        CalleeV::Direct { name: init, type_args: Seq::empty() },
        seq![local_arg(n + 1, PassingMode::MutRef), int_arg(capacity), int_arg(count)],
    )
}

/// The start of a part: a new mutable reference `part_ref` to the instance.
pub open spec fn part_code(s: ArgsState, dsi: LocalId, ref_ty: TyId) -> ArgsState {
    let n = s.w.locals.len();
    put(a_temp(s, "part_ref"@, ref_ty), n, RvalueV::RefMut(PlaceV::Local(dsi)))
}

/// A literal part after its `appendLiteral$literal` method (`append`) is interned
/// and the `String` type is lowered to `string_ty`: a `String` `literal_str`
/// initialized by `std.text.String.init$stringLiteral$length` (through a mutable
/// reference `string_ref`, into `str_init_ret`) from a pointer to the literal's
/// bytes and their number (`byte_len`), then borrowed (`string_borrow`) and appended (into
/// `append_ret`) through the part's reference.
pub open spec fn literal_code(
    s: ArgsState,
    part_ref: LocalId,
    append: NameId,
    text: Seq<char>,
    string_ty: TyId,
    unit_ty: TyId,
) -> ArgsState {
    let n = s.w.locals.len();
    let s1 = a_temp(s, "literal_str"@, string_ty);
    let srt = TyId(type_pos(s1.w.types, MirTy::RefMut(string_ty)) as usize);
    let s2 = put(
        a_temp(a_type(s1, MirTy::RefMut(string_ty)), "string_ref"@, srt),
        n + 1,
        RvalueV::RefMut(PlaceV::Local(LocalId(n as usize))),
    );
    let init_segs = seq!["std"@, "text"@, "String"@, "init$stringLiteral$length"@];
    let init = NameId(name_pos(s2.names, init_segs) as usize);
    let s3 = a_temp(a_name(s2, init_segs), "str_init_ret"@, unit_ty);
    let s4 = call_into(
        s3,
        n + 2,
        CalleeV::Direct { name: init, type_args: Seq::empty() },
        seq![
            local_arg(n + 1, PassingMode::MutRef),
            CallArgV { value: ValueV::Immediate(ImmediateV::StrPtr(text)), mode: PassingMode::Ref },
            int_arg(byte_len(text) as i64)
        ],
    );
    let sbt = TyId(type_pos(s4.w.types, MirTy::Ref(string_ty)) as usize);
    let s5 = put(
        a_temp(a_type(s4, MirTy::Ref(string_ty)), "string_borrow"@, sbt),
        n + 3,
        RvalueV::Ref(PlaceV::Local(LocalId(n as usize))),
    );
    let s6 = a_temp(s5, "append_ret"@, unit_ty);
    call_into(
        s6,
        n + 4,
        CalleeV::Direct { name: append, type_args: Seq::empty() },
        seq![local_arg(part_ref.0 as nat, PassingMode::MutRef), local_arg(n + 3, PassingMode::Ref)],
    )
}

/// Where the `FormatOptions` of an interpolated value come from: a parsed format
/// specification, or `FormatOptions.default()` (no specification, or one that did
/// not parse).
#[derive(Debug)]
pub enum OptionsSource {
    Parsed(FormatSpec),
    Default,
}

/// The reference `interp_ref` to an interpolated value of lowered type `ty` (an
/// immediate is first stored in `interp_temp`; an unreachable value gets only the
/// reference).
pub open spec fn value_ref_code(s: ArgsState, value: ValueV, ty: TyId) -> ArgsState {
    let n = s.w.locals.len();
    let irt = TyId(type_pos(s.w.types, MirTy::Ref(ty)) as usize);
    let s1 = a_temp(a_type(s, MirTy::Ref(ty)), "interp_ref"@, irt);
    match value {
        ValueV::Place(p) => put(s1, n, RvalueV::Ref(p)),
        ValueV::Immediate(imm) => put(
            put(a_temp(s1, "interp_temp"@, ty), n + 1, RvalueV::Use(imm)),
            n,
            RvalueV::Ref(PlaceV::Local(LocalId((n + 1) as usize))),
        ),
        ValueV::Unreachable => s1,
    }
}

/// The `FormatOptions` of an interpolated value in a new temporary `format_opts`
/// (the name `std.text.FormatOptions` and its type interned first): constructed
/// from the parsed specification's fields, or the result of
/// `std.text.FormatOptions.default`.
pub open spec fn options_code(s: ArgsState, options: OptionsSource) -> ArgsState {
    let fo_segs = seq!["std"@, "text"@, "FormatOptions"@];
    let fo = NameId(name_pos(s.names, fo_segs) as usize);
    let s3 = a_name(s, fo_segs);
    let fot = TyId(type_pos(s3.w.types, MirTy::Named(fo)) as usize);
    let s4 = a_type(s3, MirTy::Named(fo));
    let k = s4.w.locals.len();
    let s5 = a_temp(s4, "format_opts"@, fot);
    match options {
        OptionsSource::Parsed(spec) => {
            let (s5a, fields) = format_fields(s5, spec);
            put(s5a, k, RvalueV::Construct { ty: fot, fields })
        },
        OptionsSource::Default => {
            let d_segs = seq!["std"@, "text"@, "FormatOptions"@, "default"@];
            let d = NameId(name_pos(s5.names, d_segs) as usize);
            call_into(a_name(s5, d_segs), k, CalleeV::Direct { name: d, type_args: Seq::empty() }, Seq::empty())
        },
    }
}

/// The type of the `FormatOptions` temporary made from state `s`.
pub open spec fn options_ty(s: ArgsState) -> TyId {
    let fo_segs = seq!["std"@, "text"@, "FormatOptions"@];
    let fo = NameId(name_pos(s.names, fo_segs) as usize);
    TyId(type_pos(a_name(s, fo_segs).w.types, MirTy::Named(fo)) as usize)
}

/// An interpolated value after its expression is lowered to `value`, its
/// `appendInterpolation$value` method (`append`) is interned and its type is
/// lowered to `ty`: a reference `interp_ref` to the value (an immediate is first
/// stored in `interp_temp`); for an unreachable value nothing more. Then the
/// options (see `options_code`), borrowed (`format_opts_borrow`), and the generic
/// call of `append` for `ty` (into `append_ret`) through the part's reference with
/// the value's and the options' references.
pub open spec fn value_code(
    s: ArgsState,
    part_ref: LocalId,
    append: NameId,
    value: ValueV,
    ty: TyId,
    options: OptionsSource,
    unit_ty: TyId,
) -> ArgsState {
    let n = s.w.locals.len();
    let s2 = value_ref_code(s, value, ty);
    if value is Unreachable {
        s2
    } else {
        let k = s2.w.locals.len();
        let fot = options_ty(s2);
        let s6 = options_code(s2, options);
        let b = s6.w.locals.len();
        let fbt = TyId(type_pos(s6.w.types, MirTy::Ref(fot)) as usize);
        let s7 = put(
            a_temp(a_type(s6, MirTy::Ref(fot)), "format_opts_borrow"@, fbt),
            b,
            RvalueV::Ref(PlaceV::Local(LocalId(k as usize))),
        );
        let s8 = a_temp(s7, "append_ret"@, unit_ty);
        call_into(
            s8,
            b + 1,
            CalleeV::Direct { name: append, type_args: seq![ty] },
            seq![
                local_arg(part_ref.0 as nat, PassingMode::MutRef),
                local_arg(n, PassingMode::Ref),
                local_arg(b, PassingMode::Ref)
            ],
        )
    }
}

/// The end of an interpolated string: a shared reference `build_ref` to the
/// instance, and the call of its `build` (the name interned after the reference)
/// into a new temporary `result` of the lowered string type, which is the value.
pub open spec fn finish_code(s: ArgsState, dsi: LocalId, dsi_ty: TyId, segs: Seq<Seq<char>>, result_ty: TyId) -> ArgsState {
    let n = s.w.locals.len();
    let brt = TyId(type_pos(s.w.types, MirTy::Ref(dsi_ty)) as usize);
    let s1 = put(a_temp(a_type(s, MirTy::Ref(dsi_ty)), "build_ref"@, brt), n, RvalueV::Ref(PlaceV::Local(dsi)));
    let b_segs = segs.push("build"@);
    let b = NameId(name_pos(s1.names, b_segs) as usize);
    let s2 = a_temp(a_name(s1, b_segs), "result"@, result_ty);
    call_into(s2, n + 1, CalleeV::Direct { name: b, type_args: Seq::empty() }, seq![local_arg(n, PassingMode::Ref)])
}

// ---------------------------------------------------------------------------
// Emission
// ---------------------------------------------------------------------------

/// An interpolated string under way: the `DefaultStringInterpolation` instance, its
/// type, the type of mutable references to it, its name's segments and the unit
/// type.
#[derive(Debug)]
pub struct InterpolationState {
    pub dsi: LocalId,
    pub dsi_ty: TyId,
    pub ref_ty: TyId,
    pub segments: Vec<String>,
    pub unit_ty: TyId,
}

impl LoweringContext {
    /// Interns a name given by its segments (an interpolation step).
    fn interp_name(&mut self, segments: Vec<String>) -> (r: NameId)
        requires
            emitting(old(self)),
        ensures
            args_frame(old(self), final(self)),
            r.0 == name_pos(args_state(old(self)).names, string_views(segments@)),
            args_state(final(self)) == a_name(args_state(old(self)), string_views(segments@)),
    {
        self.mir.intern_name(segments)
    }

    /// Interns a type (an interpolation step).
    fn interp_type(&mut self, ty: MirTy) -> (r: TyId)
        requires
            emitting(old(self)),
        ensures
            args_frame(old(self), final(self)),
            r.0 == type_pos(args_state(old(self)).w.types, ty),
            args_state(final(self)) == a_type(args_state(old(self)), ty),
    {
        self.mir.intern_type(ty)
    }
}

/// A vector of segments from string slices.
fn segments_of(parts: &[&str]) -> (r: Vec<String>)
    ensures
        string_views(r@) == parts@.map_values(|p: &str| p@),
{
    let mut r: Vec<String> = Vec::new();
    let mut i: usize = 0;
    while i < parts.len()
        invariant
            i <= parts@.len(),
            string_views(r@) == parts@.take(i as int).map_values(|p: &str| p@),
        decreases parts.len() - i,
    {
        let ghost before = r@;
        r.push(owned(parts[i]));
        assert(string_views(r@) =~= string_views(before).push(parts@[i as int]@));
        assert(parts@.take(i + 1).map_values(|p: &str| p@) =~= parts@.take(i as int).map_values(|p: &str| p@).push(
            parts@[i as int]@,
        ));
        i = i + 1;
    }
    assert(parts@.take(parts@.len() as int) =~= parts@);
    r
}

/// The segments `segs` followed by `last`.
fn with_segment(segs: &Vec<String>, last: &str) -> (r: Vec<String>)
    ensures
        string_views(r@) == string_views(segs@).push(last@),
{
    let mut r = copy_strings(segs);
    let ghost before = r@;
    r.push(owned(last));
    assert(string_views(r@) =~= string_views(before).push(last@));
    r
}

/// Reports a failed lookup of `DefaultStringInterpolation` (an internal error at the
/// interpolated string's span) and gives the error value; gives `None` and emits
/// nothing when it was found.
pub fn report_interpolation_lookup(ctx: &mut LoweringContext, lookup: &InterpolationLookup, span: Span) -> (r: Option<Value>)
    requires
        emitting(old(ctx)),
    ensures
        args_frame(old(ctx), final(ctx)),
        lookup is Found ==> r is None && args_state(final(ctx)) == args_state(old(ctx)),
        !(lookup is Found) ==> (r matches Some(v) && v@ == ValueV::Immediate(ImmediateV::Error)),
        lookup is NotRegistered ==> args_state(final(ctx)) == a_report(
            args_state(old(ctx)),
            "DefaultStringInterpolation not found in builtin registry"@,
            Some(span),
        ),
        lookup is SymbolMissing ==> args_state(final(ctx)) == a_report(
            args_state(old(ctx)),
            "DefaultStringInterpolation symbol not found"@,
            Some(span),
        ),
{
    match lookup {
        InterpolationLookup::Found(_) => None,
        InterpolationLookup::NotRegistered => {
            ctx.prim_error("DefaultStringInterpolation not found in builtin registry", Some(span));
            Some(Value::Immediate(Immediate::Error))
        },
        InterpolationLookup::SymbolMissing => {
            ctx.prim_error("DefaultStringInterpolation symbol not found", Some(span));
            Some(Value::Immediate(Immediate::Error))
        },
    }
}

/// Starts an interpolated string (see `begin_code`), after the string type and then
/// the type of `DefaultStringInterpolation` (`dsi`) are lowered, the latter to
/// `dsi_ty`.
pub fn begin_interpolation(
    ctx: &mut LoweringContext,
    dsi: &SymbolNode,
    dsi_ty: TyId,
    literal_capacity: i64,
    interpolation_count: i64,
) -> (r: InterpolationState)
    requires
        emitting(old(ctx)),
        old(ctx).temp_count() + 3 <= u32::MAX,
    ensures
        args_frame(old(ctx), final(ctx)),
        args_state(final(ctx)) == begin_code(
            args_state(old(ctx)),
            name_segments(dsi),
            dsi_ty,
            literal_capacity,
            interpolation_count,
        ),
        r.dsi.0 == old(ctx).mir.locals@.len(),
        r.dsi_ty == dsi_ty,
        r.ref_ty == TyId(type_pos(a_temp(args_state(old(ctx)), "interpolation"@, dsi_ty).w.types, MirTy::RefMut(dsi_ty)) as usize),
        string_views(r.segments@) == name_segments(dsi),
        r.unit_ty.0 < final(ctx).mir.types@.len(),
        final(ctx).mir.types@[r.unit_ty.0 as int] == MirTy::Unit,
{
    let ghost s0 = args_state(ctx);
    let dsi_local = ctx.args_temp("interpolation", dsi_ty);
    let ref_ty = ctx.interp_type(MirTy::RefMut(dsi_ty));
    let dsi_ref = ctx.args_temp("interp_ref", ref_ty);
    ctx.args_assign(dsi_ref, Rvalue::RefMut(Place::local(dsi_local)));
    let dsi_name = ctx.args_name(dsi);
    let segments = copy_strings(ctx.mir.name(dsi_name));
    let init_segs = with_segment(&segments, "init$literalCapacity$interpolationCount");
    let init_name = ctx.interp_name(init_segs);
    let unit_ty = ctx.interp_type(MirTy::Unit);
    let init_ret = ctx.args_temp("init_ret", unit_ty);
    let args = vec![
        CallArg::mutating(Value::Place(Place::local(dsi_ref))),
        CallArg::borrow(Value::Immediate(Immediate::Int(IntBits::I64, literal_capacity))),
        CallArg::borrow(Value::Immediate(Immediate::Int(IntBits::I64, interpolation_count))),
    ];
    proof {
        assert(crate::mir::args_view(args@) =~= seq![
            local_arg(dsi_ref.0 as nat, PassingMode::MutRef),
            int_arg(literal_capacity),
            int_arg(interpolation_count)
        ]);
    }
    ctx.args_call(init_ret, Callee::direct(init_name), args);
    InterpolationState { dsi: dsi_local, dsi_ty, ref_ty, segments, unit_ty }
}

/// Starts a part (see `part_code`); returns its mutable reference to the instance.
pub fn begin_part(ctx: &mut LoweringContext, st: &InterpolationState) -> (r: LocalId)
    requires
        emitting(old(ctx)),
        old(ctx).temp_count() < u32::MAX,
    ensures
        args_frame(old(ctx), final(ctx)),
        args_state(final(ctx)) == part_code(args_state(old(ctx)), st.dsi, st.ref_ty),
        r.0 == old(ctx).mir.locals@.len(),
{
    let part_ref = ctx.args_temp("part_ref", st.ref_ty);
    ctx.args_assign(part_ref, Rvalue::RefMut(Place::local(st.dsi)));
    part_ref
}

/// Interns the instance's method `method` (its name is the instance's name with the
/// method's segment): `appendLiteral$literal` for a literal part, before the
/// `String` type is lowered; `appendInterpolation$value` for an interpolated part,
/// after its expression and before its type are lowered.
pub fn intern_interpolation_method(ctx: &mut LoweringContext, st: &InterpolationState, method: &str) -> (r: NameId)
    requires
        emitting(old(ctx)),
    ensures
        args_frame(old(ctx), final(ctx)),
        r.0 == name_pos(args_state(old(ctx)).names, string_views(st.segments@).push(method@)),
        args_state(final(ctx)) == a_name(args_state(old(ctx)), string_views(st.segments@).push(method@)),
{
    let segs = with_segment(&st.segments, method);
    ctx.interp_name(segs)
}

/// Appends a literal part (see `literal_code`).
pub fn append_literal(
    ctx: &mut LoweringContext,
    st: &InterpolationState,
    part_ref: LocalId,
    append: NameId,
    text: &String,
    string_ty: TyId,
)
    requires
        emitting(old(ctx)),
        old(ctx).temp_count() + 5 <= u32::MAX,
        byte_len(text@) <= i64::MAX,
    ensures
        args_frame(old(ctx), final(ctx)),
        args_state(final(ctx)) == literal_code(args_state(old(ctx)), part_ref, append, text@, string_ty, st.unit_ty),
{
    let string_local = ctx.args_temp("literal_str", string_ty);
    let string_ref_ty = ctx.interp_type(MirTy::RefMut(string_ty));
    let string_ref = ctx.args_temp("string_ref", string_ref_ty);
    ctx.args_assign(string_ref, Rvalue::RefMut(Place::local(string_local)));
    let init_segs = segments_of(&["std", "text", "String", "init$stringLiteral$length"]);
    assert(string_views(init_segs@) =~= seq!["std"@, "text"@, "String"@, "init$stringLiteral$length"@]);
    let init_name = ctx.interp_name(init_segs);
    let init_ret = ctx.args_temp("str_init_ret", st.unit_ty);
    let t = text.as_str();
    let n_bytes = t.len();
    assert(t@ == text@);
    assert(n_bytes == byte_len(text@));
    let len = n_bytes as i64;
    let args = vec![
        CallArg::mutating(Value::Place(Place::local(string_ref))),
        CallArg::borrow(Value::Immediate(Immediate::StrPtr(text.clone()))),
        CallArg::borrow(Value::Immediate(Immediate::Int(IntBits::I64, len))),
    ];
    proof {
        assert(crate::mir::args_view(args@) =~= seq![
            local_arg(string_ref.0 as nat, PassingMode::MutRef),
            CallArgV { value: ValueV::Immediate(ImmediateV::StrPtr(text@)), mode: PassingMode::Ref },
            int_arg(byte_len(text@) as i64)
        ]);
    }
    ctx.args_call(init_ret, Callee::direct(init_name), args);
    let borrow_ty = ctx.interp_type(MirTy::Ref(string_ty));
    let borrow = ctx.args_temp("string_borrow", borrow_ty);
    ctx.args_assign(borrow, Rvalue::Ref(Place::local(string_local)));
    let append_ret = ctx.args_temp("append_ret", st.unit_ty);
    let args2 = vec![
        CallArg::mutating(Value::Place(Place::local(part_ref))),
        CallArg::borrow(Value::Place(Place::local(borrow))),
    ];
    proof {
        assert(crate::mir::args_view(args2@) =~= seq![
            local_arg(part_ref.0 as nat, PassingMode::MutRef),
            local_arg(borrow.0 as nat, PassingMode::Ref)
        ]);
    }
    ctx.args_call(append_ret, Callee::direct(append), args2);
}

/// Emits the reference to an interpolated value (see `value_ref_code`); returns it.
fn emit_value_ref(ctx: &mut LoweringContext, value: Value, ty: TyId) -> (r: LocalId)
    requires
        emitting(old(ctx)),
        old(ctx).temp_count() + 2 <= u32::MAX,
    ensures
        args_frame(old(ctx), final(ctx)),
        args_state(final(ctx)) == value_ref_code(args_state(old(ctx)), value@, ty),
        r.0 == old(ctx).mir.locals@.len(),
{
    let ref_ty = ctx.interp_type(MirTy::Ref(ty));
    let interp_ref = ctx.args_temp("interp_ref", ref_ty);
    match value {
        Value::Place(p) => {
            ctx.args_assign(interp_ref, Rvalue::Ref(p));
        },
        Value::Immediate(imm) => {
            let temp = ctx.args_temp("interp_temp", ty);
            ctx.args_assign(temp, Rvalue::Use(imm));
            ctx.args_assign(interp_ref, Rvalue::Ref(Place::local(temp)));
        },
        Value::Unreachable => {},
    }
    interp_ref
}

/// Emits the options of an interpolated value (see `options_code`); returns their
/// temporary and its type.
fn emit_options(ctx: &mut LoweringContext, options: &OptionsSource) -> (r: (LocalId, TyId))
    requires
        emitting(old(ctx)),
        old(ctx).temp_count() + 6 <= u32::MAX,
    ensures
        args_frame(old(ctx), final(ctx)),
        args_state(final(ctx)) == options_code(args_state(old(ctx)), *options),
        r.0.0 == old(ctx).mir.locals@.len(),
        r.1 == options_ty(args_state(old(ctx))),
{
    let fo_segs = segments_of(&["std", "text", "FormatOptions"]);
    assert(string_views(fo_segs@) =~= seq!["std"@, "text"@, "FormatOptions"@]);
    let fo_name = ctx.interp_name(fo_segs);
    let fo_ty = ctx.interp_type(MirTy::Named(fo_name));
    let fo_local = ctx.args_temp("format_opts", fo_ty);
    match options {
        OptionsSource::Parsed(spec) => {
            let fields = build_format_options_fields(ctx, spec);
            ctx.args_assign(fo_local, Rvalue::Construct { ty: fo_ty, fields });
        },
        OptionsSource::Default => {
            let d_segs = segments_of(&["std", "text", "FormatOptions", "default"]);
            assert(string_views(d_segs@) =~= seq!["std"@, "text"@, "FormatOptions"@, "default"@]);
            let d_name = ctx.interp_name(d_segs);
            let no_args: Vec<CallArg> = Vec::new();
            assert(crate::mir::args_view(no_args@) =~= Seq::<CallArgV>::empty());
            ctx.args_call(fo_local, Callee::direct(d_name), no_args);
        },
    }
    (fo_local, fo_ty)
}

/// Appends an interpolated value (see `value_code`).
#[verifier::rlimit(40)]
pub fn append_value(
    ctx: &mut LoweringContext,
    st: &InterpolationState,
    part_ref: LocalId,
    append: NameId,
    value: Value,
    ty: TyId,
    options: &OptionsSource,
)
    requires
        emitting(old(ctx)),
        old(ctx).temp_count() + 10 <= u32::MAX,
    ensures
        args_frame(old(ctx), final(ctx)),
        args_state(final(ctx)) == value_code(args_state(old(ctx)), part_ref, append, value@, ty, *options, st.unit_ty),
{
    let unreachable = matches!(value, Value::Unreachable);
    let interp_ref = emit_value_ref(ctx, value, ty);
    if unreachable {
        return;
    }
    let ghost s2 = args_state(ctx);
    assert(s2.w.locals.len() == ctx.mir.locals@.len());
    let (fo_local, fo_ty) = emit_options(ctx, options);
    let borrow_ty = ctx.interp_type(MirTy::Ref(fo_ty));
    let borrow = ctx.args_temp("format_opts_borrow", borrow_ty);
    ctx.args_assign(borrow, Rvalue::Ref(Place::local(fo_local)));
    let append_ret = ctx.args_temp("append_ret", st.unit_ty);
    let args = vec![
        CallArg::mutating(Value::Place(Place::local(part_ref))),
        CallArg::borrow(Value::Place(Place::local(interp_ref))),
        CallArg::borrow(Value::Place(Place::local(borrow))),
    ];
    proof {
        assert(crate::mir::args_view(args@) =~= seq![
            local_arg(part_ref.0 as nat, PassingMode::MutRef),
            local_arg(interp_ref.0 as nat, PassingMode::Ref),
            local_arg(borrow.0 as nat, PassingMode::Ref)
        ]);
    }
    let mut type_args: Vec<TyId> = Vec::new();
    type_args.push(ty);
    assert(type_args@ =~= seq![ty]);
    ctx.args_call(append_ret, Callee::direct_generic(append, type_args), args);
}

/// Ends an interpolated string (see `finish_code`), after the string type is lowered
/// to `result_ty`; returns the built string.
pub fn finish_interpolation(ctx: &mut LoweringContext, st: &InterpolationState, result_ty: TyId) -> (r: Value)
    requires
        emitting(old(ctx)),
        old(ctx).temp_count() + 2 <= u32::MAX,
    ensures
        args_frame(old(ctx), final(ctx)),
        args_state(final(ctx)) == finish_code(
            args_state(old(ctx)),
            st.dsi,
            st.dsi_ty,
            string_views(st.segments@),
            result_ty,
        ),
        r@ == ValueV::Place(PlaceV::Local(LocalId((old(ctx).mir.locals@.len() + 1) as usize))),
{
    let build_ref_ty = ctx.interp_type(MirTy::Ref(st.dsi_ty));
    let build_ref = ctx.args_temp("build_ref", build_ref_ty);
    ctx.args_assign(build_ref, Rvalue::Ref(Place::local(st.dsi)));
    let b_segs = with_segment(&st.segments, "build");
    let build = ctx.interp_name(b_segs);
    let result = ctx.args_temp("result", result_ty);
    let args = vec![CallArg::borrow(Value::Place(Place::local(build_ref)))];
    proof {
        assert(crate::mir::args_view(args@) =~= seq![local_arg(build_ref.0 as nat, PassingMode::Ref)]);
    }
    ctx.args_call(result, Callee::direct(build), args);
    Value::Place(Place::local(result))
}

} // verus!
