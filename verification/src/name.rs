//! Qualified name generation from semantic symbols.

use vstd::prelude::*;

use crate::context::LoweringContext;
use crate::mir::{interned, name_pos, names_view, NameId};
use crate::sem::{FloatBits, IntBits, ParamInfo, SemTy, SymbolKind, SymbolNode, TypeDecl};
use crate::text::{append_decimal, append_str, copy_string, copy_strings, decimal, join, join_strings, owned, str_equal, string_views};

verus! {

// ---------------------------------------------------------------------------
// Type mangling
// ---------------------------------------------------------------------------

/// The mangled name of a type, used to tell overloaded initializers apart.
pub open spec fn spec_mangle(ty: &SemTy) -> Seq<char>
    decreases ty, 1nat,
{
    match ty {
        SemTy::Struct(d) => d.symbol.name@,
        SemTy::Enum(d) => d.symbol.name@,
        SemTy::Protocol(n) => n@,
        SemTy::Int(bits) => match bits {
            IntBits::I8 => "I8"@,
            IntBits::I16 => "I16"@,
            IntBits::I32 => "I32"@,
            IntBits::I64 => "I64"@,
        },
        SemTy::Float(bits) => match bits {
            FloatBits::F16 => "F16"@,
            FloatBits::F32 => "F32"@,
            FloatBits::F64 => "F64"@,
        },
        SemTy::Bool => "Bool"@,
        SemTy::Str => "String"@,
        SemTy::Unit => "Unit"@,
        SemTy::Never => "Never"@,
        SemTy::Pointer(inner) => "Ptr"@ + spec_mangle(inner),
        SemTy::TypeParameter(n) => n@,
        SemTy::SelfType => "Self"@,
        SemTy::Function { .. } => "Fn"@,
        SemTy::Tuple(elems) => "Tuple"@ + join(spec_mangle_all(elems@), "_"@),
        SemTy::TypeAlias(n) => n@,
        SemTy::Error => "Error"@,
        SemTy::Infer => "Infer"@,
        SemTy::AssociatedType(n) => n@,
        SemTy::UnresolvedFunction => "UnresolvedFn"@,
        SemTy::UnresolvedPath(segs) => join(string_views(segs@), "_"@),
    }
}

/// The mangled names of a sequence of types.
pub open spec fn spec_mangle_all(tys: Seq<SemTy>) -> Seq<Seq<char>>
    decreases tys, 0nat,
{
    if tys.len() == 0 {
        Seq::empty()
    } else {
        spec_mangle_all(tys.drop_last()).push(spec_mangle(&tys.last()))
    }
}

fn lit(s: &str) -> (r: String)
    ensures
        r@ == s@,
{
    owned(s)
}

/// Mangles a type into a string suitable for use in qualified names.
pub fn mangle_type_name(ty: &SemTy) -> (r: String)
    ensures
        r@ == spec_mangle(ty),
    decreases ty,
{
    match ty {
        SemTy::Struct(d) => copy_string(&d.symbol.name),
        SemTy::Enum(d) => copy_string(&d.symbol.name),
        SemTy::Protocol(n) => copy_string(n),
        SemTy::Int(bits) => match bits {
            IntBits::I8 => lit("I8"),
            IntBits::I16 => lit("I16"),
            IntBits::I32 => lit("I32"),
            IntBits::I64 => lit("I64"),
        },
        SemTy::Float(bits) => match bits {
            FloatBits::F16 => lit("F16"),
            FloatBits::F32 => lit("F32"),
            FloatBits::F64 => lit("F64"),
        },
        SemTy::Bool => lit("Bool"),
        SemTy::Str => lit("String"),
        SemTy::Unit => lit("Unit"),
        SemTy::Never => lit("Never"),
        SemTy::Pointer(inner) => {
            let mut s = lit("Ptr");
            let m = mangle_type_name(inner);
            append_str(&mut s, m.as_str());
            s
        },
        SemTy::TypeParameter(n) => copy_string(n),
        SemTy::SelfType => lit("Self"),
        SemTy::Function { .. } => lit("Fn"),
        SemTy::Tuple(elems) => {
            let mut parts: Vec<String> = Vec::new();
            let mut i: usize = 0;
            while i < elems.len()
                invariant
                    i <= elems@.len(),
                    string_views(parts@) == spec_mangle_all(elems@.take(i as int)),
                    *ty == SemTy::Tuple(*elems),
                decreases elems.len() - i,
            {
                proof {
                    assert(decreases_to!(*elems => elems[i as int]));
                    assert(*ty == SemTy::Tuple(*elems));
                    assert(decreases_to!(*ty => (*ty)->Tuple_0));
                    assert(decreases_to!(*ty => elems[i as int]));
                }
                let m = mangle_type_name(&elems[i]);
                let ghost before = parts@;
                parts.push(m);
                assert(elems@.take(i + 1).drop_last() =~= elems@.take(i as int));
                assert(string_views(parts@) =~= string_views(before).push(m@));
                i = i + 1;
            }
            assert(elems@.take(elems@.len() as int) =~= elems@);
            let mut s = lit("Tuple");
            let joined = join_strings(&parts, "_");
            append_str(&mut s, joined.as_str());
            s
        },
        SemTy::TypeAlias(n) => copy_string(n),
        SemTy::Error => lit("Error"),
        SemTy::Infer => lit("Infer"),
        SemTy::AssociatedType(n) => copy_string(n),
        SemTy::UnresolvedFunction => lit("UnresolvedFn"),
        SemTy::UnresolvedPath(segs) => join_strings(segs, "_"),
    }
}

// ---------------------------------------------------------------------------
// Initializer names
// ---------------------------------------------------------------------------

/// The label a parameter contributes: its external label, else its internal name.
pub open spec fn param_label(p: ParamInfo) -> Seq<char> {
    match p.label {
        Some(l) => l@,
        None => p.name@,
    }
}

/// The parameter carries the external label `from`.
pub open spec fn is_from_label(p: ParamInfo) -> bool {
    p.label matches Some(l) && l@ == "from"@
}

/// Some parameter carries the external label `from` (a conversion initializer).
pub open spec fn has_from_label(ps: Seq<ParamInfo>) -> bool {
    exists|i: int| 0 <= i < ps.len() && #[trigger] is_from_label(ps[i])
}

/// The part a parameter contributes to an initializer's name.
pub open spec fn init_part(p: ParamInfo, with_types: bool) -> Seq<char> {
    if with_types {
        param_label(p) + "_"@ + spec_mangle(&p.ty)
    } else {
        param_label(p)
    }
}

/// The name of an initializer with the given parameters: `init` when it has none,
/// else `init$` followed by the parameter parts joined with `$`; the parts carry
/// the parameter types when some parameter is labelled `from`.
pub open spec fn spec_init_suffix(ps: Seq<ParamInfo>) -> Seq<char> {
    let parts = Seq::new(ps.len(), |i: int| init_part(ps[i], has_from_label(ps)));
    if ps.len() == 0 {
        "init"@
    } else {
        "init$"@ + join(parts, "$"@)
    }
}

fn label_or_name(p: &ParamInfo) -> (r: &String)
    ensures
        r@ == param_label(*p),
{
    match &p.label {
        Some(l) => l,
        None => &p.name,
    }
}

fn any_from_label(ps: &Vec<ParamInfo>) -> (r: bool)
    ensures
        r == has_from_label(ps@),
{
    let mut i: usize = 0;
    while i < ps.len()
        invariant
            i <= ps@.len(),
            forall|k: int| 0 <= k < i ==> !is_from_label(#[trigger] ps@[k]),
        decreases ps.len() - i,
    {
        match &ps[i].label {
            Some(l) => {
                if str_equal(l.as_str(), "from") {
                    assert(is_from_label(ps@[i as int]));
                    return true;
                }
            },
            None => {},
        }
        i = i + 1;
    }
    false
}

/// Generates the "init" portion of an initializer's qualified name from its parameters.
pub fn init_name_suffix_from_callable(params: &Vec<ParamInfo>) -> (r: String)
    ensures
        r@ == spec_init_suffix(params@),
{
    let with_types = any_from_label(params);
    let ghost parts_spec = Seq::new(
        params@.len(),
        |i: int| init_part(params@[i], has_from_label(params@)),
    );
    let mut parts: Vec<String> = Vec::new();
    let mut i: usize = 0;
    while i < params.len()
        invariant
            i <= params@.len(),
            with_types == has_from_label(params@),
            parts_spec == Seq::new(
                params@.len(),
                |i: int| init_part(params@[i], has_from_label(params@)),
            ),
            string_views(parts@) == parts_spec.take(i as int),
        decreases params.len() - i,
    {
        let p = &params[i];
        let mut part = copy_string(label_or_name(p));
        if with_types {
            append_str(&mut part, "_");
            let m = mangle_type_name(&p.ty);
            append_str(&mut part, m.as_str());
        }
        let ghost before = parts@;
        assert(part@ == parts_spec[i as int]);
        parts.push(part);
        assert(string_views(parts@) =~= string_views(before).push(part@));
        assert(parts_spec.take(i + 1) =~= parts_spec.take(i as int).push(parts_spec[i as int]));
        i = i + 1;
    }
    assert(parts_spec.take(params@.len() as int) =~= parts_spec);
    if parts.len() == 0 {
        lit("init")
    } else {
        let mut s = lit("init$");
        let joined = join_strings(&parts, "$");
        append_str(&mut s, joined.as_str());
        s
    }
}

// ---------------------------------------------------------------------------
// Qualified name segments of a symbol
// ---------------------------------------------------------------------------

/// The names a function's parameters contribute: the external label when present,
/// else the internal name of a parameter without default; unlabelled parameters with
/// a default contribute nothing.
pub open spec fn fn_param_names(ps: Seq<ParamInfo>) -> Seq<Seq<char>>
    decreases ps.len(),
{
    if ps.len() == 0 {
        Seq::empty()
    } else {
        let p = ps.last();
        let rest = fn_param_names(ps.drop_last());
        match p.label {
            Some(l) => rest.push(l@),
            None => if !p.has_default {
                rest.push(p.name@)
            } else {
                rest
            },
        }
    }
}

/// The external labels of the parameters, in order.
pub open spec fn param_labels(ps: Seq<ParamInfo>) -> Seq<Seq<char>>
    decreases ps.len(),
{
    if ps.len() == 0 {
        Seq::empty()
    } else {
        let rest = param_labels(ps.drop_last());
        match ps.last().label {
            Some(l) => rest.push(l@),
            None => rest,
        }
    }
}

/// `base` when `parts` is empty, else `base$part1$part2...`.
pub open spec fn with_dollar_parts(base: Seq<char>, parts: Seq<Seq<char>>) -> Seq<char> {
    if parts.len() == 0 {
        base
    } else {
        base + "$"@ + join(parts, "$"@)
    }
}

/// The segment an extension contributes: the name of the extended type.
pub open spec fn extension_segment(target: Option<Box<SemTy>>) -> Seq<char> {
    match target {
        Some(t) => match *t {
            SemTy::Struct(d) => d.symbol.name@,
            SemTy::Enum(d) => d.symbol.name@,
            SemTy::Protocol(n) => n@,
            SemTy::Int(_) => "Int"@,
            SemTy::Float(_) => "Float"@,
            SemTy::Bool => "Bool"@,
            SemTy::Str => "String"@,
            SemTy::Unit => "Unit"@,
            _ => "(extension)"@,
        },
        None => "(extension)"@,
    }
}

/// The parent of a symbol carries the namespace-scope marker.
pub open spec fn parent_is_namespace(sym: &SymbolNode) -> bool {
    match &sym.parent {
        Some(p) => p.is_namespace_scope,
        None => false,
    }
}

/// The segment a symbol itself contributes to its qualified name, if any.
pub open spec fn own_segment(sym: &SymbolNode) -> Option<Seq<char>> {
    if sym.name@ == "<root>"@ {
        None
    } else {
        match sym.kind {
            SymbolKind::SourceFile => None,
            SymbolKind::Module | SymbolKind::Struct | SymbolKind::Enum | SymbolKind::Protocol
            | SymbolKind::TypeAlias | SymbolKind::EnumCase => Some(sym.name@),
            SymbolKind::Extension => Some(extension_segment(sym.extension_target)),
            SymbolKind::Function => match &sym.callable {
                Some(ps) => Some(with_dollar_parts(sym.name@, fn_param_names(ps@))),
                None => Some(sym.name@),
            },
            SymbolKind::Initializer => match &sym.callable {
                Some(ps) => Some(spec_init_suffix(ps@)),
                None => Some("init"@),
            },
            SymbolKind::Field => if (sym.is_static || parent_is_namespace(sym))
                && !sym.is_computed {
                Some(sym.name@)
            } else {
                None
            },
            SymbolKind::Import | SymbolKind::TypeParameter | SymbolKind::AssociatedType => None,
            SymbolKind::Deinit => Some("deinit"@),
            SymbolKind::Getter | SymbolKind::Setter => match &sym.callable {
                Some(ps) => Some(with_dollar_parts(sym.name@, param_labels(ps@))),
                None => Some(sym.name@),
            },
            SymbolKind::Subscript => match &sym.subscript {
                Some(ps) => Some(with_dollar_parts("subscript"@, param_labels(ps@))),
                None => Some("subscript"@),
            },
        }
    }
}

/// The qualified name segments of a symbol: those of its ancestors, outermost first,
/// followed by its own.
pub open spec fn name_segments(sym: &SymbolNode) -> Seq<Seq<char>>
    decreases sym,
{
    let above = match &sym.parent {
        Some(p) => name_segments(p),
        None => Seq::empty(),
    };
    match own_segment(sym) {
        Some(s) => above.push(s),
        None => above,
    }
}

fn is_root_name(name: &String) -> (r: bool)
    ensures
        r == (name@ == "<root>"@),
{
    str_equal(name.as_str(), "<root>")
}

fn collect_fn_param_names(ps: &Vec<ParamInfo>) -> (r: Vec<String>)
    ensures
        string_views(r@) == fn_param_names(ps@),
{
    let mut r: Vec<String> = Vec::new();
    let mut i: usize = 0;
    while i < ps.len()
        invariant
            i <= ps@.len(),
            string_views(r@) == fn_param_names(ps@.take(i as int)),
        decreases ps.len() - i,
    {
        let ghost before = r@;
        assert(ps@.take(i + 1).drop_last() =~= ps@.take(i as int));
        assert(ps@.take(i + 1).last() == ps@[i as int]);
        match &ps[i].label {
            Some(l) => {
                r.push(copy_string(l));
                assert(string_views(r@) =~= string_views(before).push(l@));
            },
            None => {
                if !ps[i].has_default {
                    r.push(copy_string(&ps[i].name));
                    assert(string_views(r@) =~= string_views(before).push(ps@[i as int].name@));
                }
            },
        }
        i = i + 1;
    }
    assert(ps@.take(ps@.len() as int) =~= ps@);
    r
}

fn collect_param_labels(ps: &Vec<ParamInfo>) -> (r: Vec<String>)
    ensures
        string_views(r@) == param_labels(ps@),
{
    let mut r: Vec<String> = Vec::new();
    let mut i: usize = 0;
    while i < ps.len()
        invariant
            i <= ps@.len(),
            string_views(r@) == param_labels(ps@.take(i as int)),
        decreases ps.len() - i,
    {
        let ghost before = r@;
        assert(ps@.take(i + 1).drop_last() =~= ps@.take(i as int));
        assert(ps@.take(i + 1).last() == ps@[i as int]);
        match &ps[i].label {
            Some(l) => {
                r.push(copy_string(l));
                assert(string_views(r@) =~= string_views(before).push(l@));
            },
            None => {},
        }
        i = i + 1;
    }
    assert(ps@.take(ps@.len() as int) =~= ps@);
    r
}

fn dollar_joined(base: String, parts: &Vec<String>) -> (r: String)
    ensures
        r@ == with_dollar_parts(base@, string_views(parts@)),
{
    if parts.len() == 0 {
        base
    } else {
        let mut s = base;
        append_str(&mut s, "$");
        let joined = join_strings(parts, "$");
        append_str(&mut s, joined.as_str());
        s
    }
}

fn extension_segment_exec(target: &Option<Box<SemTy>>) -> (r: String)
    ensures
        r@ == extension_segment(*target),
{
    match target {
        Some(t) => match &**t {
            SemTy::Struct(d) => copy_string(&d.symbol.name),
            SemTy::Enum(d) => copy_string(&d.symbol.name),
            SemTy::Protocol(n) => copy_string(n),
            SemTy::Int(_) => lit("Int"),
            SemTy::Float(_) => lit("Float"),
            SemTy::Bool => lit("Bool"),
            SemTy::Str => lit("String"),
            SemTy::Unit => lit("Unit"),
            _ => lit("(extension)"),
        },
        None => lit("(extension)"),
    }
}

fn own_segment_exec(sym: &SymbolNode) -> (r: Option<String>)
    ensures
        match r {
            Some(s) => own_segment(sym) == Some(s@),
            None => own_segment(sym) is None,
        },
{
    if is_root_name(&sym.name) {
        return None;
    }
    match sym.kind {
        SymbolKind::SourceFile => None,
        SymbolKind::Module | SymbolKind::Struct | SymbolKind::Enum | SymbolKind::Protocol
        | SymbolKind::TypeAlias | SymbolKind::EnumCase => Some(copy_string(&sym.name)),
        SymbolKind::Extension => Some(extension_segment_exec(&sym.extension_target)),
        SymbolKind::Function => match &sym.callable {
            Some(ps) => {
                let names = collect_fn_param_names(ps);
                Some(dollar_joined(copy_string(&sym.name), &names))
            },
            None => Some(copy_string(&sym.name)),
        },
        SymbolKind::Initializer => match &sym.callable {
            Some(ps) => Some(init_name_suffix_from_callable(ps)),
            None => Some(lit("init")),
        },
        SymbolKind::Field => {
            let in_namespace = match &sym.parent {
                Some(p) => p.is_namespace_scope,
                None => false,
            };
            if (sym.is_static || in_namespace) && !sym.is_computed {
                Some(copy_string(&sym.name))
            } else {
                None
            }
        },
        SymbolKind::Import | SymbolKind::TypeParameter | SymbolKind::AssociatedType => None,
        SymbolKind::Deinit => Some(lit("deinit")),
        SymbolKind::Getter | SymbolKind::Setter => match &sym.callable {
            Some(ps) => {
                let labels = collect_param_labels(ps);
                Some(dollar_joined(copy_string(&sym.name), &labels))
            },
            None => Some(copy_string(&sym.name)),
        },
        SymbolKind::Subscript => match &sym.subscript {
            Some(ps) => {
                let labels = collect_param_labels(ps);
                Some(dollar_joined(lit("subscript"), &labels))
            },
            None => Some(lit("subscript")),
        },
    }
}

/// Appends the qualified name segments of a symbol (ancestors first) to `segments`.
pub fn collect_name_segments(symbol: &SymbolNode, segments: &mut Vec<String>)
    ensures
        string_views(final(segments)@) == string_views(old(segments)@) + name_segments(symbol),
    decreases symbol,
{
    let ghost start = string_views(segments@);
    match &symbol.parent {
        Some(p) => collect_name_segments(p, segments),
        None => {},
    }
    let ghost mid = string_views(segments@);
    match own_segment_exec(symbol) {
        Some(s) => {
            let ghost sv = s@;
            segments.push(s);
            assert(string_views(segments@) =~= mid.push(sv));
        },
        None => {},
    }
    assert(string_views(segments@) =~= start + name_segments(symbol));
}

/// The qualified name segments of a symbol.
pub fn name_segments_of(symbol: &SymbolNode) -> (r: Vec<String>)
    ensures
        string_views(r@) == name_segments(symbol),
{
    let mut v: Vec<String> = Vec::new();
    collect_name_segments(symbol, &mut v);
    assert(string_views(v@) =~= name_segments(symbol));
    v
}

// ---------------------------------------------------------------------------
// Names of deinit functions
// ---------------------------------------------------------------------------

/// The segments that the ancestors of a type contribute to the name of its deinit
/// function: modules and nominal types by their own name, skipping the root,
/// source files and all other kinds.
pub open spec fn scope_segments(sym: &SymbolNode) -> Seq<Seq<char>>
    decreases sym,
{
    let above = match &sym.parent {
        Some(p) => scope_segments(p),
        None => Seq::empty(),
    };
    if sym.name@ == "<root>"@ {
        above
    } else {
        match sym.kind {
            SymbolKind::Module | SymbolKind::Struct | SymbolKind::Enum | SymbolKind::Protocol
            | SymbolKind::TypeAlias | SymbolKind::Extension => above.push(sym.name@),
            _ => above,
        }
    }
}

/// The segments of a nominal type's own path: its ancestors' scope segments and its
/// name (unless it is the root).
pub open spec fn type_path_segments(decl: &TypeDecl) -> Seq<Seq<char>> {
    let above = match &decl.symbol.parent {
        Some(p) => scope_segments(p),
        None => Seq::empty(),
    };
    if decl.symbol.name@ == "<root>"@ {
        above
    } else {
        above.push(decl.symbol.name@)
    }
}

/// The segments of the name of a nominal type's deinit function.
pub open spec fn deinit_function_segments(decl: &TypeDecl) -> Seq<Seq<char>> {
    type_path_segments(decl).push("deinit"@)
}

/// Appends the namespace segments of a symbol and its ancestors (see `scope_segments`).
pub fn collect_symbol_name_parts(symbol: &SymbolNode, segments: &mut Vec<String>)
    ensures
        string_views(final(segments)@) == string_views(old(segments)@) + scope_segments(symbol),
    decreases symbol,
{
    let ghost start = string_views(segments@);
    match &symbol.parent {
        Some(p) => collect_symbol_name_parts(p, segments),
        None => {},
    }
    let ghost mid = string_views(segments@);
    if !is_root_name(&symbol.name) {
        match symbol.kind {
            SymbolKind::Module | SymbolKind::Struct | SymbolKind::Enum | SymbolKind::Protocol
            | SymbolKind::TypeAlias | SymbolKind::Extension => {
                segments.push(copy_string(&symbol.name));
                assert(string_views(segments@) =~= mid.push(symbol.name@));
            },
            _ => {},
        }
    }
    assert(string_views(segments@) =~= start + scope_segments(symbol));
}

/// The segments of the name of a nominal type's deinit function.
pub fn deinit_function_name_segments(decl: &TypeDecl) -> (r: Vec<String>)
    ensures
        string_views(r@) == deinit_function_segments(decl),
{
    let mut segs: Vec<String> = Vec::new();
    match &decl.symbol.parent {
        Some(p) => collect_symbol_name_parts(p, &mut segs),
        None => {},
    }
    let ghost above = string_views(segs@);
    if !is_root_name(&decl.symbol.name) {
        segs.push(copy_string(&decl.symbol.name));
        assert(string_views(segs@) =~= above.push(decl.symbol.name@));
    }
    let ghost with_name = string_views(segs@);
    segs.push(lit("deinit"));
    assert(string_views(segs@) =~= with_name.push("deinit"@));
    assert(string_views(segs@) =~= deinit_function_segments(decl));
    segs
}


// ---------------------------------------------------------------------------
// Interned qualified names
// ---------------------------------------------------------------------------

/// Interns the qualified name of a symbol (see `name_segments`).
pub fn qualified_name_for_symbol(ctx: &mut LoweringContext, symbol: &SymbolNode) -> (r: NameId)
    ensures
        final(ctx).same_state(old(ctx)),
        final(ctx).mir.same_but_names(&old(ctx).mir),
        final(ctx).mir.name_view(r) == name_segments(symbol),
        r.0 < final(ctx).mir.names@.len(),
        r.0 == name_pos(names_view(old(ctx).mir.names@), name_segments(symbol)),
        names_view(final(ctx).mir.names@) == interned(names_view(old(ctx).mir.names@), name_segments(symbol)),
{
    let segments = name_segments_of(symbol);
    ctx.mir.intern_name(segments)
}

/// Interns the name of a struct's implicit memberwise initializer: the struct's
/// qualified name followed by `init`.
pub fn qualified_name_for_struct_init(ctx: &mut LoweringContext, struct_symbol: &SymbolNode) -> (r: NameId)
    ensures
        final(ctx).same_state(old(ctx)),
        final(ctx).mir.same_but_names(&old(ctx).mir),
        final(ctx).mir.name_view(r) == name_segments(struct_symbol).push("init"@),
        r.0 == name_pos(names_view(old(ctx).mir.names@), name_segments(struct_symbol).push("init"@)),
        names_view(final(ctx).mir.names@) == interned(
            names_view(old(ctx).mir.names@),
            name_segments(struct_symbol).push("init"@),
        ),
{
    let mut segments = name_segments_of(struct_symbol);
    let ghost before = string_views(segments@);
    segments.push(lit("init"));
    assert(string_views(segments@) =~= before.push("init"@));
    ctx.mir.intern_name(segments)
}

/// Interns a qualified name given as string parts.
pub fn qualified_name_from_parts(ctx: &mut LoweringContext, parts: &[&str]) -> (r: NameId)
    ensures
        final(ctx).same_state(old(ctx)),
        final(ctx).mir.same_but_names(&old(ctx).mir),
        final(ctx).mir.name_view(r) == parts@.map_values(|p: &str| p@),
        r.0 == name_pos(names_view(old(ctx).mir.names@), parts@.map_values(|p: &str| p@)),
        names_view(final(ctx).mir.names@) == interned(names_view(old(ctx).mir.names@), parts@.map_values(|p: &str| p@)),
{
    ctx.mir.intern_name_parts(parts)
}


// ---------------------------------------------------------------------------
// Names derived from the current function's name
// ---------------------------------------------------------------------------

/// The segments with `suffix` appended to the last one (no segments: unchanged).
pub open spec fn suffixed(segs: Seq<Seq<char>>, suffix: Seq<char>) -> Seq<Seq<char>> {
    if segs.len() == 0 {
        segs
    } else {
        segs.drop_last().push(segs.last() + suffix)
    }
}

/// The name of the current function.
pub open spec fn current_function_name(ctx: &LoweringContext) -> Seq<Seq<char>> {
    ctx.mir.name_view(ctx.mir.functions@[ctx.cur_function().unwrap().0 as int].name)
}

/// The current function exists and its name is interned.
pub open spec fn has_named_function(ctx: &LoweringContext) -> bool {
    &&& ctx.inv()
    &&& ctx.cur_function() is Some
    &&& ctx.mir.functions@[ctx.cur_function().unwrap().0 as int].name.0 < ctx.mir.names@.len()
}

fn append_to_last(segs: &mut Vec<String>, suffix: &str)
    ensures
        string_views(final(segs)@) == suffixed(string_views(old(segs)@), suffix@),
{
    let n = segs.len();
    if n > 0 {
        let ghost before = string_views(segs@);
        append_str(&mut segs[n - 1], suffix);
        assert(string_views(segs@) =~= suffixed(before, suffix@));
    } else {
        assert(string_views(segs@) =~= suffixed(string_views(old(segs)@), suffix@));
    }
}

/// Interns the names of a synthetic function derived from the current function
/// (its last segment extended by `kind` and the index) and of its environment struct
/// (that name's last segment extended by `.env`).
pub(crate) fn derived_names(ctx: &mut LoweringContext, kind: &str, idx: u32) -> (r: (NameId, NameId))
    requires
        has_named_function(old(ctx)),
    ensures
        final(ctx).same_state(old(ctx)),
        final(ctx).mir.same_but_names(&old(ctx).mir),
        ({
            let ns = names_view(old(ctx).mir.names@);
            let f = suffixed(current_function_name(old(ctx)), kind@ + decimal(idx as nat));
            let e = suffixed(f, ".env"@);
            &&& r.0.0 == name_pos(ns, f)
            &&& r.1.0 == name_pos(interned(ns, f), e)
            &&& names_view(final(ctx).mir.names@) == interned(interned(ns, f), e)
        }),
{
    let current = ctx.current_function_unwrap();
    let fname = ctx.mir.functions[current.0].name;
    let mut segs = copy_strings(ctx.mir.name(fname));
    let mut suffix = owned(kind);
    append_decimal(&mut suffix, idx);
    append_to_last(&mut segs, suffix.as_str());
    let func_name = ctx.mir.intern_name(copy_strings(&segs));
    append_to_last(&mut segs, ".env");
    let env_name = ctx.mir.intern_name(segs);
    (func_name, env_name)
}

} // verus!

verus! {

/// A field declared `static` and not computed is named by its own name after its
/// parent's segments: its qualified name is its parent's with its name appended, so
/// it differs from its parent type's name.
pub proof fn law_static_field_named_after_parent(sym: &SymbolNode)
    requires
        sym.kind == SymbolKind::Field,
        sym.is_static,
        !sym.is_computed,
        sym.name@ != "<root>"@,
    ensures
        name_segments(sym) == (match &sym.parent {
            Some(p) => name_segments(p),
            None => Seq::empty(),
        }).push(sym.name@),
        sym.parent matches Some(p) ==> name_segments(sym) != name_segments(&*p),
        name_segments(sym).last() == sym.name@,
{
    if let Some(p) = &sym.parent {
        assert(name_segments(sym).len() == name_segments(&**p).len() + 1);
    }
}

} // verus!
