//! The parts of the semantic tree that lowering reads, held as plain values:
//! semantic types, symbols with their parent chain, and callable parameters.

use vstd::prelude::*;

verus! {

/// A semantic local variable (from name resolution).
#[derive(Clone, Copy, PartialEq, Eq, Debug, Hash, Structural)]
pub struct SemLocalId(pub u64);

/// A loop of the semantic tree, the target of `break` and `continue`.
#[derive(Clone, Copy, PartialEq, Eq, Debug, Hash, Structural)]
pub struct LoopId(pub u64);

/// A symbol of the semantic tree.
#[derive(Clone, Copy, PartialEq, Eq, Debug, Hash, Structural)]
pub struct SymbolId(pub u64);

/// Width of an integer type.
#[derive(Clone, Copy, PartialEq, Eq, Debug, Structural)]
pub enum IntBits {
    I8,
    I16,
    I32,
    I64,
}

/// Width of a floating-point type.
#[derive(Clone, Copy, PartialEq, Eq, Debug, Structural)]
pub enum FloatBits {
    F16,
    F32,
    F64,
}

/// The kind of a symbol.
#[derive(Clone, Copy, PartialEq, Eq, Debug, Structural)]
pub enum SymbolKind {
    SourceFile,
    Module,
    Struct,
    Enum,
    Protocol,
    TypeAlias,
    Extension,
    Function,
    Initializer,
    EnumCase,
    Field,
    Import,
    TypeParameter,
    AssociatedType,
    Deinit,
    Getter,
    Setter,
    Subscript,
}

/// A parameter of a callable (function, initializer, accessor, enum case).
#[derive(Debug)]
pub struct ParamInfo {
    /// The external label, if any.
    pub label: Option<String>,
    /// The internal (binding) name.
    pub name: String,
    /// Whether the parameter has a default value.
    pub has_default: bool,
    /// The parameter's type.
    pub ty: SemTy,
}

/// A symbol with the parts of its metadata that naming reads.
#[derive(Debug)]
pub struct SymbolNode {
    pub kind: SymbolKind,
    pub name: String,
    pub parent: Option<Box<SymbolNode>>,
    /// The parameters of its callable behavior, if it has one.
    pub callable: Option<Vec<ParamInfo>>,
    /// The parameters of its subscript behavior, if it has one.
    pub subscript: Option<Vec<ParamInfo>>,
    /// For an extension: the extended type, if resolved.
    pub extension_target: Option<Box<SemTy>>,
    /// Whether it carries the static behavior.
    pub is_static: bool,
    /// Whether it carries the namespace-scope marker (modules, source files).
    pub is_namespace_scope: bool,
    /// Whether it carries the computed-property marker.
    pub is_computed: bool,
}

/// A stored field of a struct.
#[derive(Debug)]
pub struct FieldDecl {
    pub name: String,
    pub ty: SemTy,
}

/// A case of an enum; `payload` is `None` when the case has no callable behavior.
#[derive(Debug)]
pub struct CaseDecl {
    pub name: String,
    pub payload: Option<Vec<SemTy>>,
}

/// A nominal type declaration (struct or enum) with what deinit lowering reads.
#[derive(Debug)]
pub struct TypeDecl {
    pub symbol: SymbolNode,
    /// Whether the copy-semantics behavior declares the type copyable.
    pub copyable: bool,
    /// Whether the type has a deinit block.
    pub has_deinit: bool,
    /// Stored fields, in declaration order (structs).
    pub fields: Vec<FieldDecl>,
    /// Cases, in declaration order (enums).
    pub cases: Vec<CaseDecl>,
}

/// A semantic type.
#[derive(Debug)]
pub enum SemTy {
    Struct(Box<TypeDecl>),
    Enum(Box<TypeDecl>),
    Protocol(String),
    Int(IntBits),
    Float(FloatBits),
    Bool,
    Str,
    Unit,
    Never,
    Pointer(Box<SemTy>),
    TypeParameter(String),
    SelfType,
    /// A function type: parameter types and return type.
    Function { params: Vec<TyRef>, ret: TyRef },
    Tuple(Vec<SemTy>),
    TypeAlias(String),
    Error,
    Infer,
    AssociatedType(String),
    UnresolvedFunction,
    UnresolvedPath(Vec<String>),
}

/// A shared semantic type.
pub type TyRef = std::rc::Rc<SemTy>;

/// Shares a semantic type by `Rc::clone`. Trusted: the contract claims that the new
/// pointer refers to the same type value as the argument (Verus equates an `Rc` with
/// the value it points to).
#[verifier::external_body]
pub(crate) fn share_ty(t: &TyRef) -> (r: TyRef)
    ensures
        r == *t,
{
    std::rc::Rc::clone(t)
}

/// The type has a non-trivial drop: it is a struct or enum that is not copyable
/// and either has a deinit block or holds (in a field or case payload) a value
/// of a type that needs deinit.
pub open spec fn needs_deinit(ty: &SemTy) -> bool
    decreases ty, 3nat,
{
    match ty {
        SemTy::Struct(d) => !d.copyable && (d.has_deinit || any_field_needs_deinit(d.fields@)),
        SemTy::Enum(d) => !d.copyable && (d.has_deinit || any_case_needs_deinit(d.cases@)),
        _ => false,
    }
}

/// Some field's type needs deinit.
pub open spec fn any_field_needs_deinit(fs: Seq<FieldDecl>) -> bool
    decreases fs, 2nat,
{
    if fs.len() == 0 {
        false
    } else {
        any_field_needs_deinit(fs.drop_last()) || needs_deinit(&fs.last().ty)
    }
}

/// Some case has a payload whose type needs deinit.
pub open spec fn any_case_needs_deinit(cs: Seq<CaseDecl>) -> bool
    decreases cs, 1nat,
{
    if cs.len() == 0 {
        false
    } else {
        any_case_needs_deinit(cs.drop_last()) || match &cs.last().payload {
            Some(ps) => any_ty_needs_deinit(ps@),
            None => false,
        }
    }
}

/// Some type of the sequence needs deinit.
pub open spec fn any_ty_needs_deinit(ts: Seq<SemTy>) -> bool
    decreases ts, 0nat,
{
    if ts.len() == 0 {
        false
    } else {
        any_ty_needs_deinit(ts.drop_last()) || needs_deinit(&ts.last())
    }
}

} // verus!
