//! The execution graph (MIR) that lowering builds: interned qualified names,
//! types, functions, basic blocks, statements and terminators.

use vstd::prelude::*;

use crate::text::{copy_string, owned, string_views};
use crate::sem::IntBits;

verus! {

/// A MIR local (an index into `MirContext::locals`).
#[derive(Clone, Copy, PartialEq, Eq, Debug, Hash, Structural)]
pub struct LocalId(pub usize);

/// A basic block (an index into `MirContext::blocks`).
#[derive(Clone, Copy, PartialEq, Eq, Debug, Hash, Structural)]
pub struct BlockId(pub usize);

/// A function (an index into `MirContext::functions`).
#[derive(Clone, Copy, PartialEq, Eq, Debug, Hash, Structural)]
pub struct FunctionId(pub usize);

/// An interned qualified name (an index into `MirContext::names`).
#[derive(Clone, Copy, PartialEq, Eq, Debug, Hash, Structural)]
pub struct NameId(pub usize);

/// An interned MIR type (an index into `MirContext::types`).
#[derive(Clone, Copy, PartialEq, Eq, Debug, Hash, Structural)]
pub struct TyId(pub usize);

/// A MIR type parameter.
#[derive(Clone, Copy, PartialEq, Eq, Debug, Hash, Structural)]
pub struct TypeParamId(pub usize);

/// The MIR types that the lowering context creates itself.
#[derive(Clone, Copy, PartialEq, Eq, Debug, Structural)]
pub enum MirTy {
    Unit,
    Bool,
    Never,
    Error,
    /// A signed integer type of the width.
    Int(IntBits),
    Named(NameId),
    /// A named generic type applied to one type argument.
    Applied(NameId, TyId),
    Ref(TyId),
    RefMut(TyId),
}

/// A memory location: a local or a global, possibly projected.
#[derive(Debug)]
pub enum Place {
    Local(LocalId),
    Global(NameId),
    Field(Box<Place>, String),
    Index(Box<Place>, usize),
    Downcast(Box<Place>, String),
    Deref(Box<Place>),
}

/// The view of a place, with names as character sequences.
pub enum PlaceV {
    Local(LocalId),
    Global(NameId),
    Field(Box<PlaceV>, Seq<char>),
    Index(Box<PlaceV>, usize),
    Downcast(Box<PlaceV>, Seq<char>),
    Deref(Box<PlaceV>),
}

impl View for Place {
    type V = PlaceV;

    open spec fn view(&self) -> PlaceV
        decreases self,
    {
        match self {
            Place::Local(l) => PlaceV::Local(*l),
            Place::Global(n) => PlaceV::Global(*n),
            Place::Field(b, f) => PlaceV::Field(Box::new((**b).view()), f@),
            Place::Index(b, i) => PlaceV::Index(Box::new((**b).view()), *i),
            Place::Downcast(b, v) => PlaceV::Downcast(Box::new((**b).view()), v@),
            Place::Deref(b) => PlaceV::Deref(Box::new((**b).view())),
        }
    }
}

impl Place {
    /// A place naming a local.
    pub fn local(l: LocalId) -> (r: Place)
        ensures
            r == Place::Local(l),
    {
        Place::Local(l)
    }

    /// A place naming a global (a static).
    pub fn global(n: NameId) -> (r: Place)
        ensures
            r == Place::Global(n),
    {
        Place::Global(n)
    }

    /// The field `name` of this place.
    pub fn field(self, name: &str) -> (r: Place)
        ensures
            r@ == PlaceV::Field(Box::new(self@), name@),
    {
        Place::Field(Box::new(self), owned(name))
    }

    /// The element `i` of this place.
    pub fn index(self, i: usize) -> (r: Place)
        ensures
            r == Place::Index(Box::new(self), i),
            r@ == PlaceV::Index(Box::new(self@), i),
    {
        Place::Index(Box::new(self), i)
    }

    /// This place viewed as the enum variant `variant`.
    pub fn downcast(self, variant: &str) -> (r: Place)
        ensures
            r@ == PlaceV::Downcast(Box::new(self@), variant@),
    {
        Place::Downcast(Box::new(self), owned(variant))
    }

    /// The place this place points to.
    pub fn deref(p: Place) -> (r: Place)
        ensures
            r == Place::Deref(Box::new(p)),
    {
        Place::Deref(Box::new(p))
    }

    /// The local this place names, when it is a bare local.
    pub fn as_local(&self) -> (r: Option<LocalId>)
        ensures
            r == (match *self {
                Place::Local(l) => Some(l),
                _ => None,
            }),
    {
        match self {
            Place::Local(l) => Some(*l),
            _ => None,
        }
    }

    /// A copy of this place.
    pub fn duplicate(&self) -> (r: Place)
        ensures
            r == *self,
            r@ == self@,
        decreases self,
    {
        match self {
            Place::Local(l) => Place::Local(*l),
            Place::Global(n) => Place::Global(*n),
            Place::Field(b, f) => Place::Field(Box::new((**b).duplicate()), copy_string(f)),
            Place::Index(b, i) => Place::Index(Box::new((**b).duplicate()), *i),
            Place::Downcast(b, v) => Place::Downcast(Box::new((**b).duplicate()), copy_string(v)),
            Place::Deref(b) => Place::Deref(Box::new((**b).duplicate())),
        }
    }
}

/// A constant operand.
#[derive(Debug)]
pub enum Immediate {
    Unit,
    Bool(bool),
    /// An integer constant of a width.
    Int(IntBits, i64),
    Str(String),
    /// A pointer to the bytes of a string literal.
    StrPtr(String),
    FunctionRef(NameId),
    Error,
}

impl Immediate {
    /// The unit constant.
    pub fn unit() -> (r: Immediate)
        ensures
            r == Immediate::Unit,
    {
        Immediate::Unit
    }

    /// A copy of this constant.
    pub fn duplicate(&self) -> (r: Immediate)
        ensures
            r == *self,
    {
        match self {
            Immediate::Unit => Immediate::Unit,
            Immediate::Bool(b) => Immediate::Bool(*b),
            Immediate::Int(b, i) => Immediate::Int(*b, *i),
            Immediate::Str(s) => Immediate::Str(copy_string(s)),
            Immediate::StrPtr(s) => Immediate::StrPtr(copy_string(s)),
            Immediate::FunctionRef(n) => Immediate::FunctionRef(*n),
            Immediate::Error => Immediate::Error,
        }
    }
}

/// An operand: a place, a constant, or nothing (the expression diverged).
#[derive(Debug)]
pub enum Value {
    Place(Place),
    Immediate(Immediate),
    Unreachable,
}

impl Value {
    /// A copy of this value.
    pub fn duplicate(&self) -> (r: Value)
        ensures
            r == *self,
    {
        match self {
            Value::Place(p) => Value::Place(p.duplicate()),
            Value::Immediate(i) => Value::Immediate(i.duplicate()),
            Value::Unreachable => Value::Unreachable,
        }
    }
}

/// The conversion a primitive cast performs.
#[derive(Clone, Copy, PartialEq, Eq, Debug, Structural)]
pub enum CastKind {
    IntWiden,
    IntUnsignedWiden,
    IntTruncate,
    IntToFloat,
    FloatToInt,
    FloatWiden,
    FloatTruncate,
}

/// How an argument is handed to a callee.
#[derive(Clone, Copy, PartialEq, Eq, Debug, Structural)]
pub enum PassingMode {
    Ref,
    MutRef,
    Copy,
    Move,
}

/// An argument of a call, with its passing mode.
#[derive(Debug)]
pub struct CallArg {
    pub value: Value,
    pub mode: PassingMode,
}

impl CallArg {
    /// An argument with the given passing mode.
    pub fn new(value: Value, mode: PassingMode) -> (r: CallArg)
        ensures
            r == (CallArg { value, mode }),
    {
        CallArg { value, mode }
    }

    /// An argument passed by shared reference.
    pub fn borrow(value: Value) -> (r: CallArg)
        ensures
            r == (CallArg { value, mode: PassingMode::Ref }),
    {
        CallArg { value, mode: PassingMode::Ref }
    }

    /// An argument passed by mutable reference.
    pub fn mutating(value: Value) -> (r: CallArg)
        ensures
            r == (CallArg { value, mode: PassingMode::MutRef }),
    {
        CallArg { value, mode: PassingMode::MutRef }
    }

    /// An argument whose ownership moves to the callee.
    pub fn moving(value: Value) -> (r: CallArg)
        ensures
            r == (CallArg { value, mode: PassingMode::Move }),
    {
        CallArg { value, mode: PassingMode::Move }
    }
}

/// The target of a call.
#[derive(Debug)]
pub enum Callee {
    Direct { name: NameId, type_args: Vec<TyId> },
    Witness { protocol: NameId, method: String, for_type: TyId, type_args: Vec<TyId> },
}

impl Callee {
    /// A direct call of a non-generic function.
    pub fn direct(name: NameId) -> (r: Callee)
        ensures
            r matches Callee::Direct { name: n, type_args } && n == name && type_args@.len() == 0,
            r@ == (CalleeV::Direct { name, type_args: Seq::empty() }),
    {
        let r = Callee::Direct { name, type_args: Vec::new() };
        assert(r@ == (CalleeV::Direct { name, type_args: Seq::empty() }));
        r
    }

    /// A direct call of a generic function with type arguments.
    pub fn direct_generic(name: NameId, type_args: Vec<TyId>) -> (r: Callee)
        ensures
            r == (Callee::Direct { name, type_args }),
    {
        Callee::Direct { name, type_args }
    }
}

/// Binary operators.
#[derive(Clone, Copy, PartialEq, Eq, Debug, Structural)]
pub enum BinOp {
    AddSigned,
    SubSigned,
    MulSigned,
    DivSigned,
    RemSigned,
    Eq,
    Ne,
    LtSigned,
    LeSigned,
    GtSigned,
    GeSigned,
    And,
    Or,
    Xor,
    Shl,
    ShrSigned,
    FAdd,
    FSub,
    FMul,
    FDiv,
    FEq,
    FNe,
    FLt,
    FLe,
    FGt,
    FGe,
    BoolAnd,
    BoolOr,
    StrEq,
}

/// Unary operators.
#[derive(Clone, Copy, PartialEq, Eq, Debug, Structural)]
pub enum UnOp {
    /// Integer negation.
    Neg,
    /// Float negation.
    FNeg,
    /// Boolean negation.
    BoolNot,
    /// Bitwise complement.
    Not,
}

/// The right-hand side of an assignment.
#[allow(inconsistent_fields)]
#[derive(Debug)]
pub enum Rvalue {
    Use(Immediate),
    Copy(Place),
    Move(Place),
    Ref(Place),
    RefMut(Place),
    Call { callee: Callee, args: Vec<CallArg> },
    ApplyPartial { func: NameId, captures: Vec<Value> },
    BinaryOp { op: BinOp, lhs: Value, rhs: Value },
    UnaryOp { op: UnOp, operand: Value },
    /// The length of a string.
    StrLen(Value),
    /// The data pointer of a string.
    StrPtr(Value),
    /// The decimal text of an integer.
    IntToString(Value),
    /// A value of an enum type: the variant with its payload.
    EnumVariant { enum_ty: TyId, variant: String, payload: Vec<Value> },
    /// A value of a struct type from its named fields.
    Construct { ty: TyId, fields: Vec<(String, Value)> },
}

/// A statement of a basic block.
#[derive(Debug)]
pub enum StatementKind {
    Assign { dest: Place, rvalue: Rvalue },
    Call { callee: Callee, args: Vec<CallArg> },
    Deinit { place: Place },
    DeinitIf { place: Place, flag: LocalId },
    SetDeinitFlag { flag: LocalId, value: bool },
}

/// The terminator of a basic block.
#[derive(Debug)]
pub enum TerminatorKind {
    Return(Value),
    Jump(BlockId),
    Branch { condition: Value, then_block: BlockId, else_block: BlockId },
    Switch { discriminant: Place, cases: Vec<(String, BlockId)> },
    Unreachable,
}

/// The view of a constant.
pub enum ImmediateV {
    Unit,
    Bool(bool),
    Int(IntBits, i64),
    Str(Seq<char>),
    StrPtr(Seq<char>),
    FunctionRef(NameId),
    Error,
}

/// The view of an operand.
pub enum ValueV {
    Place(PlaceV),
    Immediate(ImmediateV),
    Unreachable,
}

/// The view of a call argument.
pub struct CallArgV {
    pub value: ValueV,
    pub mode: PassingMode,
}

/// The view of a call target.
pub enum CalleeV {
    Direct { name: NameId, type_args: Seq<TyId> },
    Witness { protocol: NameId, method: Seq<char>, for_type: TyId, type_args: Seq<TyId> },
}

/// The view of an assignment's right-hand side.
#[allow(inconsistent_fields)]
pub enum RvalueV {
    Use(ImmediateV),
    Copy(PlaceV),
    Move(PlaceV),
    Ref(PlaceV),
    RefMut(PlaceV),
    Call { callee: CalleeV, args: Seq<CallArgV> },
    ApplyPartial { func: NameId, captures: Seq<ValueV> },
    BinaryOp { op: BinOp, lhs: ValueV, rhs: ValueV },
    UnaryOp { op: UnOp, operand: ValueV },
    StrLen(ValueV),
    StrPtr(ValueV),
    IntToString(ValueV),
    EnumVariant { enum_ty: TyId, variant: Seq<char>, payload: Seq<ValueV> },
    Construct { ty: TyId, fields: Seq<(Seq<char>, ValueV)> },
}

/// The view of a statement.
pub enum StmtV {
    Assign { dest: PlaceV, rvalue: RvalueV },
    Call { callee: CalleeV, args: Seq<CallArgV> },
    Deinit { place: PlaceV },
    DeinitIf { place: PlaceV, flag: LocalId },
    SetDeinitFlag { flag: LocalId, value: bool },
}

/// The view of a terminator.
pub enum TermV {
    Return(ValueV),
    Jump(BlockId),
    Branch { condition: ValueV, then_block: BlockId, else_block: BlockId },
    Switch { discriminant: PlaceV, cases: Seq<(Seq<char>, BlockId)> },
    Unreachable,
}

impl View for Immediate {
    type V = ImmediateV;

    open spec fn view(&self) -> ImmediateV {
        match self {
            Immediate::Unit => ImmediateV::Unit,
            Immediate::Bool(b) => ImmediateV::Bool(*b),
            Immediate::Int(b, i) => ImmediateV::Int(*b, *i),
            Immediate::Str(s) => ImmediateV::Str(s@),
            Immediate::StrPtr(t) => ImmediateV::StrPtr(t@),
            Immediate::FunctionRef(n) => ImmediateV::FunctionRef(*n),
            Immediate::Error => ImmediateV::Error,
        }
    }
}

impl View for Value {
    type V = ValueV;

    open spec fn view(&self) -> ValueV {
        match self {
            Value::Place(p) => ValueV::Place(p@),
            Value::Immediate(i) => ValueV::Immediate(i@),
            Value::Unreachable => ValueV::Unreachable,
        }
    }
}

impl View for CallArg {
    type V = CallArgV;

    open spec fn view(&self) -> CallArgV {
        CallArgV { value: self.value@, mode: self.mode }
    }
}

impl View for Callee {
    type V = CalleeV;

    open spec fn view(&self) -> CalleeV {
        match self {
            Callee::Direct { name, type_args } => CalleeV::Direct { name: *name, type_args: type_args@ },
            Callee::Witness { protocol, method, for_type, type_args } => CalleeV::Witness {
                protocol: *protocol,
                method: method@,
                for_type: *for_type,
                type_args: type_args@,
            },
        }
    }
}

/// The views of call arguments.
pub open spec fn args_view(args: Seq<CallArg>) -> Seq<CallArgV> {
    args.map_values(|a: CallArg| a@)
}

/// The views of operands.
pub open spec fn values_view(vs: Seq<Value>) -> Seq<ValueV> {
    vs.map_values(|v: Value| v@)
}

impl View for Rvalue {
    type V = RvalueV;

    open spec fn view(&self) -> RvalueV {
        match self {
            Rvalue::Use(i) => RvalueV::Use(i@),
            Rvalue::Copy(p) => RvalueV::Copy(p@),
            Rvalue::Move(p) => RvalueV::Move(p@),
            Rvalue::Ref(p) => RvalueV::Ref(p@),
            Rvalue::RefMut(p) => RvalueV::RefMut(p@),
            Rvalue::Call { callee, args } => RvalueV::Call { callee: callee@, args: args_view(args@) },
            Rvalue::ApplyPartial { func, captures } => RvalueV::ApplyPartial {
                func: *func,
                captures: values_view(captures@),
            },
            Rvalue::BinaryOp { op, lhs, rhs } => RvalueV::BinaryOp { op: *op, lhs: lhs@, rhs: rhs@ },
            Rvalue::UnaryOp { op, operand } => RvalueV::UnaryOp { op: *op, operand: operand@ },
            Rvalue::StrLen(v) => RvalueV::StrLen(v@),
            Rvalue::StrPtr(v) => RvalueV::StrPtr(v@),
            Rvalue::IntToString(v) => RvalueV::IntToString(v@),
            Rvalue::EnumVariant { enum_ty, variant, payload } => RvalueV::EnumVariant {
                enum_ty: *enum_ty,
                variant: variant@,
                payload: values_view(payload@),
            },
            Rvalue::Construct { ty, fields } => RvalueV::Construct {
                ty: *ty,
                fields: fields@.map_values(|f: (String, Value)| (f.0@, f.1@)),
            },
        }
    }
}

impl View for StatementKind {
    type V = StmtV;

    open spec fn view(&self) -> StmtV {
        match self {
            StatementKind::Assign { dest, rvalue } => StmtV::Assign { dest: dest@, rvalue: rvalue@ },
            StatementKind::Call { callee, args } => StmtV::Call { callee: callee@, args: args_view(args@) },
            StatementKind::Deinit { place } => StmtV::Deinit { place: place@ },
            StatementKind::DeinitIf { place, flag } => StmtV::DeinitIf { place: place@, flag: *flag },
            StatementKind::SetDeinitFlag { flag, value } => StmtV::SetDeinitFlag { flag: *flag, value: *value },
        }
    }
}

/// The views of switch cases.
pub open spec fn cases_view(cases: Seq<(String, BlockId)>) -> Seq<(Seq<char>, BlockId)> {
    cases.map_values(|c: (String, BlockId)| (c.0@, c.1))
}

impl View for TerminatorKind {
    type V = TermV;

    open spec fn view(&self) -> TermV {
        match self {
            TerminatorKind::Return(v) => TermV::Return(v@),
            TerminatorKind::Jump(b) => TermV::Jump(*b),
            TerminatorKind::Branch { condition, then_block, else_block } => TermV::Branch {
                condition: condition@,
                then_block: *then_block,
                else_block: *else_block,
            },
            TerminatorKind::Switch { discriminant, cases } => TermV::Switch {
                discriminant: discriminant@,
                cases: cases_view(cases@),
            },
            TerminatorKind::Unreachable => TermV::Unreachable,
        }
    }
}

/// The views of statements.
pub open spec fn stmts_view(s: Seq<StatementKind>) -> Seq<StmtV> {
    s.map_values(|st: StatementKind| st@)
}

/// The view of a basic block.
pub struct BlockV {
    pub statements: Seq<StmtV>,
    pub terminator: Option<TermV>,
}

/// The view of an optional terminator.
pub open spec fn term_view(t: Option<TerminatorKind>) -> Option<TermV> {
    match t {
        Some(k) => Some(k@),
        None => None,
    }
}

impl View for BasicBlock {
    type V = BlockV;

    open spec fn view(&self) -> BlockV {
        BlockV { statements: stmts_view(self.statements@), terminator: term_view(self.terminator) }
    }
}

/// The views of basic blocks.
pub open spec fn blocks_view(bs: Seq<BasicBlock>) -> Seq<BlockV> {
    bs.map_values(|b: BasicBlock| b@)
}

/// A basic block: statements followed by at most one terminator.
#[derive(Debug)]
pub struct BasicBlock {
    pub statements: Vec<StatementKind>,
    pub terminator: Option<TerminatorKind>,
}

/// A local variable declaration.
#[derive(Debug)]
pub struct LocalDecl {
    pub name: String,
    pub ty: TyId,
}

/// A function of the execution graph.
#[derive(Debug)]
pub struct Function {
    pub name: NameId,
    pub return_ty: TyId,
    pub params: Vec<LocalId>,
    pub locals: Vec<LocalId>,
    pub blocks: Vec<BlockId>,
    pub entry_block: Option<BlockId>,
}

/// A static variable.
#[derive(Debug)]
pub struct StaticDef {
    pub name: NameId,
    pub ty: TyId,
}

/// The execution graph under construction.
#[derive(Debug)]
pub struct MirContext {
    pub names: Vec<Vec<String>>,
    pub types: Vec<MirTy>,
    pub functions: Vec<Function>,
    pub blocks: Vec<BasicBlock>,
    pub locals: Vec<LocalDecl>,
    pub statics: Vec<StaticDef>,
}

/// Two name lists hold the same characters, part for part.
pub open spec fn same_parts(a: Seq<String>, b: Seq<String>) -> bool {
    string_views(a) == string_views(b)
}

/// The interned names, each as its sequence of segments.
pub open spec fn names_view(ns: Seq<Vec<String>>) -> Seq<Seq<Seq<char>>> {
    ns.map_values(|v: Vec<String>| string_views(v@))
}

/// `i` is the first position of `segs` in `ns`.
pub open spec fn first_at(ns: Seq<Seq<Seq<char>>>, segs: Seq<Seq<char>>, i: int) -> bool {
    &&& 0 <= i < ns.len()
    &&& ns[i] == segs
    &&& forall|k: int| 0 <= k < i ==> ns[k] != segs
}

/// The id that interning `segs` into `ns` gives: the first position of an equal
/// name, or the next free position.
pub open spec fn name_pos(ns: Seq<Seq<Seq<char>>>, segs: Seq<Seq<char>>) -> nat {
    if exists|i: int| first_at(ns, segs, i) {
        (choose|i: int| first_at(ns, segs, i)) as nat
    } else {
        ns.len()
    }
}

/// The names after interning `segs` into `ns`: unchanged when present, else extended.
pub open spec fn interned(ns: Seq<Seq<Seq<char>>>, segs: Seq<Seq<char>>) -> Seq<Seq<Seq<char>>> {
    if name_pos(ns, segs) < ns.len() {
        ns
    } else {
        ns.push(segs)
    }
}

/// A name found at `i` with none equal before it is at `name_pos`.
pub proof fn lemma_name_pos_found(ns: Seq<Seq<Seq<char>>>, segs: Seq<Seq<char>>, i: int)
    requires
        first_at(ns, segs, i),
    ensures
        name_pos(ns, segs) == i,
{
    let c = choose|j: int| first_at(ns, segs, j);
    assert(first_at(ns, segs, c));
    if c < i {
        assert(ns[c] != segs);
    } else if c > i {
        assert(ns[i] != segs);
    }
}

/// A name occurring nowhere gets the next free position.
pub proof fn lemma_name_pos_absent(ns: Seq<Seq<Seq<char>>>, segs: Seq<Seq<char>>)
    requires
        forall|k: int| 0 <= k < ns.len() ==> ns[k] != segs,
    ensures
        name_pos(ns, segs) == ns.len(),
{
    if exists|i: int| first_at(ns, segs, i) {
        let c = choose|j: int| first_at(ns, segs, j);
        assert(ns[c] == segs);
    }
}

/// `t` first occurs in `ts` at `i`.
pub open spec fn type_first_at(ts: Seq<MirTy>, t: MirTy, i: int) -> bool {
    &&& 0 <= i < ts.len()
    &&& ts[i] == t
    &&& forall|k: int| 0 <= k < i ==> ts[k] != t
}

/// The id that interning `t` into `ts` gives: its first position, or the next free one.
pub open spec fn type_pos(ts: Seq<MirTy>, t: MirTy) -> nat {
    if exists|i: int| type_first_at(ts, t, i) {
        (choose|i: int| type_first_at(ts, t, i)) as nat
    } else {
        ts.len()
    }
}

/// The types after interning `t`: unchanged when present, else extended.
pub open spec fn types_interned(ts: Seq<MirTy>, t: MirTy) -> Seq<MirTy> {
    if type_pos(ts, t) < ts.len() {
        ts
    } else {
        ts.push(t)
    }
}

/// A type found at `i` with none equal before it is at `type_pos`.
pub proof fn lemma_type_pos_found(ts: Seq<MirTy>, t: MirTy, i: int)
    requires
        type_first_at(ts, t, i),
    ensures
        type_pos(ts, t) == i,
{
    let c = choose|j: int| type_first_at(ts, t, j);
    assert(type_first_at(ts, t, c));
    if c < i {
        assert(ts[c] != t);
    } else if c > i {
        assert(ts[i] != t);
    }
}

/// An absent type is interned at the next free position.
pub proof fn lemma_type_pos_absent(ts: Seq<MirTy>, t: MirTy)
    requires
        forall|k: int| 0 <= k < ts.len() ==> ts[k] != t,
    ensures
        type_pos(ts, t) == ts.len(),
{
    if exists|i: int| type_first_at(ts, t, i) {
        let c = choose|j: int| type_first_at(ts, t, j);
        assert(ts[c] == t);
    }
}

impl MirContext {
    /// The segments of the interned name `id`.
    pub open spec fn name_view(&self, id: NameId) -> Seq<Seq<char>> {
        string_views(self.names@[id.0 as int]@)
    }

    /// Everything but the interned names is unchanged.
    pub open spec fn same_but_names(&self, other: &MirContext) -> bool {
        &&& self.types == other.types
        &&& self.functions == other.functions
        &&& self.blocks == other.blocks
        &&& self.locals == other.locals
        &&& self.statics == other.statics
    }

    /// Everything but the types is unchanged.
    pub open spec fn same_but_types(&self, other: &MirContext) -> bool {
        &&& self.names == other.names
        &&& self.functions == other.functions
        &&& self.blocks == other.blocks
        &&& self.locals == other.locals
        &&& self.statics == other.statics
    }

    /// An empty execution graph.
    pub fn new() -> (r: MirContext)
        ensures
            r.names@.len() == 0,
            r.types@.len() == 0,
            r.functions@.len() == 0,
            r.blocks@.len() == 0,
            r.locals@.len() == 0,
            r.statics@.len() == 0,
    {
        MirContext {
            names: Vec::new(),
            types: Vec::new(),
            functions: Vec::new(),
            blocks: Vec::new(),
            locals: Vec::new(),
            statics: Vec::new(),
        }
    }

    /// The segments of an interned name.
    pub fn name(&self, id: NameId) -> (r: &Vec<String>)
        requires
            id.0 < self.names@.len(),
        ensures
            *r == self.names@[id.0 as int],
    {
        &self.names[id.0]
    }

    /// Interns a qualified name: the id of an equal name already interned, or of a new entry.
    pub fn intern_name(&mut self, segments: Vec<String>) -> (r: NameId)
        ensures
            final(self).same_but_names(old(self)),
            r.0 < final(self).names@.len(),
            final(self).name_view(r) == string_views(segments@),
            old(self).names@.is_prefix_of(final(self).names@),
            final(self).names@.len() <= old(self).names@.len() + 1,
            r.0 < old(self).names@.len() ==> final(self).names@ == old(self).names@,
            (exists|i: int| 0 <= i < old(self).names@.len()
                && same_parts(old(self).names@[i]@, segments@)) ==> r.0 < old(self).names@.len(),
            r.0 == name_pos(names_view(old(self).names@), string_views(segments@)),
            names_view(final(self).names@) == interned(names_view(old(self).names@), string_views(segments@)),
    {
        let ghost nv = names_view(self.names@);
        let ghost sv = string_views(segments@);
        let mut i: usize = 0;
        while i < self.names.len()
            invariant
                i <= self.names@.len(),
                *self == *old(self),
                nv == names_view(self.names@),
                sv == string_views(segments@),
                forall|k: int| 0 <= k < i ==> !same_parts(self.names@[k]@, segments@),
            decreases self.names.len() - i,
        {
            if parts_equal(&self.names[i], &segments) {
                proof {
                    assert forall|k: int| 0 <= k < i implies nv[k] != sv by {
                        assert(!same_parts(self.names@[k]@, segments@));
                    }
                    lemma_name_pos_found(nv, sv, i as int);
                }
                return NameId(i);
            }
            i = i + 1;
        }
        proof {
            assert forall|k: int| 0 <= k < nv.len() implies nv[k] != sv by {
                assert(!same_parts(self.names@[k]@, segments@));
            }
            lemma_name_pos_absent(nv, sv);
        }
        let id = NameId(self.names.len());
        self.names.push(segments);
        proof {
            assert(old(self).names@.is_prefix_of(self.names@)) by {
                assert(self.names@.take(old(self).names@.len() as int) =~= old(self).names@);
            }
            assert(names_view(self.names@) =~= nv.push(sv));
        }
        id
    }

    /// Interns a qualified name given as string slices.
    pub fn intern_name_parts(&mut self, parts: &[&str]) -> (r: NameId)
        ensures
            final(self).same_but_names(old(self)),
            r.0 < final(self).names@.len(),
            final(self).name_view(r) == parts@.map_values(|p: &str| p@),
            old(self).names@.is_prefix_of(final(self).names@),
            final(self).names@.len() <= old(self).names@.len() + 1,
            r.0 == name_pos(names_view(old(self).names@), parts@.map_values(|p: &str| p@)),
            names_view(final(self).names@) == interned(names_view(old(self).names@), parts@.map_values(|p: &str| p@)),
    {
        let mut segs: Vec<String> = Vec::new();
        let mut i: usize = 0;
        while i < parts.len()
            invariant
                i <= parts@.len(),
                string_views(segs@) == parts@.take(i as int).map_values(|p: &str| p@),
            decreases parts.len() - i,
        {
            let part: &str = parts[i];
            let seg = owned(part);
            assert(seg@ == parts@[i as int]@);
            let ghost before = segs@;
            segs.push(seg);
            assert(string_views(segs@) =~= string_views(before).push(seg@));
            assert(parts@.take(i + 1).map_values(|p: &str| p@) =~= parts@.take(i as int).map_values(
                |p: &str| p@,
            ).push(parts@[i as int]@));
            i = i + 1;
        }
        assert(parts@.take(parts@.len() as int) =~= parts@);
        self.intern_name(segs)
    }

    /// Interns a MIR type.
    pub fn intern_type(&mut self, ty: MirTy) -> (r: TyId)
        ensures
            final(self).same_but_types(old(self)),
            r.0 < final(self).types@.len(),
            final(self).types@[r.0 as int] == ty,
            old(self).types@.is_prefix_of(final(self).types@),
            final(self).types@.len() <= old(self).types@.len() + 1,
            r.0 == type_pos(old(self).types@, ty),
            final(self).types@ == types_interned(old(self).types@, ty),
    {
        let mut i: usize = 0;
        while i < self.types.len()
            invariant
                i <= self.types@.len(),
                *self == *old(self),
                forall|k: int| 0 <= k < i ==> self.types@[k] != ty,
            decreases self.types.len() - i,
        {
            if self.types[i] == ty {
                proof {
                    lemma_type_pos_found(self.types@, ty, i as int);
                }
                return TyId(i);
            }
            i = i + 1;
        }
        proof {
            lemma_type_pos_absent(self.types@, ty);
        }
        let id = TyId(self.types.len());
        self.types.push(ty);
        assert(self.types@.take(old(self).types@.len() as int) =~= old(self).types@);
        id
    }

    /// The unit type.
    pub fn ty_unit(&mut self) -> (r: TyId)
        ensures
            final(self).same_but_types(old(self)),
            r.0 < final(self).types@.len(),
            final(self).types@[r.0 as int] == MirTy::Unit,
            old(self).types@.is_prefix_of(final(self).types@),
            r.0 == type_pos(old(self).types@, MirTy::Unit),
            final(self).types@ == types_interned(old(self).types@, MirTy::Unit),
    {
        self.intern_type(MirTy::Unit)
    }

    /// The type of shared references to `inner`.
    pub fn ty_ref(&mut self, inner: TyId) -> (r: TyId)
        ensures
            final(self).same_but_types(old(self)),
            r.0 < final(self).types@.len(),
            final(self).types@[r.0 as int] == MirTy::Ref(inner),
            old(self).types@.is_prefix_of(final(self).types@),
            r.0 == type_pos(old(self).types@, MirTy::Ref(inner)),
            final(self).types@ == types_interned(old(self).types@, MirTy::Ref(inner)),
    {
        self.intern_type(MirTy::Ref(inner))
    }

    /// The type of mutable references to `inner`.
    pub fn ty_ref_mut(&mut self, inner: TyId) -> (r: TyId)
        ensures
            final(self).same_but_types(old(self)),
            r.0 < final(self).types@.len(),
            final(self).types@[r.0 as int] == MirTy::RefMut(inner),
            old(self).types@.is_prefix_of(final(self).types@),
            r.0 == type_pos(old(self).types@, MirTy::RefMut(inner)),
            final(self).types@ == types_interned(old(self).types@, MirTy::RefMut(inner)),
    {
        self.intern_type(MirTy::RefMut(inner))
    }

    /// The 64-bit signed integer type.
    pub fn ty_i64(&mut self) -> (r: TyId)
        ensures
            final(self).same_but_types(old(self)),
            r.0 < final(self).types@.len(),
            final(self).types@[r.0 as int] == MirTy::Int(IntBits::I64),
            old(self).types@.is_prefix_of(final(self).types@),
            r.0 == type_pos(old(self).types@, MirTy::Int(IntBits::I64)),
            final(self).types@ == types_interned(old(self).types@, MirTy::Int(IntBits::I64)),
    {
        self.intern_type(MirTy::Int(IntBits::I64))
    }

    /// The boolean type.
    pub fn ty_bool(&mut self) -> (r: TyId)
        ensures
            final(self).same_but_types(old(self)),
            r.0 < final(self).types@.len(),
            final(self).types@[r.0 as int] == MirTy::Bool,
            old(self).types@.is_prefix_of(final(self).types@),
            r.0 == type_pos(old(self).types@, MirTy::Bool),
            final(self).types@ == types_interned(old(self).types@, MirTy::Bool),
    {
        self.intern_type(MirTy::Bool)
    }
}

impl MirContext {
    /// Only the blocks changed.
    pub open spec fn same_but_blocks(&self, other: &MirContext) -> bool {
        &&& self.names == other.names
        &&& self.types == other.types
        &&& self.functions == other.functions
        &&& self.locals == other.locals
        &&& self.statics == other.statics
    }

    /// Block `b` changed and every other block is unchanged.
    pub open spec fn only_block_changed(&self, other: &MirContext, b: BlockId) -> bool {
        &&& self.same_but_blocks(other)
        &&& self.blocks@.len() == other.blocks@.len()
        &&& forall|j: int| 0 <= j < self.blocks@.len() && j != b.0 ==> self.blocks@[j] == other.blocks@[j]
    }

    /// The views of the statements of block `b`.
    pub open spec fn stmts_of(&self, b: BlockId) -> Seq<StmtV> {
        stmts_view(self.blocks@[b.0 as int].statements@)
    }

    /// The terminator of block `b`, viewed.
    pub open spec fn term_of(&self, b: BlockId) -> Option<TermV> {
        term_view(self.blocks@[b.0 as int].terminator)
    }

    /// Appends a statement to block `b`.
    pub fn push_statement(&mut self, b: BlockId, kind: StatementKind)
        requires
            b.0 < old(self).blocks@.len(),
        ensures
            final(self).only_block_changed(old(self), b),
            final(self).stmts_of(b) == old(self).stmts_of(b).push(kind@),
            final(self).blocks@[b.0 as int].statements@ == old(self).blocks@[b.0 as int].statements@.push(kind),
            final(self).blocks@[b.0 as int].terminator == old(self).blocks@[b.0 as int].terminator,
    {
        let ghost k = kind;
        self.blocks[b.0].statements.push(kind);
        assert(self.stmts_of(b) =~= old(self).stmts_of(b).push(k@));
    }

    /// Inserts a statement at position `i` of block `b`.
    pub fn insert_statement(&mut self, b: BlockId, i: usize, kind: StatementKind)
        requires
            b.0 < old(self).blocks@.len(),
            i <= old(self).blocks@[b.0 as int].statements@.len(),
        ensures
            final(self).only_block_changed(old(self), b),
            final(self).stmts_of(b) == old(self).stmts_of(b).insert(i as int, kind@),
            final(self).blocks@[b.0 as int].terminator == old(self).blocks@[b.0 as int].terminator,
    {
        let ghost k = kind;
        self.blocks[b.0].statements.insert(i, kind);
        assert(self.stmts_of(b) =~= old(self).stmts_of(b).insert(i as int, k@));
    }

    /// Sets the terminator of block `b`.
    pub fn set_terminator(&mut self, b: BlockId, kind: TerminatorKind)
        requires
            b.0 < old(self).blocks@.len(),
        ensures
            final(self).only_block_changed(old(self), b),
            final(self).blocks@[b.0 as int].statements == old(self).blocks@[b.0 as int].statements,
            final(self).term_of(b) == Some(kind@),
            final(self).blocks@[b.0 as int].terminator == Some(kind),
    {
        self.blocks[b.0].terminator = Some(kind);
    }

    /// Allocates a new empty block belonging to function `f`.
    pub fn add_block(&mut self, f: FunctionId) -> (r: BlockId)
        requires
            f.0 < old(self).functions@.len(),
        ensures
            r.0 == old(self).blocks@.len(),
            final(self).blocks@.len() == old(self).blocks@.len() + 1,
            forall|j: int| 0 <= j < old(self).blocks@.len() ==> final(self).blocks@[j] == old(self).blocks@[j],
            final(self).blocks@[r.0 as int].statements@.len() == 0,
            final(self).blocks@[r.0 as int].terminator is None,
            final(self).names == old(self).names,
            final(self).types == old(self).types,
            final(self).locals == old(self).locals,
            final(self).statics == old(self).statics,
            final(self).functions@.len() == old(self).functions@.len(),
            forall|j: int| 0 <= j < old(self).functions@.len() && j != f.0 ==> final(self).functions@[j] == old(self).functions@[j],
            final(self).functions@[f.0 as int].blocks@ == old(self).functions@[f.0 as int].blocks@.push(r),
            final(self).functions@[f.0 as int].locals == old(self).functions@[f.0 as int].locals,
            final(self).functions@[f.0 as int].name == old(self).functions@[f.0 as int].name,
            final(self).functions@[f.0 as int].entry_block == old(self).functions@[f.0 as int].entry_block,
            final(self).functions@[f.0 as int].params == old(self).functions@[f.0 as int].params,
            final(self).functions@[f.0 as int].return_ty == old(self).functions@[f.0 as int].return_ty,
    {
        let id = BlockId(self.blocks.len());
        self.blocks.push(BasicBlock { statements: Vec::new(), terminator: None });
        self.functions[f.0].blocks.push(id);
        id
    }

    /// Declares a new local of function `f`.
    pub fn add_local(&mut self, f: FunctionId, name: String, ty: TyId) -> (r: LocalId)
        requires
            f.0 < old(self).functions@.len(),
        ensures
            r.0 == old(self).locals@.len(),
            final(self).locals@ == old(self).locals@.push(LocalDecl { name, ty }),
            final(self).names == old(self).names,
            final(self).types == old(self).types,
            final(self).blocks == old(self).blocks,
            final(self).statics == old(self).statics,
            final(self).functions@.len() == old(self).functions@.len(),
            forall|j: int| 0 <= j < old(self).functions@.len() && j != f.0 ==> final(self).functions@[j] == old(self).functions@[j],
            final(self).functions@[f.0 as int].locals@ == old(self).functions@[f.0 as int].locals@.push(r),
            final(self).functions@[f.0 as int].blocks == old(self).functions@[f.0 as int].blocks,
            final(self).functions@[f.0 as int].params == old(self).functions@[f.0 as int].params,
            final(self).functions@[f.0 as int].name == old(self).functions@[f.0 as int].name,
            final(self).functions@[f.0 as int].return_ty == old(self).functions@[f.0 as int].return_ty,
            final(self).functions@[f.0 as int].entry_block == old(self).functions@[f.0 as int].entry_block,
    {
        let id = LocalId(self.locals.len());
        self.locals.push(LocalDecl { name, ty });
        self.functions[f.0].locals.push(id);
        id
    }

    /// Declares a new parameter of function `f` (also one of its locals).
    pub fn add_param(&mut self, f: FunctionId, name: String, ty: TyId) -> (r: LocalId)
        requires
            f.0 < old(self).functions@.len(),
        ensures
            r.0 == old(self).locals@.len(),
            final(self).locals@ == old(self).locals@.push(LocalDecl { name, ty }),
            final(self).names == old(self).names,
            final(self).blocks == old(self).blocks,
            final(self).functions@.len() == old(self).functions@.len(),
            final(self).functions@[f.0 as int].locals@ == old(self).functions@[f.0 as int].locals@.push(r),
            final(self).functions@[f.0 as int].params@ == old(self).functions@[f.0 as int].params@.push(r),
    {
        let id = self.add_local(f, name, ty);
        self.functions[f.0].params.push(id);
        id
    }

    /// Adds a function with no locals and no blocks.
    pub fn add_function(&mut self, name: NameId, return_ty: TyId) -> (r: FunctionId)
        ensures
            r.0 == old(self).functions@.len(),
            final(self).functions@.len() == old(self).functions@.len() + 1,
            forall|j: int| 0 <= j < old(self).functions@.len() ==> final(self).functions@[j] == old(self).functions@[j],
            final(self).functions@[r.0 as int].name == name,
            final(self).functions@[r.0 as int].return_ty == return_ty,
            final(self).functions@[r.0 as int].params@.len() == 0,
            final(self).functions@[r.0 as int].locals@.len() == 0,
            final(self).functions@[r.0 as int].blocks@.len() == 0,
            final(self).functions@[r.0 as int].entry_block is None,
            final(self).names == old(self).names,
            final(self).types == old(self).types,
            final(self).blocks == old(self).blocks,
            final(self).locals == old(self).locals,
            final(self).statics == old(self).statics,
    {
        let id = FunctionId(self.functions.len());
        self.functions.push(Function {
            name,
            return_ty,
            params: Vec::new(),
            locals: Vec::new(),
            blocks: Vec::new(),
            entry_block: None,
        });
        id
    }

    /// Sets the entry block of function `f`.
    pub fn set_entry_block(&mut self, f: FunctionId, b: BlockId)
        requires
            f.0 < old(self).functions@.len(),
        ensures
            final(self).functions@.len() == old(self).functions@.len(),
            forall|j: int| 0 <= j < old(self).functions@.len() && j != f.0 ==> final(self).functions@[j] == old(self).functions@[j],
            final(self).functions@[f.0 as int].entry_block == Some(b),
            final(self).functions@[f.0 as int].name == old(self).functions@[f.0 as int].name,
            final(self).functions@[f.0 as int].return_ty == old(self).functions@[f.0 as int].return_ty,
            final(self).functions@[f.0 as int].params == old(self).functions@[f.0 as int].params,
            final(self).functions@[f.0 as int].locals == old(self).functions@[f.0 as int].locals,
            final(self).functions@[f.0 as int].blocks == old(self).functions@[f.0 as int].blocks,
            final(self).names == old(self).names,
            final(self).types == old(self).types,
            final(self).blocks == old(self).blocks,
            final(self).locals == old(self).locals,
            final(self).statics == old(self).statics,
    {
        self.functions[f.0].entry_block = Some(b);
    }

    /// Adds a static variable.
    pub fn add_static(&mut self, name: NameId, ty: TyId)
        ensures
            final(self).statics@ == old(self).statics@.push(StaticDef { name, ty }),
            final(self).names == old(self).names,
            final(self).types == old(self).types,
            final(self).functions == old(self).functions,
            final(self).blocks == old(self).blocks,
            final(self).locals == old(self).locals,
    {
        self.statics.push(StaticDef { name, ty });
    }
}

/// Whether two name lists hold the same characters, part for part.
pub fn parts_equal(a: &Vec<String>, b: &Vec<String>) -> (r: bool)
    ensures
        r == same_parts(a@, b@),
{
    if a.len() != b.len() {
        assert(string_views(a@).len() != string_views(b@).len());
        return false;
    }
    let mut i: usize = 0;
    while i < a.len()
        invariant
            a@.len() == b@.len(),
            i <= a@.len(),
            forall|k: int| 0 <= k < i ==> a@[k]@ == b@[k]@,
        decreases a.len() - i,
    {
        if a[i] != b[i] {
            assert(string_views(a@)[i as int] != string_views(b@)[i as int]);
            return false;
        }
        i = i + 1;
    }
    assert(string_views(a@) =~= string_views(b@));
    true
}

} // verus!
