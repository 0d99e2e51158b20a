//! The syntax tree of a Clifford program.
//!
//! Clifford has two layers, told apart by sigils: the functional layer (`@`)
//! and the imperative layer (`#`).
use vstd::prelude::*;

verus! {

/// A byte range of the source text.
#[derive(Debug, Clone, Copy, PartialEq, Eq, Hash, Structural)]
pub struct Span {
    /// First byte.
    pub start: usize,
    /// One past the last byte.
    pub end: usize,
}

impl Span {
    /// The range from `start` up to, not including, `end`.
    pub fn new(start: usize, end: usize) -> (r: Span)
        ensures
            r == (Span { start, end }),
    {
        Span { start, end }
    }
}

impl Default for Span {
    fn default() -> (r: Span)
        ensures
            r == (Span { start: 0, end: 0 }),
    {
        Span { start: 0, end: 0 }
    }
}

/// The sigil layer of an item.
#[derive(Debug, Clone, Copy, PartialEq, Eq, Hash, Structural)]
pub enum Layer {
    /// `@`-prefixed: pure by default, holds no `#`-construct.
    Functional,
    /// `#`-prefixed: may mutate state and may call `@fn` freely.
    Imperative,
}

impl Layer {
    /// True for the functional layer.
    pub fn is_functional(self) -> (r: bool)
        ensures
            r == (self == Layer::Functional),
    {
        matches!(self, Layer::Functional)
    }

    /// True for the imperative layer.
    pub fn is_imperative(self) -> (r: bool)
        ensures
            r == (self == Layer::Imperative),
    {
        matches!(self, Layer::Imperative)
    }
}

/// Every layer is either functional or imperative, and never both.
pub proof fn layers_partition(l: Layer)
    ensures
        (l == Layer::Functional) != (l == Layer::Imperative),
{
}

/// A whole source file.
#[derive(Debug, PartialEq, Eq)]
pub struct Program {
    /// The range of the file.
    pub span: Span,
    /// Top-level items in source order.
    pub items: Vec<Item>,
}

impl Default for Program {
    fn default() -> (r: Program)
        ensures
            r.span == (Span { start: 0, end: 0 }),
            r.items@.len() == 0,
    {
        Program { span: Span { start: 0, end: 0 }, items: Vec::new() }
    }
}

/// A top-level item.
#[derive(Debug, PartialEq, Eq)]
pub enum Item {
    /// `@fn`.
    Fn(FnDecl),
    /// `#automaton`.
    Automaton(AutomatonDecl),
    /// `@type`.
    Type(TypeDecl),
    /// `@trait`.
    Trait(TraitDecl),
    /// `#effect`.
    Effect(EffectDecl),
    /// `#interrupt`.
    Interrupt(InterruptDecl),
    /// `#interface`.
    Interface(InterfaceDecl),
    /// `#impl Interface for Automaton`.
    Impl(ImplDecl),
    /// `#test "description"`.
    Test(TestDecl),
    /// `@sequential(A, B);`.
    Sequential(SequentialAttr),
}

impl Item {
    /// The layer that the item's sigil puts it in.
    pub open spec fn layer_spec(self) -> Layer {
        if self is Fn || self is Type || self is Trait || self is Sequential {
            Layer::Functional
        } else {
            Layer::Imperative
        }
    }

    /// The layer of the item.
    pub fn layer(&self) -> (r: Layer)
        ensures
            r == self.layer_spec(),
    {
        match self {
            Item::Fn(_) | Item::Type(_) | Item::Trait(_) | Item::Sequential(_) => Layer::Functional,
            Item::Automaton(_)
            | Item::Effect(_)
            | Item::Interrupt(_)
            | Item::Interface(_)
            | Item::Impl(_)
            | Item::Test(_) => Layer::Imperative,
        }
    }

    /// The range that the declaration carries.
    pub open spec fn span_spec(self) -> Span {
        match self {
            Item::Fn(d) => d.span,
            Item::Type(d) => d.span,
            Item::Trait(d) => d.span,
            Item::Automaton(d) => d.span,
            Item::Effect(d) => d.span,
            Item::Interrupt(d) => d.span,
            Item::Interface(d) => d.span,
            Item::Impl(d) => d.span,
            Item::Test(d) => d.span,
            Item::Sequential(d) => d.span,
        }
    }

    /// The range of the whole item.
    pub fn span(&self) -> (r: Span)
        ensures
            r == self.span_spec(),
    {
        match self {
            Item::Fn(d) => d.span,
            Item::Type(d) => d.span,
            Item::Trait(d) => d.span,
            Item::Automaton(d) => d.span,
            Item::Effect(d) => d.span,
            Item::Interrupt(d) => d.span,
            Item::Interface(d) => d.span,
            Item::Impl(d) => d.span,
            Item::Test(d) => d.span,
            Item::Sequential(d) => d.span,
        }
    }
}

/// `@fn name(params) -> T $ [Traits] { body }`.
#[derive(Debug, PartialEq, Eq)]
pub struct FnDecl {
    pub name: String,
    pub params: Vec<Param>,
    pub return_type: Option<TypeExpr>,
    pub trait_list: Vec<TraitRef>,
    /// `@partial`: the function may fail to terminate.
    pub partial: bool,
    pub body: Block,
    pub span: Span,
}

/// A parameter `name: ty`.
#[derive(Debug, PartialEq, Eq)]
pub struct Param {
    pub mutable: bool,
    pub name: String,
    pub ty: TypeExpr,
    pub span: Span,
}

/// `#automaton Name { … }`.
#[derive(Debug, PartialEq, Eq)]
pub struct AutomatonDecl {
    pub name: String,
    /// `#address:`, present on a register block.
    pub address: Option<AddressClause>,
    pub basis: Option<BasisClause>,
    /// `#states: […]`; absent on a monoid automaton.
    pub states: Option<Vec<StateName>>,
    pub fields: Vec<AutomatonField>,
    pub transitions: Vec<TransitionDecl>,
    /// `#staged`: writes are buffered until a `#flush`.
    pub staged: bool,
    /// `#audit`: unsafe primitives in transition bodies are marked.
    pub audited: bool,
    pub span: Span,
}

/// `#address: 0x…`.
#[derive(Debug, PartialEq, Eq)]
pub struct AddressClause {
    pub value: String,
    pub span: Span,
}

/// `#basis: name`.
#[derive(Debug, PartialEq, Eq)]
pub struct BasisClause {
    pub name: String,
    pub span: Span,
}

/// A name in a `#states` list.
#[derive(Debug, PartialEq, Eq)]
pub struct StateName {
    pub name: String,
    pub span: Span,
}

/// A field of an automaton.
#[derive(Debug, PartialEq, Eq)]
pub struct AutomatonField {
    pub name: String,
    pub ty: TypeExpr,
    /// `#offset: 0x…`, on the fields of a register block.
    pub offset: Option<String>,
    pub access: Option<AccessMode>,
    pub kind: FieldKind,
    pub hidden: bool,
    pub span: Span,
}

/// How a field is shared.
#[derive(Debug, Clone, Copy, PartialEq, Eq, Structural)]
pub enum FieldKind {
    /// Owned by its automaton.
    Private,
}

/// How a register may be accessed.
#[derive(Debug, Clone, Copy, PartialEq, Eq, Hash, Structural)]
pub enum AccessMode {
    Read,
    Write,
    ReadWrite,
}

/// `#transition name -> Destination { body }`.
#[derive(Debug, PartialEq, Eq)]
pub struct TransitionDecl {
    pub name: String,
    pub destination: Option<String>,
    pub trait_list: Vec<TraitRef>,
    pub atomic: Option<AtomicKind>,
    pub body: Block,
    pub span: Span,
}

/// `#effect name(params) #mutates: […] #cannot_mutate: […] { body }`.
#[derive(Debug, PartialEq, Eq)]
pub struct EffectDecl {
    pub name: String,
    pub params: Vec<Param>,
    pub return_type: Option<TypeExpr>,
    pub mutates: Vec<String>,
    pub cannot_mutate: Vec<String>,
    pub trait_list: Vec<TraitRef>,
    pub atomic: Option<AtomicKind>,
    pub body: Block,
    pub span: Span,
}

/// `#interrupt NAME() #mutates: […] #priority: … { body }`.
#[derive(Debug, PartialEq, Eq)]
pub struct InterruptDecl {
    pub name: String,
    pub params: Vec<Param>,
    pub return_type: Option<TypeExpr>,
    pub mutates: Vec<String>,
    pub priority: PriorityLevel,
    pub trait_list: Vec<TraitRef>,
    pub atomic: Option<AtomicKind>,
    pub body: Block,
    pub span: Span,
}

/// The scope of an `#atomic:` clause.
#[derive(Debug, PartialEq, Eq)]
pub enum AtomicKind {
    /// No interrupt may run inside the body.
    InterruptCritical,
    /// No other core may run inside the body.
    MulticoreCritical,
    /// A scope named by the user.
    Custom(String),
}

/// The value of a `#priority:` clause.
#[derive(Debug, PartialEq, Eq)]
pub enum PriorityLevel {
    Low,
    Medium,
    High,
    Numeric(String),
}

/// `#interface Name { methods }`.
#[derive(Debug, PartialEq, Eq)]
pub struct InterfaceDecl {
    pub name: String,
    pub generic_params: Vec<GenericParam>,
    pub methods: Vec<InterfaceMethod>,
    pub span: Span,
}

/// A method signature of an `#interface`.
#[derive(Debug, PartialEq, Eq)]
pub struct InterfaceMethod {
    pub name: String,
    pub params: Vec<Param>,
    pub return_type: Option<TypeExpr>,
    pub span: Span,
}

/// `@trait Name { methods }`.
#[derive(Debug, PartialEq, Eq)]
pub struct TraitDecl {
    pub name: String,
    pub generic_params: Vec<GenericParam>,
    pub methods: Vec<TraitMethod>,
    pub span: Span,
}

/// A method signature of an `@trait`.
#[derive(Debug, PartialEq, Eq)]
pub struct TraitMethod {
    pub name: String,
    pub params: Vec<Param>,
    pub return_type: Option<TypeExpr>,
    pub trait_list: Vec<TraitRef>,
    pub span: Span,
}

/// `#impl Interface for Automaton { … }`.
#[derive(Debug, PartialEq, Eq)]
pub struct ImplDecl {
    pub interface_name: String,
    pub automaton_name: String,
    pub span: Span,
}

/// `#test "description" { … }`.
#[derive(Debug, PartialEq, Eq)]
pub struct TestDecl {
    pub description: String,
    pub span: Span,
}

/// `@type Name = …;`.
#[derive(Debug, PartialEq, Eq)]
pub struct TypeDecl {
    pub name: String,
    pub generic_params: Vec<GenericParam>,
    pub body: TypeBody,
    pub span: Span,
}

/// The right-hand side of an `@type`.
#[derive(Debug, PartialEq, Eq)]
pub enum TypeBody {
    /// Another name for a type.
    Alias(TypeExpr),
    /// A sum type.
    Adt(Vec<Variant>),
}

/// A variant of a sum type.
#[derive(Debug, PartialEq, Eq)]
pub struct Variant {
    pub name: String,
    pub data: VariantData,
    pub span: Span,
}

/// What a variant carries.
#[derive(Debug, PartialEq, Eq)]
pub enum VariantData {
    Unit,
    Tuple(Vec<TypeExpr>),
    Struct(Vec<Field>),
}

/// A named field of a variant.
#[derive(Debug, PartialEq, Eq)]
pub struct Field {
    pub name: String,
    pub ty: TypeExpr,
    pub span: Span,
}

/// A generic parameter with its bounds.
#[derive(Debug, PartialEq, Eq)]
pub struct GenericParam {
    pub name: String,
    pub bounds: Vec<TraitRef>,
    pub span: Span,
}

/// `@sequential(A, B);`: the two automatons never run concurrently.
#[derive(Debug, PartialEq, Eq)]
pub struct SequentialAttr {
    pub a: String,
    pub b: String,
    pub span: Span,
}

/// A type as written.
#[derive(Debug, PartialEq, Eq)]
pub struct TypeExpr {
    pub kind: TypeKind,
    pub span: Span,
}

/// The forms of a written type.
#[derive(Debug, PartialEq, Eq)]
pub enum TypeKind {
    /// `()`.
    Unit,
    Primitive(PrimitiveType),
    Path(PathType),
    /// `&T`, `&mut T`.
    Ref(RefType),
    /// `access<T>`.
    Access(AccessType),
    /// `[T; N]`.
    Array(ArrayType),
    /// `[T]`.
    Slice(SliceType),
    /// `(T1, T2, …)`.
    Tuple(TupleType),
    /// `@fn(…) -> T`.
    Fn(FnType),
}

/// The primitive types.
#[derive(Debug, Clone, Copy, PartialEq, Eq, Hash, Structural)]
pub enum PrimitiveType {
    U8,
    U16,
    U32,
    U64,
    Usize,
    I8,
    I16,
    I32,
    I64,
    Isize,
    F32,
    F64,
    Bool,
    Char,
}

/// A named type.
#[derive(Debug, PartialEq, Eq)]
pub struct PathType {
    pub segments: Vec<String>,
    pub generic_args: Vec<TypeExpr>,
}

/// `&T` or `&mut T`.
#[derive(Debug, PartialEq, Eq)]
pub struct RefType {
    pub mutable: bool,
    pub inner: Box<TypeExpr>,
}

/// `access<T>` or `access<const T>`.
#[derive(Debug, PartialEq, Eq)]
pub struct AccessType {
    pub is_const: bool,
    pub inner: Box<TypeExpr>,
}

/// `[T; N]`.
#[derive(Debug, PartialEq, Eq)]
pub struct ArrayType {
    pub element: Box<TypeExpr>,
    pub size: ArraySize,
}

/// The length of an array type, as written.
#[derive(Debug, PartialEq, Eq)]
pub enum ArraySize {
    IntLiteral(String),
}

/// `[T]`.
#[derive(Debug, PartialEq, Eq)]
pub struct SliceType {
    pub element: Box<TypeExpr>,
}

/// `(T1, T2, …)`.
#[derive(Debug, PartialEq, Eq)]
pub struct TupleType {
    pub elements: Vec<TypeExpr>,
}

/// A function pointer type.
#[derive(Debug, PartialEq, Eq)]
pub struct FnType {
    pub params: Vec<TypeExpr>,
    pub return_type: Option<Box<TypeExpr>>,
    pub trait_list: Vec<TraitRef>,
}

/// A trait in a `$ […]` list or a bound.
#[derive(Debug, PartialEq, Eq)]
pub struct TraitRef {
    pub name: String,
    pub generic_args: Vec<TypeExpr>,
    pub span: Span,
}

/// An expression.
#[derive(Debug, PartialEq, Eq)]
pub struct Expr {
    pub kind: ExprKind,
    pub span: Span,
}

/// The forms of an expression.
#[derive(Debug, PartialEq, Eq)]
#[allow(inconsistent_fields)]
pub enum ExprKind {
    /// Decimal literal, as written.
    IntLit(String),
    /// `0x…` literal, as written.
    HexLit(String),
    /// `0b…` literal, as written.
    BinLit(String),
    FloatLit(String),
    CharLit(char),
    ByteLit(u8),
    StringLit(String),
    BoolLit(bool),
    Null,
    /// `a`, `a::b`.
    Path(Vec<String>),
    /// `Auto@state`.
    StateRead(String),
    /// `@snapshot Auto.field`.
    Snapshot { automaton: String, field: String },
    /// `@shadow Auto.field`.
    Shadow { automaton: String, field: String },
    Paren(Box<Expr>),
    Tuple(Vec<Expr>),
    Array(Vec<Expr>),
    /// `[value; count]`.
    ArrayRepeat { value: Box<Expr>, count: Box<Expr> },
    FieldAccess { obj: Box<Expr>, field: String },
    Index { obj: Box<Expr>, index: Box<Expr> },
    Call { callee: Box<Expr>, args: Vec<Expr> },
    MethodCall { obj: Box<Expr>, method: String, args: Vec<Expr> },
    Unary { op: UnaryOp, operand: Box<Expr> },
    /// `&operand`, `&mut operand`.
    Ref { mutable: bool, operand: Box<Expr> },
    Binary { op: BinaryOp, lhs: Box<Expr>, rhs: Box<Expr> },
    /// `value as ty`.
    Cast { value: Box<Expr>, ty: TypeExpr },
    /// `lo..hi`, `lo..=hi`.
    Range { lo: Box<Expr>, hi: Box<Expr>, inclusive: bool },
    /// `#unchecked_load<ty>(ptr)`.
    UncheckedLoad { ty: TypeExpr, ptr: Box<Expr> },
    /// `#volatile_load<ty>(ptr)`.
    VolatileLoad { ty: TypeExpr, ptr: Box<Expr> },
    /// `#unchecked_cast<from_ty, to_ty>("reason", value)`.
    UncheckedCast { from_ty: TypeExpr, to_ty: TypeExpr, reason: String, value: Box<Expr> },
    /// `#unchecked_offset<ty>(ptr, n)`.
    UncheckedOffset { ty: TypeExpr, ptr: Box<Expr>, n: Box<Expr> },
}

/// Prefix operators.
#[derive(Debug, Clone, Copy, PartialEq, Eq, Hash, Structural)]
pub enum UnaryOp {
    Neg,
    Not,
    BitNot,
    Deref,
}

/// Infix operators.
#[derive(Debug, Clone, Copy, PartialEq, Eq, Hash, Structural)]
pub enum BinaryOp {
    Or,
    And,
    Eq,
    Ne,
    Lt,
    Le,
    Gt,
    Ge,
    BitOr,
    BitXor,
    BitAnd,
    Shl,
    Shr,
    Add,
    Sub,
    Mul,
    Div,
    Rem,
}

/// A statement.
#[derive(Debug, PartialEq, Eq)]
pub struct Stmt {
    pub kind: StmtKind,
    pub span: Span,
}

/// The forms of a statement.
#[derive(Debug, PartialEq, Eq)]
#[allow(inconsistent_fields)]
pub enum StmtKind {
    /// `let [mut] name[: ty] = value;`.
    Let { mutable: bool, name: String, ty: Option<TypeExpr>, value: Expr },
    /// `let name := value;`.
    LetShort { name: String, value: Expr },
    Expr(Expr),
    Return(Option<Expr>),
    /// `#mutate Auto { field = value, … };`.
    Mutate { automaton: String, assigns: Vec<FieldAssign> },
    /// `Auto.field <op>= value;`.
    MutateShort { automaton: String, field: String, op: AssignOp, value: Expr },
    /// `#> name(args);`.
    ProcCall { name: String, args: Vec<Expr> },
    /// `#unchecked_store<ty>(ptr, value);`.
    UncheckedStore { ty: TypeExpr, ptr: Expr, value: Expr },
    /// `#volatile_store<ty>(ptr, value);`.
    VolatileStore { ty: TypeExpr, ptr: Expr, value: Expr },
    /// `sigma var in source { body }`.
    Sigma { var: String, source: Expr, body: Block },
    If { cond: Expr, then_block: Block, else_block: Option<Block> },
    Break,
    Continue,
    /// `#flush Auto;`.
    Flush { automaton: String },
    /// `name = value;`.
    Assign { name: String, value: Expr },
}

/// `field[index] = value` in a `#mutate`.
#[derive(Debug, PartialEq, Eq)]
pub struct FieldAssign {
    pub field: String,
    pub index: Option<Expr>,
    pub value: Expr,
    pub span: Span,
}

/// Assignment operators.
#[derive(Debug, Clone, Copy, PartialEq, Eq, Hash, Structural)]
pub enum AssignOp {
    Eq,
    PlusEq,
    MinusEq,
    StarEq,
    SlashEq,
    PercentEq,
    AmpEq,
    PipeEq,
    CaretEq,
    ShlEq,
    ShrEq,
}

/// A braced sequence of statements.
#[derive(Debug, PartialEq, Eq)]
pub struct Block {
    pub stmts: Vec<Stmt>,
    pub span: Span,
}

impl Default for Block {
    fn default() -> (r: Block)
        ensures
            r.stmts@.len() == 0,
            r.span == (Span { start: 0, end: 0 }),
    {
        Block { stmts: Vec::new(), span: Span { start: 0, end: 0 } }
    }
}

} // verus!
