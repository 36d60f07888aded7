//! Syntax trees and name resolution results of source files.
//!
//! The compiler front end parses files and resolves names. What it finds is handed to the server
//! as the plain values of this module. Files, definitions and function bodies are told apart by
//! numbers. Spans are absolute: each names its file.
use vstd::prelude::*;

verus! {

/// A range of bytes in a file.
#[derive(Debug, Clone, Copy, PartialEq, Eq, Structural)]
pub struct Span {
    pub file: u32,
    pub start: u32,
    pub end: u32,
}

impl Span {
    /// Whether an offset of a file lies in the range, its end excluded.
    pub open spec fn holds(self, file: u32, offset: u32) -> bool {
        self.file == file && self.start <= offset < self.end
    }

    /// The number of bytes, none where the range ends before it starts.
    pub open spec fn width(self) -> nat {
        if self.start <= self.end {
            (self.end - self.start) as nat
        } else {
            0
        }
    }

    pub fn contains_offset(self, file: u32, offset: u32) -> (inside: bool)
        ensures
            inside == self.holds(file, offset),
    {
        self.file == file && self.start <= offset && offset < self.end
    }

    pub fn len(self) -> (len: u32)
        ensures
            len == self.width(),
    {
        if self.start <= self.end {
            self.end - self.start
        } else {
            0
        }
    }

    pub fn is_empty(self) -> (empty: bool)
        ensures
            empty == (self.width() == 0),
    {
        self.start >= self.end
    }
}

/// A definition, told apart by the file that holds it and a number in the file.
#[derive(Debug, Clone, Copy, PartialEq, Eq, Structural)]
pub struct DefId {
    pub file: u32,
    pub index: u32,
}

/// A function or lambda body, told apart by the file that holds it and a number in the file.
#[derive(Debug, Clone, Copy, PartialEq, Eq, Structural)]
pub struct BodyId {
    pub file: u32,
    pub index: u32,
}

/// A name at its place in the source.
pub struct Name {
    pub text: String,
    pub span: Span,
}

/// A type as written.
pub enum TypeRef {
    Named { qualifier: Option<Name>, name: Name, args: Vec<TypeRef> },
    Fn { params: Vec<TypeRef>, ret: Box<TypeRef> },
    Comptime { inner: Box<TypeRef> },
    Tuple { elems: Vec<TypeRef> },
    Error { span: Span },
}

/// A class predicate as written: a type, its class and the further arguments of the class.
pub struct PredRef {
    pub span: Span,
    pub ty: TypeRef,
    pub class: Name,
    pub args: Vec<TypeRef>,
}

pub enum FuncParam {
    Typed { comptime: bool, name: Name, ty: TypeRef },
    Untyped { comptime: bool, name: Name },
    Error { span: Span },
}

pub struct FuncSig {
    pub span: Span,
    pub name: Name,
    pub type_vars: Vec<Name>,
    pub params: Vec<FuncParam>,
    pub ret: Option<TypeRef>,
}

/// A function or lambda body. Its statements, expressions and patterns are numbered by their
/// places in the lists.
pub struct FuncBody {
    pub id: BodyId,
    pub span: Span,
    pub stmts: Vec<Stmt>,
    pub exprs: Vec<Expr>,
    pub pats: Vec<Pat>,
}

pub struct Stmt {
    pub span: Span,
    pub kind: StmtKind,
}

pub enum StmtKind {
    Let { comptime: bool, name: Name, ty: Option<TypeRef> },
    Other,
}

pub struct Expr {
    pub span: Span,
    pub kind: ExprKind,
}

pub enum ExprKind {
    Ident { name: Name },
    DotCtor { name: Name },
    Field { name: Name },
    Lambda { params: Vec<FuncParam>, body: FuncBody },
    Call { callee: usize, args: Vec<usize> },
    Error,
    Other,
}

pub struct Pat {
    pub span: Span,
    pub kind: PatKind,
}

pub enum PatKind {
    Var { name: Name },
    Ctor { qualifiers: Vec<Name>, name: Name },
    Error,
    Other,
}

#[derive(Debug, Clone, Copy, PartialEq, Eq, Structural)]
pub enum FuncKind {
    Function,
    Constructor,
    Fallback,
}

#[derive(Debug, Clone, Copy, PartialEq, Eq, Structural)]
pub enum ContractKind {
    Contract,
    Interface,
    Library,
}

/// A function with the comments in front of it.
pub struct FunctionDef {
    pub def: DefId,
    pub kind: FuncKind,
    pub span: Span,
    pub sig: FuncSig,
    pub body: Option<FuncBody>,
    pub comments: Vec<String>,
}

pub struct TypeAlias {
    pub def: DefId,
    pub span: Span,
    pub name: Name,
    pub params: Vec<Name>,
    pub ty: TypeRef,
    pub comments: Vec<String>,
}

/// A data constructor. Several fields are the elements of a tuple type.
pub struct AdtCtor {
    pub name: Name,
    pub field_count: u32,
    pub fields: TypeRef,
    pub comments: Vec<String>,
}

pub struct AdtDef {
    pub def: DefId,
    pub span: Span,
    pub name: Name,
    pub params: Vec<Name>,
    pub ctors: Vec<AdtCtor>,
    pub comments: Vec<String>,
}

/// A method of a class with the comments in front of it.
pub struct ClassMethod {
    pub sig: FuncSig,
    pub comments: Vec<String>,
}

pub struct ClassDef {
    pub def: DefId,
    pub span: Span,
    pub head: PredRef,
    pub type_vars: Vec<Name>,
    pub methods: Vec<ClassMethod>,
    pub comments: Vec<String>,
}

pub struct InstanceDef {
    pub def: DefId,
    pub span: Span,
    pub head: PredRef,
    pub type_vars: Vec<Name>,
    pub methods: Vec<FunctionDef>,
    pub comments: Vec<String>,
}

/// The initial value of a field: the whole of it and its expressions.
pub struct FieldInit {
    pub span: Span,
    pub exprs: Vec<Span>,
}

pub struct FieldDef {
    pub span: Span,
    pub name: Name,
    pub init: Option<FieldInit>,
    pub comments: Vec<String>,
}

pub enum ContractItem {
    FunctionDef(FunctionDef),
    TypeAlias(TypeAlias),
    AdtDef(AdtDef),
    Error { span: Span },
}

pub struct ContractDef {
    pub def: DefId,
    pub kind: ContractKind,
    pub span: Span,
    pub name: Name,
    pub params: Vec<Name>,
    pub fields: Vec<FieldDef>,
    pub items: Vec<ContractItem>,
    pub comments: Vec<String>,
}

/// A name that an import selects, the constructors that it selects with it, and the name that it
/// gives it.
pub struct SelectedName {
    pub name: Name,
    pub ctors: Vec<Name>,
    pub alias: Option<Name>,
}

pub enum ImportSelector {
    Wildcard,
    Names(Vec<SelectedName>),
}

/// An import with the file of the module that it resolves to.
pub struct Import {
    pub span: Span,
    pub external: bool,
    pub path: Vec<Name>,
    pub alias: Option<Name>,
    pub selector: Option<ImportSelector>,
    pub hiding: Vec<Name>,
    pub target: Option<u32>,
}

/// A name that an export lists, and the constructors that it exports with it.
pub struct ExportedName {
    pub name: Name,
    pub ctors: Vec<Name>,
}

pub enum ExportKind {
    List(Vec<ExportedName>),
    Module { alias: Option<Name> },
    Other,
}

pub struct Export {
    pub span: Span,
    pub kind: ExportKind,
}

pub enum Item {
    FunctionDef(FunctionDef),
    TypeAlias(TypeAlias),
    AdtDef(AdtDef),
    ClassDef(ClassDef),
    InstanceDef(InstanceDef),
    ContractDef(ContractDef),
    Import(Import),
    Export(Export),
    Pragma { span: Span },
    Error { span: Span },
}

pub open spec fn item_span(item: Item) -> Span {
    match item {
        Item::FunctionDef(function) => function.span,
        Item::TypeAlias(alias) => alias.span,
        Item::AdtDef(adt) => adt.span,
        Item::ClassDef(class) => class.span,
        Item::InstanceDef(instance) => instance.span,
        Item::ContractDef(contract) => contract.span,
        Item::Import(import) => import.span,
        Item::Export(export) => export.span,
        Item::Pragma { span } => span,
        Item::Error { span } => span,
    }
}

pub open spec fn contract_item_span(item: ContractItem) -> Span {
    match item {
        ContractItem::FunctionDef(function) => function.span,
        ContractItem::TypeAlias(alias) => alias.span,
        ContractItem::AdtDef(adt) => adt.span,
        ContractItem::Error { span } => span,
    }
}

impl Item {
    pub fn span(&self) -> (span: Span)
        ensures
            span == item_span(*self),
    {
        match self {
            Item::FunctionDef(function) => function.span,
            Item::TypeAlias(alias) => alias.span,
            Item::AdtDef(adt) => adt.span,
            Item::ClassDef(class) => class.span,
            Item::InstanceDef(instance) => instance.span,
            Item::ContractDef(contract) => contract.span,
            Item::Import(import) => import.span,
            Item::Export(export) => export.span,
            Item::Pragma { span } => *span,
            Item::Error { span } => *span,
        }
    }
}

impl ContractItem {
    pub fn span(&self) -> (span: Span)
        ensures
            span == contract_item_span(*self),
    {
        match self {
            ContractItem::FunctionDef(function) => function.span,
            ContractItem::TypeAlias(alias) => alias.span,
            ContractItem::AdtDef(adt) => adt.span,
            ContractItem::Error { span } => *span,
        }
    }
}

pub struct Module {
    pub span: Span,
    pub items: Vec<Item>,
}

/// A parsed file: the contents that were parsed, whether they were parsed without an error, and
/// the items found.
pub struct ParsedFile {
    pub content: Option<String>,
    pub clean: bool,
    pub module: Module,
}

#[derive(Debug, Clone, Copy, PartialEq, Eq, Structural)]
pub enum DefResolutionKind {
    Function,
    Contract,
    Adt,
    TypeAlias,
    Class,
    Instance,
}

#[derive(Debug, Clone, Copy, PartialEq, Eq, Structural)]
pub enum BuiltinCtor {
    True,
    False,
    Unit,
    Pair,
    Inl,
    Inr,
}

#[derive(Debug, Clone, Copy, PartialEq, Eq, Structural)]
pub enum BuiltinFunction {
    Invoke,
    PrimAddWord,
    PrimEqWord,
    WordToInteger,
    WordFromInteger,
    IntegerAdd,
    IntegerSub,
    IntegerMul,
    IntegerLt,
    IntegerEq,
}

#[derive(Debug, Clone, Copy, PartialEq, Eq, Structural)]
pub enum BuiltinClassMethod {
    InvokableInvoke,
    IntFromInteger,
}

#[derive(Debug, Clone, Copy, PartialEq, Eq, Structural)]
pub enum BuiltinKind {
    Type,
    Class,
    Constructor(BuiltinCtor),
    Function(BuiltinFunction),
    ClassMethod(BuiltinClassMethod),
}

/// A parameter, told apart by the body that it belongs to and its place.
#[derive(Debug, Clone, Copy, PartialEq, Eq, Structural)]
pub struct ParamId {
    pub body: BodyId,
    pub index: usize,
}

/// A contract field, told apart by its contract and its place.
#[derive(Debug, Clone, Copy, PartialEq, Eq, Structural)]
pub struct FieldId {
    pub contract: DefId,
    pub index: usize,
}

/// A binding inside a body, or a type variable.
pub enum LocalBinding {
    Let { body: BodyId, stmt: usize },
    Pattern { body: BodyId, pat: usize },
    TypeVar { owner: DefId, index: usize, name: String },
}

/// What a name stands for.
pub enum Resolution {
    Def { def: DefId, kind: DefResolutionKind },
    Ctor { ty: DefId, index: usize },
    Param(ParamId),
    Local(LocalBinding),
    Field(FieldId),
    ClassMethod { class: DefId, name: String },
    Module { name: String },
    DotCtorDeferred,
    Builtin(BuiltinKind),
    Unresolved,
}

pub struct ExprEntry {
    pub body: BodyId,
    pub expr: usize,
    pub resolution: Resolution,
}

pub struct StmtEntry {
    pub body: BodyId,
    pub stmt: usize,
    pub resolution: Resolution,
}

pub struct PatEntry {
    pub body: BodyId,
    pub pat: usize,
    pub resolution: Resolution,
}

pub struct TypeEntry {
    pub ty: TypeRef,
    pub resolution: Resolution,
}

pub struct PredEntry {
    pub pred: PredRef,
    pub resolution: Resolution,
}

/// What the names in the bodies of a function stand for.
pub struct BodyResolutionMap {
    pub exprs: Vec<ExprEntry>,
    pub stmt_bindings: Vec<StmtEntry>,
    pub pats: Vec<PatEntry>,
    pub types: Vec<TypeEntry>,
    pub preds: Vec<PredEntry>,
}

/// What the types and predicates outside of bodies stand for.
pub struct ItemResolutionFacts {
    pub types: Vec<TypeEntry>,
    pub preds: Vec<PredEntry>,
}

pub struct ScopeEntry {
    pub name: String,
    pub span: Span,
    pub resolution: Resolution,
}

pub struct CtorEntry {
    pub span: Span,
    pub ty: DefId,
    pub index: usize,
}

pub struct FieldEntry {
    pub name: String,
    pub span: Span,
    pub field: FieldId,
}

pub struct ContractScope {
    pub contract: DefId,
    pub types: Vec<ScopeEntry>,
    pub terms: Vec<ScopeEntry>,
    pub fields: Vec<FieldEntry>,
    pub ctors: Vec<CtorEntry>,
}

/// The names that the items of a module declare.
pub struct ItemScopeFacts {
    pub types: Vec<ScopeEntry>,
    pub terms: Vec<ScopeEntry>,
    pub modules: Vec<ScopeEntry>,
    pub ctors: Vec<CtorEntry>,
    pub contracts: Vec<ContractScope>,
}

#[derive(Debug, Clone, Copy, PartialEq, Eq, Structural)]
pub enum Namespace {
    Type,
    Term,
    Field,
    Module,
}

/// A name that a module imports. The resolution is missing where the name has none.
pub struct ImportedName {
    pub namespace: Namespace,
    pub name: String,
    pub resolution: Option<Resolution>,
}

/// A module that is known by a name, with its file.
pub struct NamedModule {
    pub name: String,
    pub file: Option<u32>,
}

/// The names that the imports of a module bring into it.
pub struct ModuleEnv {
    pub names: Vec<ImportedName>,
    pub modules: Vec<NamedModule>,
    pub module_origins: Vec<NamedModule>,
}

/// What the names in the bodies of the function with a root body stand for.
pub struct BodyFacts {
    pub root: BodyId,
    pub map: BodyResolutionMap,
}

/// What the names of a whole module stand for.
pub struct ResolvedModule {
    pub scope: ItemScopeFacts,
    pub item_facts: ItemResolutionFacts,
    pub bodies: Vec<BodyResolutionMap>,
}

/// The offset at which a definition begins.
pub struct DefLocation {
    pub def: DefId,
    pub offset: u32,
}

/// An inferred type. Names of type constructors are those to be shown.
pub enum Ty {
    Error,
    Unknown,
    BoundVar { index: usize },
    Named { name: String, args: Vec<Ty> },
    Function { params: Vec<Ty>, ret: Box<Ty> },
    Tuple { elems: Vec<Ty> },
    Comptime { inner: Box<Ty> },
}

/// An inferred class predicate.
pub enum Pred {
    InClass { class: String, main: Ty, args: Vec<Ty> },
    Eq { lhs: Ty, rhs: Ty },
    Error,
}

/// An inferred type with its predicates.
pub struct TyScheme {
    pub ty: Ty,
    pub preds: Vec<Pred>,
}

pub struct ExprType {
    pub body: BodyId,
    pub expr: usize,
    pub ty: Ty,
}

/// The type of what a `let` binds, and the text that the front end shows for it.
pub struct LetType {
    pub body: BodyId,
    pub stmt: usize,
    pub ty: Ty,
    pub shown: String,
}

pub struct PatType {
    pub body: BodyId,
    pub pat: usize,
    pub ty: Ty,
}

/// The inferred types of the bodies of the function with a root body.
pub struct BodyTypes {
    pub root: BodyId,
    pub scheme: TyScheme,
    pub exprs: Vec<ExprType>,
    pub lets: Vec<LetType>,
    pub pats: Vec<PatType>,
}

/// What has a type of its own.
pub enum SchemeKey {
    Function(DefId),
    Ctor { ty: DefId, index: usize },
    Field(FieldId),
    Method { class: DefId, name: String },
    Builtin(BuiltinKind),
}

/// A result type as the front end shows it: the elements of a tuple, or the whole of another
/// type.
pub enum ShownReturn {
    Tuple(Vec<String>),
    Other(String),
}

/// The type of something, and how the front end shows its parameters and its result: as they
/// were inferred and, where they are written down, as they are written.
pub struct SchemeFacts {
    pub key: SchemeKey,
    pub scheme: TyScheme,
    pub params: Vec<String>,
    pub ret: ShownReturn,
    pub source_params: Vec<Option<String>>,
    pub source_ret: Option<ShownReturn>,
}

/// What the front end knows of a source file.
pub struct SourceFacts {
    /// The number of the file.
    pub file: u32,
    /// Its path in the virtual file system.
    pub path: String,
    /// Its address in the virtual file system.
    pub url: String,
    pub content: Option<String>,
    /// Whether the file is a module of the program.
    pub is_module: bool,
    pub module: Module,
    pub scope: ItemScopeFacts,
    pub item_facts: ItemResolutionFacts,
    pub env: ModuleEnv,
    pub bodies: Vec<BodyFacts>,
    pub resolved: ResolvedModule,
    pub def_locations: Vec<DefLocation>,
    pub types: Vec<BodyTypes>,
}

/// What the front end knows of the source files, the files of the modules that the entry module
/// of the program reaches, and the types of what can be used by name.
pub struct Analysis {
    pub files: Vec<SourceFacts>,
    pub reachable: Vec<u32>,
    pub schemes: Vec<SchemeFacts>,
}

} // verus!
