//! The resolved syntax tree the scanner walks.
//!
//! The tree mirrors the statement-level surface of a parsed source file,
//! with every name-resolution answer the scanner needs already attached
//! to the node that uses it: each use-site carries its canonical path,
//! its type classification, its foreign-module identity and whether its
//! declaration is unsafe.  The parser bridge builds this tree from the
//! parsed file and the resolution oracle; the scanner is a pure walk
//! over it.

use vstd::prelude::*;

use crate::effect::{Span, Visibility};
use crate::ident::CanonicalPath;

verus! {

/// An attribute: a `#[cfg(...)]` list with its argument tokens rendered
/// as text, or any other attribute.
pub enum Attr {
    CfgList { args: String },
    OtherAttr,
}

/// A use-site path, with the resolver's answers about it.
pub struct PathUse {
    pub resolved: CanonicalPath,
    pub is_function: bool,
    pub is_fn_ptr: bool,
    pub is_mut_static: bool,
    pub ffi: Option<CanonicalPath>,
    pub is_unsafe_decl: bool,
    pub span: Span,
}

/// A method-call name, resolved.
pub struct MethodUse {
    pub resolved: CanonicalPath,
    pub is_unsafe_decl: bool,
    pub span: Span,
}

/// A named-field use, with the resolver's type answers.
pub struct FieldUse {
    pub resolved: CanonicalPath,
    pub is_union_field: bool,
    pub is_raw_ptr: bool,
    pub is_unsafe_decl: bool,
    pub span: Span,
}

/// A tuple-index field use, resolved.
pub struct IndexFieldUse {
    pub resolved: CanonicalPath,
    pub span: Span,
}

/// A struct member named at a call site.
pub enum MemberUse {
    Named(FieldUse),
    Unnamed(IndexFieldUse),
}

/// A function signature: its resolved definition path, unsafety and span.
pub struct FnSigInfo {
    pub resolved_def: CanonicalPath,
    pub is_unsafe: bool,
    pub span: Span,
}

/// A parsed source file.
pub struct SourceFile {
    pub items: Vec<Item>,
    pub span: Span,
}

/// A top-level or module-level item.
pub enum Item {
    Mod(ModItem),
    Use(UseItem),
    Impl(ImplBlock),
    Fn(FnItem),
    Trait(TraitItem),
    ForeignMod(ForeignMod),
    MacroItem { span: Span },
    OtherItem { span: Span },
}

/// A module, inline (with content) or out-of-line.
pub struct ModItem {
    pub attrs: Vec<Attr>,
    pub content: Option<Vec<Item>>,
    pub span: Span,
}

/// A `use` declaration; its bindings are the bridge's concern.
pub struct UseItem {
    pub span: Span,
}

/// An impl block.
pub struct ImplBlock {
    pub attrs: Vec<Attr>,
    pub is_unsafe: bool,
    pub trait_path: Option<CanonicalPath>,
    pub self_type: Option<CanonicalPath>,
    pub items: Vec<ImplMember>,
    pub span: Span,
}

/// One member of an impl block.
pub enum ImplMember {
    Method(FnItem),
    MacroMember { span: Span },
    VerbatimMember { span: Span },
    OtherMember { span: Span },
}

/// A function declaration with a body: a free function or a method.
pub struct FnItem {
    pub attrs: Vec<Attr>,
    pub sig: FnSigInfo,
    pub vis: Visibility,
    pub body: Vec<Stmt>,
    pub body_span: Span,
    pub span: Span,
}

/// A trait declaration.
pub struct TraitItem {
    pub attrs: Vec<Attr>,
    pub resolved_def: CanonicalPath,
    pub is_unsafe: bool,
    pub span: Span,
}

/// A foreign (extern) module.
pub struct ForeignMod {
    pub attrs: Vec<Attr>,
    pub items: Vec<ForeignItem>,
    pub span: Span,
}

/// One item of a foreign module.
pub enum ForeignItem {
    ForeignFn { span: Span },
    ForeignMacro { span: Span },
    ForeignOther { span: Span },
}

/// A statement of a function body or block.
pub enum Stmt {
    Local { init: Option<Box<Expr>>, diverge: Option<Box<Expr>>, span: Span },
    ExprStmt(Box<Expr>),
    ItemStmt(Box<Item>),
    MacroStmt { span: Span },
}

/// One arm of a match expression.
pub struct MatchArm {
    pub guard: Option<Box<Expr>>,
    pub body: Box<Expr>,
}

/// The callee position of a call expression.
pub enum CallFn {
    FnPath(PathUse),
    FnParen(Box<CallFn>),
    FnField(MemberUse),
    FnMacro { span: Span },
    FnOther { span: Span },
}

/// An expression.
pub enum Expr {
    Array { elems: Vec<Expr>, span: Span },
    Assign { left: Box<Expr>, right: Box<Expr>, span: Span },
    AsyncBlock { stmts: Vec<Stmt>, span: Span },
    Await { base: Box<Expr>, span: Span },
    Binary { left: Box<Expr>, right: Box<Expr>, span: Span },
    BlockExpr { stmts: Vec<Stmt>, span: Span },
    Break { value: Option<Box<Expr>>, span: Span },
    CallExpr { func: Box<CallFn>, args: Vec<Expr>, span: Span },
    Cast { expr: Box<Expr>, span: Span },
    /// A closure literal under its synthetic identity; the body is not
    /// evaluated where it is written, and is not scanned.
    ClosureExpr { ident: Option<CanonicalPath>, span: Span },
    ContinueExpr { span: Span },
    FieldAccess { base: Box<Expr>, member: Option<FieldUse>, span: Span },
    ForLoop { expr: Box<Expr>, body: Vec<Stmt>, span: Span },
    Group { expr: Box<Expr>, span: Span },
    IfExpr { cond: Box<Expr>, then_branch: Vec<Stmt>, else_branch: Option<Box<Expr>>, span: Span },
    IndexExpr { expr: Box<Expr>, index: Box<Expr>, span: Span },
    LetExpr { expr: Box<Expr>, span: Span },
    Lit { span: Span },
    LoopExpr { body: Vec<Stmt>, span: Span },
    MacroExpr { span: Span },
    MatchExpr { expr: Box<Expr>, arms: Vec<MatchArm>, span: Span },
    MethodCall { receiver: Box<Expr>, args: Vec<Expr>, method: MethodUse, span: Span },
    Paren { expr: Box<Expr>, span: Span },
    PathExpr { path: PathUse, span: Span },
    RangeExpr { start: Option<Box<Expr>>, end: Option<Box<Expr>>, span: Span },
    Reference { expr: Box<Expr>, span: Span },
    Repeat { expr: Box<Expr>, len: Box<Expr>, span: Span },
    ReturnExpr { value: Option<Box<Expr>>, span: Span },
    StructExpr { fields: Vec<Expr>, rest: Option<Box<Expr>>, span: Span },
    TryExpr { expr: Box<Expr>, span: Span },
    TryBlock { stmts: Vec<Stmt>, span: Span },
    TupleExpr { elems: Vec<Expr>, span: Span },
    /// A unary operation; for a dereference, the identifier tokens of the
    /// operand with their resolved field types.
    Unary { is_deref: bool, deref_fields: Vec<FieldUse>, expr: Box<Expr>, span: Span },
    UnsafeBlock { stmts: Vec<Stmt>, span: Span },
    Verbatim { span: Span },
    WhileExpr { cond: Box<Expr>, body: Vec<Stmt>, span: Span },
    Yield { value: Option<Box<Expr>>, span: Span },
    UnknownExpr { span: Span },
}

} // verus!
