//! The syntax tree that the analysis reads: one variant per statement and
//! expression kind of the language, holding the parts that can contain calls.
use vstd::prelude::*;

verus! {

/// An expression node.
#[allow(inconsistent_fields)]
pub enum Expr {
    BoolOp { values: Vec<Expr> },
    NamedExpr { target: Box<Expr>, value: Box<Expr> },
    BinOp { left: Box<Expr>, right: Box<Expr> },
    UnaryOp { operand: Box<Expr> },
    /// A lambda; only its body is kept (its default values are not scanned).
    Lambda { body: Box<Expr> },
    /// `body if test else orelse`.
    IfExp { test: Box<Expr>, body: Box<Expr>, orelse: Box<Expr> },
    Dict { items: Vec<DictItem> },
    /// A set display `{a, b}`.
    SetLiteral { elts: Vec<Expr> },
    ListComp { elt: Box<Expr>, generators: Vec<Comprehension> },
    SetComp { elt: Box<Expr>, generators: Vec<Comprehension> },
    DictComp { key: Box<Expr>, value: Box<Expr>, generators: Vec<Comprehension> },
    GeneratorExp { elt: Box<Expr>, generators: Vec<Comprehension> },
    Await { value: Box<Expr> },
    Yield { value: Option<Box<Expr>> },
    YieldFrom { value: Box<Expr> },
    Compare { left: Box<Expr>, comparators: Vec<Expr> },
    /// A call: the callee, the positional arguments and the values of the
    /// keyword arguments.
    Call { func: Box<Expr>, args: Vec<Expr>, keywords: Vec<Expr> },
    FormattedValue { value: Box<Expr>, format_spec: Option<Box<Expr>> },
    JoinedStr { values: Vec<Expr> },
    Constant,
    Attribute { value: Box<Expr>, attr: String },
    Subscript { value: Box<Expr>, slice: Box<Expr> },
    Starred { value: Box<Expr> },
    Name { id: String },
    List { elts: Vec<Expr> },
    Tuple { elts: Vec<Expr> },
    Slice { lower: Option<Box<Expr>>, upper: Option<Box<Expr>>, step: Option<Box<Expr>> },
}

/// One entry of a dict display: `key: value`, or `**value` without a key.
pub struct DictItem {
    pub key: Option<Expr>,
    pub value: Expr,
}

/// One `for ... in iter if ...` clause of a comprehension. The bound
/// variable is not kept: it contributes no call target.
pub struct Comprehension {
    pub iter: Expr,
    pub ifs: Vec<Expr>,
}

/// One `case` of a `match` statement. The pattern is not kept.
pub struct MatchCase {
    pub guard: Option<Expr>,
    pub body: Vec<Stmt>,
}

/// One `except` clause. The exception type is not kept.
pub struct ExceptHandler {
    pub body: Vec<Stmt>,
}

/// A statement node.
#[allow(inconsistent_fields)]
pub enum Stmt {
    /// A function definition: name, body and decorators. Arguments, their
    /// defaults and annotations are not kept.
    FunctionDef { name: String, body: Vec<Stmt>, decorator_list: Vec<Expr> },
    AsyncFunctionDef { name: String, body: Vec<Stmt>, decorator_list: Vec<Expr> },
    /// A class definition: name, body and decorators.
    ClassDef { name: String, body: Vec<Stmt>, decorator_list: Vec<Expr> },
    Return { value: Option<Box<Expr>> },
    Delete { targets: Vec<Expr> },
    Assign { targets: Vec<Expr>, value: Box<Expr> },
    /// `type X = value`; the alias name and its type parameters are not kept.
    TypeAlias { value: Box<Expr> },
    AugAssign { target: Box<Expr>, value: Box<Expr> },
    AnnAssign { target: Box<Expr>, annotation: Box<Expr>, value: Option<Box<Expr>> },
    For { target: Box<Expr>, iter: Box<Expr>, body: Vec<Stmt>, orelse: Vec<Stmt> },
    AsyncFor { target: Box<Expr>, iter: Box<Expr>, body: Vec<Stmt>, orelse: Vec<Stmt> },
    While { test: Box<Expr>, body: Vec<Stmt>, orelse: Vec<Stmt> },
    If { test: Box<Expr>, body: Vec<Stmt>, orelse: Vec<Stmt> },
    /// A `with` block: its context expressions and its body.
    With { items: Vec<Expr>, body: Vec<Stmt> },
    AsyncWith { items: Vec<Expr>, body: Vec<Stmt> },
    Match { subject: Box<Expr>, cases: Vec<MatchCase> },
    Raise { exc: Option<Box<Expr>>, cause: Option<Box<Expr>> },
    Try { body: Vec<Stmt>, handlers: Vec<ExceptHandler>, orelse: Vec<Stmt>, finalbody: Vec<Stmt> },
    /// `try ... except* ...`.
    TryStar { body: Vec<Stmt>, handlers: Vec<ExceptHandler>, orelse: Vec<Stmt>, finalbody: Vec<Stmt> },
    Assert { test: Box<Expr>, msg: Option<Box<Expr>> },
    /// `import a.b, c`: the imported module names.
    Import { names: Vec<String> },
    /// `from module import names`, with the relative level.
    ImportFrom { module: Option<String>, names: Vec<String>, level: Option<usize> },
    Global,
    Nonlocal,
    Expr { value: Box<Expr> },
    Pass,
    Break,
    Continue,
}

} // verus!
