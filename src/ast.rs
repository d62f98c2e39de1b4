use vstd::prelude::*;

verus! {

/// An argument expression of a pipeline step or a definition.
#[derive(Debug, Clone)]
pub enum Expr {
    /// A name, possibly qualified as `table.column`.
    Ident(String),
    /// An integer literal.
    Int(i64),
    /// A string literal.
    Str(String),
}

/// An argument, with the column name it introduces, if any (`name: expr`).
#[derive(Debug, Clone)]
pub struct Arg {
    pub alias: Option<String>,
    pub expr: Expr,
}

/// One call in a pipeline: the callee's name and its arguments.
#[derive(Debug, Clone)]
pub struct Step {
    pub name: String,
    pub args: Vec<Arg>,
}

/// A statement of the parsed query.
#[derive(Debug, Clone)]
pub enum Stmt {
    /// The `prql` header: a version requirement and a dialect name.
    QueryDef { version: Option<String>, dialect: Option<String> },
    /// `func name params -> body`
    FuncDef { name: String, params: Vec<String>, body: Expr },
    /// `let name = value`
    VarDef { name: String, value: Expr },
    /// `table name columns`: a table whose columns are known.
    TableDef { name: String, columns: Vec<String> },
    /// A pipeline of steps.
    Pipeline(Vec<Step>),
}

impl Stmt {
    pub open spec fn is_definition(self) -> bool {
        self is FuncDef || self is VarDef || self is TableDef
    }
}

/// The relational operators that the standard library declares.
#[derive(Debug, Clone, Copy, PartialEq, Eq, Structural)]
pub enum TransformKind {
    From,
    Select,
    Filter,
    Derive,
    Aggregate,
    Sort,
    Take,
    Join,
    Group,
}

} // verus!

verus! {

/// A pipeline step whose callee has been bound to a declaration id.
#[derive(Debug, Clone)]
pub struct ResolvedStep {
    pub decl: usize,
    pub step: Step,
}

/// A statement that survives resolution: definitions are gone.
#[derive(Debug, Clone)]
pub enum ResolvedStmt {
    QueryDef { version: Option<String>, dialect: Option<String> },
    Pipeline(Vec<ResolvedStep>),
}

} // verus!
