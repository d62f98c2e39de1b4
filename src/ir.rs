use vstd::prelude::*;
use crate::ast::TransformKind;

verus! {

/// What produces a frame column's values.
#[derive(Debug, Clone)]
pub enum ColumnExpr {
    /// A column of an external table, `*` for all of its columns.
    ExternRef { variable: String, table: usize },
    /// A column of the input frame, by its id there.
    Column(usize),
    /// A declaration of the context, by id.
    Decl(usize),
    Int(i64),
    Str(String),
}

/// One column of a frame.
#[derive(Debug, Clone)]
pub struct FrameColumn {
    pub id: usize,
    pub name: Option<String>,
    pub expr: ColumnExpr,
}

/// The target SQL flavours a query header may name.
#[derive(Debug, Clone, Copy, PartialEq, Eq, Structural)]
pub enum Dialect {
    Generic,
    Ansi,
    BigQuery,
    ClickHouse,
    Hive,
    MsSql,
    MySql,
    PostgreSql,
    SQLite,
    Snowflake,
}

/// The query's header: version requirement and dialect.
#[derive(Debug, Clone)]
pub struct QueryDef {
    pub version: Option<String>,
    pub dialect: Dialect,
}

/// What a pipeline node does.
#[derive(Debug, Clone, Copy, PartialEq, Eq, Structural)]
pub enum NodeKind {
    /// One of the standard relational operators.
    Transform(TransformKind),
    /// A call of a user function, by declaration id.
    Call(usize),
}

/// One lowered pipeline step with the frame it produces.
#[derive(Debug, Clone)]
pub struct Node {
    pub kind: NodeKind,
    /// The table that `from` or `join` reads.
    pub table: Option<String>,
    pub args: Vec<ColumnExpr>,
    pub frame: Vec<FrameColumn>,
}

/// The lowered query.
#[derive(Debug, Clone)]
pub struct Query {
    pub def: QueryDef,
    /// The declarations of the defined tables that the query reads, each once.
    pub tables: Vec<usize>,
    pub main_pipeline: Vec<Node>,
}

impl ColumnExpr {
    /// The declaration this expression refers to, if any.
    pub open spec fn decl_ref(self) -> Option<usize> {
        match self {
            ColumnExpr::Decl(id) => Some(id),
            _ => None,
        }
    }
}

/// Every declaration id in the column expressions is below `n`.
pub open spec fn exprs_refs_below(es: Seq<ColumnExpr>, n: nat) -> bool {
    forall|i: int| 0 <= i < es.len() ==> ((#[trigger] es[i]).decl_ref() matches Some(id) ==> id < n)
}

/// Every declaration id in the frame is below `n`.
pub open spec fn frame_refs_below(f: Seq<FrameColumn>, n: nat) -> bool {
    forall|i: int| 0 <= i < f.len() ==> ((#[trigger] f[i]).expr.decl_ref() matches Some(id) ==> id < n)
}

impl Node {
    /// Every declaration id in the node is below `n`.
    pub open spec fn refs_below(self, n: nat) -> bool {
        (self.kind matches NodeKind::Call(id) ==> id < n) && exprs_refs_below(self.args@, n)
            && frame_refs_below(self.frame@, n)
    }
}

impl Query {
    /// Every declaration id in the query is below `n`.
    pub open spec fn refs_below(self, n: nat) -> bool {
        (forall|i: int| 0 <= i < self.main_pipeline@.len() ==> (#[trigger] self.main_pipeline@[i]).refs_below(n))
            && forall|i: int| 0 <= i < self.tables@.len() ==> #[trigger] self.tables@[i] < n
    }
}

impl ColumnExpr {
    /// An equal copy.
    pub fn copied(&self) -> (r: ColumnExpr)
        ensures
            r == *self,
    {
        match self {
            ColumnExpr::ExternRef { variable, table } => ColumnExpr::ExternRef { variable: variable.clone(), table: *table },
            ColumnExpr::Column(i) => ColumnExpr::Column(*i),
            ColumnExpr::Decl(i) => ColumnExpr::Decl(*i),
            ColumnExpr::Int(v) => ColumnExpr::Int(*v),
            ColumnExpr::Str(s) => ColumnExpr::Str(s.clone()),
        }
    }
}

impl FrameColumn {
    /// An equal copy.
    pub fn copied(&self) -> (r: FrameColumn)
        ensures
            r == *self,
    {
        let name = match &self.name {
            Some(n) => Some(n.clone()),
            None => None,
        };
        FrameColumn { id: self.id, name, expr: self.expr.copied() }
    }
}

/// An equal copy of a frame.
pub fn copy_frame(f: &Vec<FrameColumn>) -> (r: Vec<FrameColumn>)
    ensures
        r@ == f@,
{
    let mut out: Vec<FrameColumn> = Vec::new();
    let mut i: usize = 0;
    while i < f.len()
        invariant
            i <= f@.len(),
            out@ == f@.subrange(0, i as int),
        decreases f@.len() - i,
    {
        out.push(f[i].copied());
        proof {
            assert(f@.subrange(0, i + 1) =~= f@.subrange(0, i as int).push(f@[i as int]));
        }
        i = i + 1;
    }
    proof {
        assert(f@.subrange(0, i as int) =~= f@);
    }
    out
}

} // verus!
