//! SQL statements as far as the planner reads them.
//!
//! An expression keeps the text that it is written back as, next to its parts. What
//! the planner never looks into is `Other`.

use std::sync::Arc;
use vstd::prelude::*;

verus! {

/// A literal: its text and what it is.
#[derive(Debug)]
pub struct SqlValue {
    pub text: String,
    pub kind: SqlValueKind,
}

/// What a literal is.
#[derive(Debug)]
pub enum SqlValueKind {
    Number(String),
    SingleQuotedString(String),
    Boolean(bool),
    Null,
    Other,
}

/// The operators between two expressions that the planner tells apart.
#[derive(Clone, Copy, Debug, PartialEq, Eq, Structural)]
pub enum SqlBinaryOperator {
    Plus,
    Minus,
    Multiply,
    Divide,
    Modulo,
    Gt,
    Lt,
    GtEq,
    LtEq,
    Eq,
    NotEq,
    And,
    Or,
    Other,
}

/// The operators before an expression that the planner tells apart.
#[derive(Clone, Copy, Debug, PartialEq, Eq, Structural)]
pub enum SqlUnaryOperator {
    Plus,
    Minus,
    Not,
    Other,
}

/// An expression: its text and its parts.
#[derive(Debug)]
pub struct SqlExpr {
    pub text: String,
    pub kind: SqlExprKind,
}

/// The parts of an expression.
#[derive(Debug)]
pub enum SqlExprKind {
    Identifier(String),
    CompoundIdentifier(Vec<String>),
    Value(SqlValue),
    /// A literal with its type written before it, such as a date.
    TypedString { data_type: String, value: SqlValue },
    Function(SqlFunction),
    BinaryOp { left: Box<SqlExpr>, op: SqlBinaryOperator, right: Box<SqlExpr> },
    UnaryOp { op: SqlUnaryOperator, expr: Box<SqlExpr> },
    Nested(Box<SqlExpr>),
    IsNull(Box<SqlExpr>),
    IsNotNull(Box<SqlExpr>),
    InList { expr: Box<SqlExpr>, list: Vec<SqlExpr>, negated: bool },
    InSubquery { expr: Box<SqlExpr>, subquery: Box<QueryAst>, negated: bool },
    Between { expr: Box<SqlExpr>, negated: bool, low: Box<SqlExpr>, high: Box<SqlExpr> },
    Like {
        expr: Box<SqlExpr>,
        pattern: Box<SqlExpr>,
        negated: bool,
        any: bool,
        escape_char: Option<SqlValue>,
        case_insensitive: bool,
    },
    Exists { subquery: Box<QueryAst>, negated: bool },
    Subquery(Box<QueryAst>),
    Case {
        operand: Option<Box<SqlExpr>>,
        conditions: Vec<WhenBranch>,
        else_result: Option<Box<SqlExpr>>,
    },
    Cast { expr: Box<SqlExpr>, data_type: String },
    Substring {
        expr: Box<SqlExpr>,
        substring_from: Option<Box<SqlExpr>>,
        substring_for: Option<Box<SqlExpr>>,
    },
    CompoundFieldAccess,
    Wildcard,
    QualifiedWildcard,
    Other,
}

/// One `WHEN` of a `CASE`.
#[derive(Debug)]
pub struct WhenBranch {
    pub condition: SqlExpr,
    pub result: SqlExpr,
}

/// A function call. The name is `None` where it is not made of identifiers; `args` is
/// `None` where the call has no list of arguments.
#[derive(Debug)]
pub struct SqlFunction {
    pub name: Option<String>,
    pub args: Option<Vec<SqlFunctionArg>>,
    /// The rows that an aggregate is applied to.
    pub filter: Option<Arc<SqlExpr>>,
    pub extras: FunctionExtras,
}

/// `Arc::clone` gives another pointer to the same expression.
#[verifier::external_body]
pub(crate) fn share_expr(expr: &Arc<SqlExpr>) -> (shared: Arc<SqlExpr>)
    ensures
        shared == *expr,
{
    Arc::clone(expr)
}

/// What is said of a function call beside its arguments; the numbers count clauses.
#[derive(Clone, Copy, Debug, PartialEq, Eq, Structural)]
pub struct FunctionExtras {
    pub distinct: bool,
    pub null_treatment: bool,
    pub over: bool,
    pub within_group: usize,
    pub clauses: usize,
}

/// An argument of a function call.
#[derive(Debug)]
pub enum SqlFunctionArg {
    Expr(SqlExpr),
    Wildcard,
    Other,
}

/// A query.
#[derive(Debug)]
pub struct QueryAst {
    pub ctes: Option<Vec<QueryAst>>,
    pub body: QueryBody,
    pub order_by: Option<OrderClause>,
    pub limit_clause: Option<LimitAst>,
    pub extras: QueryExtras,
}

/// Which rarer clauses a query has; the numbers count them.
#[derive(Clone, Copy, Debug, PartialEq, Eq, Structural)]
pub struct QueryExtras {
    pub fetch: bool,
    pub locks: usize,
    pub for_clause: bool,
    pub settings: bool,
    pub format_clause: bool,
    pub pipe_operators: usize,
}

/// The `ORDER BY` of a query; `expressions` is `None` for `ORDER BY ALL`.
#[derive(Debug)]
pub struct OrderClause {
    pub text: String,
    pub expressions: Option<Vec<OrderKey>>,
    pub interpolate: bool,
}

/// One key of an `ORDER BY`.
#[derive(Debug)]
pub struct OrderKey {
    pub expr: SqlExpr,
    pub asc: Option<bool>,
    pub nulls_first: Option<bool>,
    pub with_fill: bool,
}

/// The `LIMIT` and `OFFSET` of a query.
#[derive(Debug)]
pub enum LimitAst {
    LimitOffset { limit: Option<SqlExpr>, offset: Option<SqlExpr>, limit_by: usize },
    OffsetCommaLimit,
}

/// The body of a query.
#[derive(Debug)]
pub enum QueryBody {
    Select(Box<SelectAst>),
    Query(Box<QueryAst>),
    SetOperation { left: Box<QueryBody>, right: Box<QueryBody> },
    Other,
}

/// How duplicate rows are treated.
#[derive(Clone, Copy, Debug, PartialEq, Eq, Structural)]
pub enum DistinctKind {
    Unset,
    All,
    Distinct,
    On,
}

/// A `SELECT`.
#[derive(Debug)]
pub struct SelectAst {
    pub distinct: DistinctKind,
    pub projection: Vec<SelectEntry>,
    pub from: Vec<FromTable>,
    pub selection: Option<SqlExpr>,
    pub group_by: GroupBy,
    pub having: Option<SqlExpr>,
    pub extras: SelectExtras,
}

/// Which rarer clauses a `SELECT` has; the numbers count them.
#[derive(Clone, Copy, Debug, PartialEq, Eq, Structural)]
pub struct SelectExtras {
    pub select_modifiers: bool,
    pub top: bool,
    pub into: bool,
    pub prewhere: bool,
    pub connect_by: usize,
    pub cluster_by: usize,
    pub distribute_by: usize,
    pub sort_by: usize,
    pub named_window: usize,
    pub qualify: bool,
    pub value_table_mode: bool,
}

/// The `GROUP BY` of a `SELECT`; `expressions` is `None` for `GROUP BY ALL`.
#[derive(Debug)]
pub struct GroupBy {
    pub text: String,
    pub expressions: Option<Vec<SqlExpr>>,
    pub modifiers: usize,
}

/// An item of a `SELECT` list: its text and what it is.
#[derive(Debug)]
pub struct SelectEntry {
    pub text: String,
    pub kind: SelectEntryKind,
}

/// What an item of a `SELECT` list is.
#[derive(Debug)]
pub enum SelectEntryKind {
    UnnamedExpr(SqlExpr),
    ExprWithAlias { expr: SqlExpr, alias: String },
    ExprWithAliases,
    /// All columns of a table, whose name is given where it is one.
    QualifiedWildcard(Option<String>),
    Wildcard,
}

/// A table of a `FROM` and what is joined to it.
#[derive(Debug)]
pub struct FromTable {
    pub relation: TableSource,
    pub joins: Vec<JoinedTable>,
}

/// What a `FROM` reads.
#[derive(Debug)]
pub enum TableSource {
    /// A table by the parts of its name, `None` where one is not an identifier.
    Table { name: Option<Vec<String>>, alias: Option<String>, extras: TableExtras },
    Derived { subquery: Box<QueryAst>, alias: Option<String> },
    TableFunction,
    NestedJoin(Box<FromTable>),
    Other,
}

/// What is said of how to read a table; the numbers count hints.
#[derive(Clone, Copy, Debug, PartialEq, Eq, Structural)]
pub struct TableExtras {
    pub args: bool,
    pub with_hints: usize,
    pub version: bool,
    pub with_ordinality: bool,
    pub partitions: usize,
    pub json_path: bool,
    pub sample: bool,
    pub index_hints: usize,
}

/// A joined table.
#[derive(Debug)]
pub struct JoinedTable {
    pub relation: TableSource,
    pub operator: JoinKind,
}

/// How a table is joined.
#[derive(Debug)]
pub enum JoinKind {
    Inner(JoinOn),
    Left(JoinOn),
    Semi(JoinOn),
    Other,
}

/// On what a table is joined.
#[derive(Debug)]
pub enum JoinOn {
    On(SqlExpr),
    Other,
}

/// A statement: a query, or something else.
#[derive(Debug)]
pub enum StatementAst {
    Query(Box<QueryAst>),
    Other,
}

impl SelectEntry {
    /// The alias of the item.
    pub fn select_item_alias(&self) -> (alias: Option<&String>)
        ensures
            alias == (match self.kind {
                SelectEntryKind::ExprWithAlias { alias, .. } => Some(&alias),
                _ => None,
            }),
    {
        match &self.kind {
            SelectEntryKind::ExprWithAlias { alias, .. } => Some(alias),
            _ => None,
        }
    }
}

} // verus!
