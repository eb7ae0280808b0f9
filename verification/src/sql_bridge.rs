//! The parser's statements, one level at a time.
//!
//! Statements are parsed by the `sqlparser` crate. Each function here takes one value of
//! the parser apart: into texts and numbers, and into the parser's values one level
//! below. What a value comes apart into has a name, which is all that is said of it.

use sqlparser::ast::{
    BinaryOperator, CaseWhen, Distinct, Expr, Function, FunctionArg, FunctionArgExpr,
    FunctionArguments, GroupByExpr, Join, JoinConstraint, JoinOperator, LimitClause, ObjectNamePart,
    OrderBy, OrderByExpr, OrderByKind, Query, Select, SelectItem, SelectItemQualifiedWildcardKind,
    SetExpr, Statement, TableFactor, TableWithJoins, UnaryOperator, Value, ValueWithSpan,
};
use sqlparser::tokenizer::{Token, TokenWithSpan};
use vstd::prelude::*;
use crate::ast::{
    DistinctKind, QueryExtras, SelectExtras, SqlBinaryOperator, SqlUnaryOperator, SqlValueKind,
    TableExtras,
};
use crate::channel_flush::{flushes_unnamed_channel, TokenHead};

verus! {

/// A statement of the parser.
#[verifier::external_type_specification]
#[verifier::external_body]
pub struct ExStatement(sqlparser::ast::Statement);

/// A query of the parser.
#[verifier::external_type_specification]
#[verifier::external_body]
pub struct ExQuery(sqlparser::ast::Query);

/// The body of a query of the parser.
#[verifier::external_type_specification]
#[verifier::external_body]
pub struct ExSetExpr(sqlparser::ast::SetExpr);

/// A `SELECT` of the parser.
#[verifier::external_type_specification]
#[verifier::external_body]
pub struct ExSelect(sqlparser::ast::Select);

/// An item of a `SELECT` list of the parser.
#[verifier::external_type_specification]
#[verifier::external_body]
pub struct ExSelectItem(sqlparser::ast::SelectItem);

/// A table of a `FROM` of the parser.
#[verifier::external_type_specification]
#[verifier::external_body]
pub struct ExTableWithJoins(sqlparser::ast::TableWithJoins);

/// What a `FROM` of the parser reads.
#[verifier::external_type_specification]
#[verifier::external_body]
pub struct ExTableFactor(sqlparser::ast::TableFactor);

/// A joined table of the parser.
#[verifier::external_type_specification]
#[verifier::external_body]
pub struct ExJoin(sqlparser::ast::Join);

/// How a table of the parser is joined.
#[verifier::external_type_specification]
#[verifier::external_body]
pub struct ExJoinOperator(sqlparser::ast::JoinOperator);

/// On what a table of the parser is joined.
#[verifier::external_type_specification]
#[verifier::external_body]
pub struct ExJoinConstraint(sqlparser::ast::JoinConstraint);

/// An `ORDER BY` of the parser.
#[verifier::external_type_specification]
#[verifier::external_body]
pub struct ExOrderBy(sqlparser::ast::OrderBy);

/// A key of an `ORDER BY` of the parser.
#[verifier::external_type_specification]
#[verifier::external_body]
pub struct ExOrderByExpr(sqlparser::ast::OrderByExpr);

/// A `LIMIT` and `OFFSET` of the parser.
#[verifier::external_type_specification]
#[verifier::external_body]
pub struct ExLimitClause(sqlparser::ast::LimitClause);

/// A `GROUP BY` of the parser.
#[verifier::external_type_specification]
#[verifier::external_body]
pub struct ExGroupByExpr(sqlparser::ast::GroupByExpr);

/// An expression of the parser.
#[verifier::external_type_specification]
#[verifier::external_body]
pub struct ExExpr(sqlparser::ast::Expr);

/// A function call of the parser.
#[verifier::external_type_specification]
#[verifier::external_body]
pub struct ExFunction(sqlparser::ast::Function);

/// The arguments of a function call of the parser.
#[verifier::external_type_specification]
#[verifier::external_body]
pub struct ExFunctionArguments(sqlparser::ast::FunctionArguments);

/// An argument of a function call of the parser.
#[verifier::external_type_specification]
#[verifier::external_body]
pub struct ExFunctionArg(sqlparser::ast::FunctionArg);

/// One part of a name of the parser.
#[verifier::external_type_specification]
#[verifier::external_body]
pub struct ExObjectNamePart(sqlparser::ast::ObjectNamePart);

/// One `WHEN` of a `CASE` of the parser.
#[verifier::external_type_specification]
#[verifier::external_body]
pub struct ExCaseWhen(sqlparser::ast::CaseWhen);

/// A literal of the parser.
#[verifier::external_type_specification]
#[verifier::external_body]
pub struct ExValueWithSpan(sqlparser::ast::ValueWithSpan);

/// An operator between two expressions of the parser.
#[verifier::external_type_specification]
#[verifier::external_body]
pub struct ExBinaryOperator(sqlparser::ast::BinaryOperator);

/// An operator before an expression of the parser.
#[verifier::external_type_specification]
#[verifier::external_body]
pub struct ExUnaryOperator(sqlparser::ast::UnaryOperator);

/// A token of the tokenizer.
#[verifier::external_type_specification]
#[verifier::external_body]
pub struct ExTokenWithSpan(sqlparser::tokenizer::TokenWithSpan);

/// What `Parser::parse_sql` makes of a text in the generic dialect: the statements, or
/// the message of the error.
pub uninterp spec fn parsed_statements(sql: Seq<char>) -> Result<Vec<Statement>, String>;

/// What the tokenizer makes of a text in the generic dialect: the tokens, or the message of
/// the error.
pub uninterp spec fn tokenized(sql: Seq<char>) -> Result<Vec<TokenWithSpan>, String>;

/// Takes a text apart with `sqlparser::tokenizer::Tokenizer::tokenize_with_location` in the
/// generic dialect, as the parser does; an error is given by its message.
#[verifier::external_body]
pub(crate) fn tokenize(sql: &str) -> (tokens: Result<Vec<TokenWithSpan>, String>)
    ensures
        tokens == tokenized(sql@),
{
    sqlparser::tokenizer::Tokenizer::new(&sqlparser::dialect::GenericDialect {}, sql)
        .tokenize_with_location()
        .map_err(|error| error.to_string())
}

/// What a token is.
pub uninterp spec fn token_head_of(token: TokenWithSpan) -> TokenHead;

/// The variants of `Token` that are told apart, a word with its value.
#[verifier::external_body]
pub(crate) fn token_head(token: TokenWithSpan) -> (head: TokenHead)
    ensures
        head == token_head_of(token),
{
    match token.token {
        Token::Word(word) => {
            TokenHead::Word { text: word.value, quoted: word.quote_style.is_some() }
        },
        Token::SingleQuotedString(_) => TokenHead::SingleQuoted,
        Token::DoubleQuotedString(_) => TokenHead::DoubleQuoted,
        Token::Whitespace(_) => TokenHead::Space,
        Token::Period => TokenHead::Period,
        Token::SemiColon => TokenHead::SemiColon,
        _ => TokenHead::Other,
    }
}

/// What the tokens of a text are.
pub open spec fn token_heads(tokens: Seq<TokenWithSpan>) -> Seq<TokenHead> {
    tokens.map_values(|token: TokenWithSpan| token_head_of(token))
}

/// Whether the parser breaks off at a text: its tokens flush the logs of a channel without
/// naming it.
pub open spec fn breaks_off(sql: Seq<char>) -> bool {
    tokenized(sql) matches Ok(tokens) && flushes_unnamed_channel(token_heads(tokens@))
}

/// Parses a text with `sqlparser::parser::Parser::parse_sql` in the generic dialect; an
/// error is given by its message. The parser panics where no name follows the words
/// `FLUSH RELAY LOGS FOR CHANNEL` of a statement, so such a text is not handed to it.
#[verifier::external_body]
pub(crate) fn parse_statements(sql: &str) -> (statements: Result<Vec<Statement>, String>)
    requires
        !breaks_off(sql@),
    ensures
        statements == parsed_statements(sql@),
{
    sqlparser::parser::Parser::parse_sql(&sqlparser::dialect::GenericDialect {}, sql)
        .map_err(|error| error.to_string())
}

/// The query that a statement is.
pub uninterp spec fn statement_query_of(statement: Statement) -> Option<Box<Query>>;

/// The query of `Statement::Query`, `None` for any other statement.
#[verifier::external_body]
pub(crate) fn statement_query(statement: Statement) -> (query: Option<Box<Query>>)
    ensures
        query == statement_query_of(statement),
{
    match statement {
        Statement::Query(query) => Some(query),
        _ => None,
    }
}

/// The rarer clauses of a query.
pub uninterp spec fn query_extras_of(query: Query) -> QueryExtras;

/// Which of the rarer clauses the fields of a `Query` hold.
#[verifier::external_body]
pub(crate) fn query_extras(query: &Query) -> (extras: QueryExtras)
    ensures
        extras == query_extras_of(*query),
{
    QueryExtras {
        fetch: query.fetch.is_some(),
        locks: query.locks.len(),
        for_clause: query.for_clause.is_some(),
        settings: query.settings.is_some(),
        format_clause: query.format_clause.is_some(),
        pipe_operators: query.pipe_operators.len(),
    }
}

/// What a query comes apart into.
pub struct QueryParts {
    pub ctes: Option<Vec<Query>>,
    pub body: Box<SetExpr>,
    pub order_by: Option<OrderBy>,
    pub limit_clause: Option<LimitClause>,
}

/// The parts of a query.
pub uninterp spec fn query_parts_of(query: Query) -> QueryParts;

/// The queries of the `WITH`, the body, the `ORDER BY` and the limit clause of a `Query`.
#[verifier::external_body]
pub(crate) fn query_parts(query: Query) -> (parts: QueryParts)
    ensures
        parts == query_parts_of(query),
{
    QueryParts {
        ctes: query.with.map(|with| with.cte_tables.into_iter().map(|cte| *cte.query).collect()),
        body: query.body,
        order_by: query.order_by,
        limit_clause: query.limit_clause,
    }
}

/// What the body of a query is.
pub enum SetExprHead {
    Select(Box<Select>),
    Query(Box<Query>),
    SetOperation(Box<SetExpr>, Box<SetExpr>),
    Other,
}

/// What the body of a query is.
pub uninterp spec fn set_expr_head_of(body: SetExpr) -> SetExprHead;

/// The variants of `SetExpr` that are told apart.
#[verifier::external_body]
pub(crate) fn set_expr_head(body: SetExpr) -> (head: SetExprHead)
    ensures
        head == set_expr_head_of(body),
{
    match body {
        SetExpr::Select(select) => SetExprHead::Select(select),
        SetExpr::Query(query) => SetExprHead::Query(query),
        SetExpr::SetOperation { left, right, .. } => SetExprHead::SetOperation(left, right),
        _ => SetExprHead::Other,
    }
}

/// The rarer clauses of a `SELECT`.
pub uninterp spec fn select_extras_of(select: Select) -> SelectExtras;

/// Which of the rarer clauses the fields of a `Select` hold.
#[verifier::external_body]
pub(crate) fn select_extras(select: &Select) -> (extras: SelectExtras)
    ensures
        extras == select_extras_of(*select),
{
    SelectExtras {
        select_modifiers: select.select_modifiers.is_some(),
        top: select.top.is_some(),
        into: select.into.is_some(),
        prewhere: select.prewhere.is_some(),
        connect_by: select.connect_by.len(),
        cluster_by: select.cluster_by.len(),
        distribute_by: select.distribute_by.len(),
        sort_by: select.sort_by.len(),
        named_window: select.named_window.len(),
        qualify: select.qualify.is_some(),
        value_table_mode: select.value_table_mode.is_some(),
    }
}

/// How a `SELECT` treats duplicate rows.
pub uninterp spec fn select_distinct_of(select: Select) -> DistinctKind;

/// The variant of `Distinct` in a `Select`.
#[verifier::external_body]
pub(crate) fn select_distinct(select: &Select) -> (distinct: DistinctKind)
    ensures
        distinct == select_distinct_of(*select),
{
    match &select.distinct {
        None => DistinctKind::Unset,
        Some(Distinct::All) => DistinctKind::All,
        Some(Distinct::Distinct) => DistinctKind::Distinct,
        Some(Distinct::On(_)) => DistinctKind::On,
    }
}

/// What a `SELECT` comes apart into.
pub struct SelectParts {
    pub projection: Vec<SelectItem>,
    pub from: Vec<TableWithJoins>,
    pub selection: Option<Expr>,
    pub group_by: GroupByExpr,
    pub having: Option<Expr>,
}

/// The parts of a `SELECT`.
pub uninterp spec fn select_parts_of(select: Select) -> SelectParts;

/// The list, the tables, the filter, the groups and the filter of groups of a `Select`.
#[verifier::external_body]
pub(crate) fn select_parts(select: Select) -> (parts: SelectParts)
    ensures
        parts == select_parts_of(select),
{
    SelectParts {
        projection: select.projection,
        from: select.from,
        selection: select.selection,
        group_by: select.group_by,
        having: select.having,
    }
}

/// What an item of a `SELECT` list is.
pub enum SelectItemHead {
    UnnamedExpr(Expr),
    ExprWithAlias(Expr, String),
    ExprWithAliases,
    QualifiedName(Vec<ObjectNamePart>),
    QualifiedExpr,
    Wildcard,
}

/// The text of an item of a `SELECT` list.
pub uninterp spec fn select_item_text_of(item: SelectItem) -> Seq<char>;

/// The text that `SelectItem` is displayed as.
#[verifier::external_body]
pub(crate) fn select_item_text(item: &SelectItem) -> (text: String)
    ensures
        text@ == select_item_text_of(*item),
{
    item.to_string()
}

/// What an item of a `SELECT` list is.
pub uninterp spec fn select_item_head_of(item: SelectItem) -> SelectItemHead;

/// The variants of `SelectItem`.
#[verifier::external_body]
pub(crate) fn select_item_head(item: SelectItem) -> (head: SelectItemHead)
    ensures
        head == select_item_head_of(item),
{
    match item {
        SelectItem::UnnamedExpr(expr) => SelectItemHead::UnnamedExpr(expr),
        SelectItem::ExprWithAlias { expr, alias } => SelectItemHead::ExprWithAlias(expr, alias.value),
        SelectItem::ExprWithAliases { .. } => SelectItemHead::ExprWithAliases,
        SelectItem::QualifiedWildcard(SelectItemQualifiedWildcardKind::ObjectName(name), _) => {
            SelectItemHead::QualifiedName(name.0)
        },
        SelectItem::QualifiedWildcard(_, _) => SelectItemHead::QualifiedExpr,
        SelectItem::Wildcard(_) => SelectItemHead::Wildcard,
    }
}

/// What a table of a `FROM` comes apart into.
pub struct TableParts {
    pub relation: TableFactor,
    pub joins: Vec<Join>,
}

/// The parts of a table of a `FROM`.
pub uninterp spec fn table_parts_of(table: TableWithJoins) -> TableParts;

/// The fields of `TableWithJoins`.
#[verifier::external_body]
pub(crate) fn table_parts(table: TableWithJoins) -> (parts: TableParts)
    ensures
        parts == table_parts_of(table),
{
    TableParts { relation: table.relation, joins: table.joins }
}

/// What a `FROM` reads.
pub enum TableFactorHead {
    Table(Vec<ObjectNamePart>, Option<String>),
    Derived(Box<Query>, Option<String>),
    TableFunction,
    NestedJoin(Box<TableWithJoins>),
    Other,
}

/// What a `FROM` reads.
pub uninterp spec fn table_factor_head_of(factor: TableFactor) -> TableFactorHead;

/// The variants of `TableFactor` that are told apart, with the names of aliases.
#[verifier::external_body]
pub(crate) fn table_factor_head(factor: TableFactor) -> (head: TableFactorHead)
    ensures
        head == table_factor_head_of(factor),
{
    match factor {
        TableFactor::Table { name, alias, .. } => {
            TableFactorHead::Table(name.0, alias.map(|alias| alias.name.value))
        },
        TableFactor::Derived { subquery, alias, .. } => {
            TableFactorHead::Derived(subquery, alias.map(|alias| alias.name.value))
        },
        TableFactor::TableFunction { .. } => TableFactorHead::TableFunction,
        TableFactor::NestedJoin { table_with_joins, .. } => {
            TableFactorHead::NestedJoin(table_with_joins)
        },
        _ => TableFactorHead::Other,
    }
}

/// What is said of how to read a table.
pub uninterp spec fn table_extras_of(factor: TableFactor) -> Option<TableExtras>;

/// What the fields of `TableFactor::Table` say of how to read it, `None` for any other
/// variant.
#[verifier::external_body]
pub(crate) fn table_extras(factor: &TableFactor) -> (extras: Option<TableExtras>)
    ensures
        extras == table_extras_of(*factor),
{
    match factor {
        TableFactor::Table {
            args, with_hints, version, with_ordinality, partitions, json_path, sample, index_hints, ..
        } => Some(TableExtras {
            args: args.is_some(),
            with_hints: with_hints.len(),
            version: version.is_some(),
            with_ordinality: *with_ordinality,
            partitions: partitions.len(),
            json_path: json_path.is_some(),
            sample: sample.is_some(),
            index_hints: index_hints.len(),
        }),
        _ => None,
    }
}

/// What a joined table comes apart into.
pub struct JoinParts {
    pub relation: TableFactor,
    pub operator: JoinOperator,
}

/// The parts of a joined table.
pub uninterp spec fn join_parts_of(join: Join) -> JoinParts;

/// The table and the operator of a `Join`.
#[verifier::external_body]
pub(crate) fn join_parts(join: Join) -> (parts: JoinParts)
    ensures
        parts == join_parts_of(join),
{
    JoinParts { relation: join.relation, operator: join.join_operator }
}

/// How a table is joined.
pub enum JoinOperatorHead {
    Join(JoinConstraint),
    Inner(JoinConstraint),
    Left(JoinConstraint),
    LeftOuter(JoinConstraint),
    Semi(JoinConstraint),
    LeftSemi(JoinConstraint),
    Other,
}

/// How a table is joined.
pub uninterp spec fn join_operator_head_of(operator: JoinOperator) -> JoinOperatorHead;

/// The variants of `JoinOperator` for inner, left and left semi joins; any other is
/// `Other`.
#[verifier::external_body]
pub(crate) fn join_operator_head(operator: JoinOperator) -> (head: JoinOperatorHead)
    ensures
        head == join_operator_head_of(operator),
{
    match operator {
        JoinOperator::Join(constraint) => JoinOperatorHead::Join(constraint),
        JoinOperator::Inner(constraint) => JoinOperatorHead::Inner(constraint),
        JoinOperator::Left(constraint) => JoinOperatorHead::Left(constraint),
        JoinOperator::LeftOuter(constraint) => JoinOperatorHead::LeftOuter(constraint),
        JoinOperator::Semi(constraint) => JoinOperatorHead::Semi(constraint),
        JoinOperator::LeftSemi(constraint) => JoinOperatorHead::LeftSemi(constraint),
        _ => JoinOperatorHead::Other,
    }
}

/// The condition on which a table is joined.
pub uninterp spec fn join_condition_of(constraint: JoinConstraint) -> Option<Expr>;

/// The condition of `JoinConstraint::On`, `None` for any other variant.
#[verifier::external_body]
pub(crate) fn join_condition(constraint: JoinConstraint) -> (condition: Option<Expr>)
    ensures
        condition == join_condition_of(constraint),
{
    match constraint {
        JoinConstraint::On(condition) => Some(condition),
        _ => None,
    }
}

/// The text of an `ORDER BY`.
pub uninterp spec fn order_by_text_of(order_by: OrderBy) -> Seq<char>;

/// The text that `OrderBy` is displayed as.
#[verifier::external_body]
pub(crate) fn order_by_text(order_by: &OrderBy) -> (text: String)
    ensures
        text@ == order_by_text_of(*order_by),
{
    order_by.to_string()
}

/// What an `ORDER BY` comes apart into.
pub struct OrderByParts {
    pub expressions: Option<Vec<OrderByExpr>>,
    pub interpolate: bool,
}

/// The parts of an `ORDER BY`.
pub uninterp spec fn order_by_parts_of(order_by: OrderBy) -> OrderByParts;

/// The keys of `OrderByKind::Expressions`, and whether an `OrderBy` interpolates.
#[verifier::external_body]
pub(crate) fn order_by_parts(order_by: OrderBy) -> (parts: OrderByParts)
    ensures
        parts == order_by_parts_of(order_by),
{
    let interpolate = order_by.interpolate.is_some();
    match order_by.kind {
        OrderByKind::Expressions(keys) => OrderByParts { expressions: Some(keys), interpolate },
        OrderByKind::All(_) => OrderByParts { expressions: None, interpolate },
    }
}

/// What a key of an `ORDER BY` comes apart into.
pub struct OrderByExprParts {
    pub expr: Expr,
    pub asc: Option<bool>,
    pub nulls_first: Option<bool>,
    pub with_fill: bool,
}

/// The parts of a key of an `ORDER BY`.
pub uninterp spec fn order_by_expr_parts_of(key: OrderByExpr) -> OrderByExprParts;

/// The expression and the options of an `OrderByExpr`.
#[verifier::external_body]
pub(crate) fn order_by_expr_parts(key: OrderByExpr) -> (parts: OrderByExprParts)
    ensures
        parts == order_by_expr_parts_of(key),
{
    OrderByExprParts {
        expr: key.expr,
        asc: key.options.asc,
        nulls_first: key.options.nulls_first,
        with_fill: key.with_fill.is_some(),
    }
}

/// What a limit clause comes apart into: the limit, the offset and the number of keys
/// of a `LIMIT BY`; `None` for an offset and a limit after a comma.
pub struct LimitParts {
    pub limit: Option<Expr>,
    pub offset: Option<Expr>,
    pub limit_by: usize,
}

/// The parts of a limit clause.
pub uninterp spec fn limit_parts_of(clause: LimitClause) -> Option<LimitParts>;

/// The fields of `LimitClause::LimitOffset`, `None` for the other variant.
#[verifier::external_body]
pub(crate) fn limit_parts(clause: LimitClause) -> (parts: Option<LimitParts>)
    ensures
        parts == limit_parts_of(clause),
{
    match clause {
        LimitClause::LimitOffset { limit, offset, limit_by } => Some(LimitParts {
            limit,
            offset: offset.map(|offset| offset.value),
            limit_by: limit_by.len(),
        }),
        LimitClause::OffsetCommaLimit { .. } => None,
    }
}

/// The text of a `GROUP BY`.
pub uninterp spec fn group_by_text_of(group_by: GroupByExpr) -> Seq<char>;

/// The text that `GroupByExpr` is displayed as.
#[verifier::external_body]
pub(crate) fn group_by_text(group_by: &GroupByExpr) -> (text: String)
    ensures
        text@ == group_by_text_of(*group_by),
{
    group_by.to_string()
}

/// What a `GROUP BY` comes apart into.
pub struct GroupByParts {
    pub expressions: Option<Vec<Expr>>,
    pub modifiers: usize,
}

/// The parts of a `GROUP BY`.
pub uninterp spec fn group_by_parts_of(group_by: GroupByExpr) -> GroupByParts;

/// The expressions of `GroupByExpr::Expressions`, and the number of modifiers.
#[verifier::external_body]
pub(crate) fn group_by_parts(group_by: GroupByExpr) -> (parts: GroupByParts)
    ensures
        parts == group_by_parts_of(group_by),
{
    match group_by {
        GroupByExpr::Expressions(keys, modifiers) => {
            GroupByParts { expressions: Some(keys), modifiers: modifiers.len() }
        },
        GroupByExpr::All(modifiers) => {
            GroupByParts { expressions: None, modifiers: modifiers.len() }
        },
    }
}

/// The text of an expression.
pub uninterp spec fn expr_text_of(expr: Expr) -> Seq<char>;

/// The text that `Expr` is displayed as.
#[verifier::external_body]
pub(crate) fn expr_text(expr: &Expr) -> (text: String)
    ensures
        text@ == expr_text_of(*expr),
{
    expr.to_string()
}

/// What an expression is.
pub enum ExprHead {
    Identifier(String),
    CompoundIdentifier(Vec<String>),
    Value(ValueWithSpan),
    TypedString(String, ValueWithSpan),
    Function(Function),
    BinaryOp(Box<Expr>, BinaryOperator, Box<Expr>),
    UnaryOp(UnaryOperator, Box<Expr>),
    Nested(Box<Expr>),
    IsNull(Box<Expr>),
    IsNotNull(Box<Expr>),
    InList(Box<Expr>, Vec<Expr>, bool),
    InSubquery(Box<Expr>, Box<Query>, bool),
    Between(Box<Expr>, bool, Box<Expr>, Box<Expr>),
    Like(LikeParts),
    ILike(LikeParts),
    Exists(Box<Query>, bool),
    Subquery(Box<Query>),
    Case(Option<Box<Expr>>, Vec<CaseWhen>, Option<Box<Expr>>),
    Cast(Box<Expr>, String),
    Substring(Box<Expr>, Option<Box<Expr>>, Option<Box<Expr>>),
    CompoundFieldAccess,
    Wildcard,
    QualifiedWildcard,
    Other,
}

/// What a `LIKE` comes apart into.
pub struct LikeParts {
    pub expr: Box<Expr>,
    pub pattern: Box<Expr>,
    pub negated: bool,
    pub any: bool,
    pub escape_char: Option<ValueWithSpan>,
}

/// What an expression without operands is, or the expression itself.
pub uninterp spec fn leaf_head_of(expr: Expr) -> Result<ExprHead, Expr>;

/// The variants of `Expr` for names, literals, calls and wildcards; any other expression
/// is handed back.
#[verifier::external_body]
pub(crate) fn leaf_head(expr: Expr) -> (head: Result<ExprHead, Expr>)
    ensures
        head == leaf_head_of(expr),
        head matches Err(other) ==> other == expr,
{
    Ok(match expr {
        Expr::Identifier(name) => ExprHead::Identifier(name.value),
        Expr::CompoundIdentifier(names) => {
            ExprHead::CompoundIdentifier(names.into_iter().map(|name| name.value).collect())
        },
        Expr::Value(value) => ExprHead::Value(value),
        Expr::TypedString(typed) => ExprHead::TypedString(typed.data_type.to_string(), typed.value),
        Expr::Function(function) => ExprHead::Function(function),
        Expr::CompoundFieldAccess { .. } => ExprHead::CompoundFieldAccess,
        Expr::Wildcard(_) => ExprHead::Wildcard,
        Expr::QualifiedWildcard(_, _) => ExprHead::QualifiedWildcard,
        other => return Err(other),
    })
}

/// What an expression with an operator is, or the expression itself.
pub uninterp spec fn operator_head_of(expr: Expr) -> Result<ExprHead, Expr>;

/// The variants of `Expr` for operators, parentheses, null tests and ranges; any other
/// expression is handed back.
#[verifier::external_body]
pub(crate) fn operator_head(expr: Expr) -> (head: Result<ExprHead, Expr>)
    ensures
        head == operator_head_of(expr),
        head matches Err(other) ==> other == expr,
{
    Ok(match expr {
        Expr::BinaryOp { left, op, right } => ExprHead::BinaryOp(left, op, right),
        Expr::UnaryOp { op, expr } => ExprHead::UnaryOp(op, expr),
        Expr::Nested(expr) => ExprHead::Nested(expr),
        Expr::IsNull(expr) => ExprHead::IsNull(expr),
        Expr::IsNotNull(expr) => ExprHead::IsNotNull(expr),
        Expr::Between { expr, negated, low, high } => ExprHead::Between(expr, negated, low, high),
        other => return Err(other),
    })
}

/// What a test of an expression is, or the expression itself.
pub uninterp spec fn test_head_of(expr: Expr) -> Result<ExprHead, Expr>;

/// The variants of `Expr` for membership, patterns and subqueries; any other expression
/// is handed back.
#[verifier::external_body]
pub(crate) fn test_head(expr: Expr) -> (head: Result<ExprHead, Expr>)
    ensures
        head == test_head_of(expr),
        head matches Err(other) ==> other == expr,
{
    Ok(match expr {
        Expr::InList { expr, list, negated } => ExprHead::InList(expr, list, negated),
        Expr::InSubquery { expr, subquery, negated } => {
            ExprHead::InSubquery(expr, subquery, negated)
        },
        Expr::Exists { subquery, negated } => ExprHead::Exists(subquery, negated),
        Expr::Subquery(subquery) => ExprHead::Subquery(subquery),
        Expr::Like { negated, any, expr, pattern, escape_char } => {
            ExprHead::Like(LikeParts { expr, pattern, negated, any, escape_char })
        },
        Expr::ILike { negated, any, expr, pattern, escape_char } => {
            ExprHead::ILike(LikeParts { expr, pattern, negated, any, escape_char })
        },
        other => return Err(other),
    })
}

/// What an expression that chooses, converts or cuts is.
pub uninterp spec fn form_head_of(expr: Expr) -> ExprHead;

/// The variants of `Expr` for `CASE`, `CAST` and `SUBSTRING`; any other expression is
/// `Other`.
#[verifier::external_body]
pub(crate) fn form_head(expr: Expr) -> (head: ExprHead)
    ensures
        head == form_head_of(expr),
{
    match expr {
        Expr::Case { operand, conditions, else_result, .. } => {
            ExprHead::Case(operand, conditions, else_result)
        },
        Expr::Cast { expr, data_type, .. } => ExprHead::Cast(expr, data_type.to_string()),
        Expr::Substring { expr, substring_from, substring_for, .. } => {
            ExprHead::Substring(expr, substring_from, substring_for)
        },
        _ => ExprHead::Other,
    }
}

/// What one `WHEN` of a `CASE` comes apart into.
pub struct CaseWhenParts {
    pub condition: Expr,
    pub result: Expr,
}

/// The parts of one `WHEN` of a `CASE`.
pub uninterp spec fn case_when_parts_of(when: CaseWhen) -> CaseWhenParts;

/// The fields of `CaseWhen`.
#[verifier::external_body]
pub(crate) fn case_when_parts(when: CaseWhen) -> (parts: CaseWhenParts)
    ensures
        parts == case_when_parts_of(when),
{
    CaseWhenParts { condition: when.condition, result: when.result }
}

/// What a function call comes apart into.
pub struct FunctionParts {
    pub name: Vec<ObjectNamePart>,
    pub args: FunctionArguments,
    pub filter: Option<Box<Expr>>,
    pub null_treatment: bool,
    pub over: bool,
    pub within_group: usize,
}

/// The parts of a function call.
pub uninterp spec fn function_parts_of(function: Function) -> FunctionParts;

/// The name, the arguments, the filter and the rarer clauses of a `Function`.
#[verifier::external_body]
pub(crate) fn function_parts(function: Function) -> (parts: FunctionParts)
    ensures
        parts == function_parts_of(function),
{
    FunctionParts {
        name: function.name.0,
        args: function.args,
        filter: function.filter,
        null_treatment: function.null_treatment.is_some(),
        over: function.over.is_some(),
        within_group: function.within_group.len(),
    }
}

/// What the arguments of a function call come apart into.
pub struct FunctionArgsParts {
    pub args: Vec<FunctionArg>,
    pub duplicates: Option<bool>,
    pub clauses: usize,
}

/// The parts of the arguments of a function call.
pub uninterp spec fn function_args_parts_of(args: FunctionArguments) -> Option<FunctionArgsParts>;

/// The fields of `FunctionArguments::List`, `None` for any other variant; duplicates are
/// `Some(true)` for `DISTINCT` and `Some(false)` for `ALL`.
#[verifier::external_body]
pub(crate) fn function_args_parts(args: FunctionArguments) -> (parts: Option<FunctionArgsParts>)
    ensures
        parts == function_args_parts_of(args),
{
    match args {
        FunctionArguments::List(list) => Some(FunctionArgsParts {
            args: list.args,
            duplicates: list.duplicate_treatment.map(|treatment| match treatment {
                sqlparser::ast::DuplicateTreatment::Distinct => true,
                sqlparser::ast::DuplicateTreatment::All => false,
            }),
            clauses: list.clauses.len(),
        }),
        _ => None,
    }
}

/// What an argument of a function call is.
pub enum FunctionArgHead {
    Expr(Expr),
    Wildcard,
    Other,
}

/// What an argument of a function call is.
pub uninterp spec fn function_arg_head_of(arg: FunctionArg) -> FunctionArgHead;

/// The variants of `FunctionArg::Unnamed` that are told apart.
#[verifier::external_body]
pub(crate) fn function_arg_head(arg: FunctionArg) -> (head: FunctionArgHead)
    ensures
        head == function_arg_head_of(arg),
{
    match arg {
        FunctionArg::Unnamed(FunctionArgExpr::Expr(expr)) => FunctionArgHead::Expr(expr),
        FunctionArg::Unnamed(FunctionArgExpr::Wildcard) => FunctionArgHead::Wildcard,
        _ => FunctionArgHead::Other,
    }
}

/// The identifier that one part of a name is.
pub uninterp spec fn name_part_of(part: ObjectNamePart) -> Option<String>;

/// The identifier of `ObjectNamePart::Identifier`, `None` for the other variant.
#[verifier::external_body]
pub(crate) fn name_part(part: ObjectNamePart) -> (name: Option<String>)
    ensures
        name == name_part_of(part),
{
    match part {
        ObjectNamePart::Identifier(name) => Some(name.value),
        ObjectNamePart::Function(_) => None,
    }
}

/// The text of a literal.
pub uninterp spec fn value_text_of(value: ValueWithSpan) -> Seq<char>;

/// The text that `Value` is displayed as.
#[verifier::external_body]
pub(crate) fn value_text(value: &ValueWithSpan) -> (text: String)
    ensures
        text@ == value_text_of(*value),
{
    value.value.to_string()
}

/// What a literal is.
pub uninterp spec fn value_kind_of(value: ValueWithSpan) -> SqlValueKind;

/// The variants of `Value` that are told apart.
#[verifier::external_body]
pub(crate) fn value_kind(value: ValueWithSpan) -> (kind: SqlValueKind)
    ensures
        kind == value_kind_of(value),
{
    match value.value {
        Value::Number(number, _) => SqlValueKind::Number(number),
        Value::SingleQuotedString(text) => SqlValueKind::SingleQuotedString(text),
        Value::Boolean(flag) => SqlValueKind::Boolean(flag),
        Value::Null => SqlValueKind::Null,
        _ => SqlValueKind::Other,
    }
}

/// Which comparison stands between two expressions.
pub uninterp spec fn comparison_operator_of(op: BinaryOperator) -> Option<SqlBinaryOperator>;

/// The variants of `BinaryOperator` that compare, `None` for any other.
#[verifier::external_body]
pub(crate) fn comparison_operator(op: &BinaryOperator) -> (operator: Option<SqlBinaryOperator>)
    ensures
        operator == comparison_operator_of(*op),
{
    match op {
        BinaryOperator::Gt => Some(SqlBinaryOperator::Gt),
        BinaryOperator::Lt => Some(SqlBinaryOperator::Lt),
        BinaryOperator::GtEq => Some(SqlBinaryOperator::GtEq),
        BinaryOperator::LtEq => Some(SqlBinaryOperator::LtEq),
        BinaryOperator::Eq => Some(SqlBinaryOperator::Eq),
        BinaryOperator::NotEq => Some(SqlBinaryOperator::NotEq),
        _ => None,
    }
}

/// Which operator that does not compare stands between two expressions.
pub uninterp spec fn combining_operator_of(op: BinaryOperator) -> SqlBinaryOperator;

/// The variants of `BinaryOperator` for arithmetic, `AND` and `OR`; any other is `Other`.
#[verifier::external_body]
pub(crate) fn combining_operator(op: &BinaryOperator) -> (operator: SqlBinaryOperator)
    ensures
        operator == combining_operator_of(*op),
{
    match op {
        BinaryOperator::Plus => SqlBinaryOperator::Plus,
        BinaryOperator::Minus => SqlBinaryOperator::Minus,
        BinaryOperator::Multiply => SqlBinaryOperator::Multiply,
        BinaryOperator::Divide => SqlBinaryOperator::Divide,
        BinaryOperator::Modulo => SqlBinaryOperator::Modulo,
        BinaryOperator::And => SqlBinaryOperator::And,
        BinaryOperator::Or => SqlBinaryOperator::Or,
        _ => SqlBinaryOperator::Other,
    }
}

/// Which operator stands before an expression.
pub uninterp spec fn unary_operator_of(op: UnaryOperator) -> SqlUnaryOperator;

/// The variants of `UnaryOperator` that are told apart.
#[verifier::external_body]
pub(crate) fn unary_operator(op: &UnaryOperator) -> (operator: SqlUnaryOperator)
    ensures
        operator == unary_operator_of(*op),
{
    match op {
        UnaryOperator::Plus => SqlUnaryOperator::Plus,
        UnaryOperator::Minus => SqlUnaryOperator::Minus,
        UnaryOperator::Not => SqlUnaryOperator::Not,
        _ => SqlUnaryOperator::Other,
    }
}

} // verus!
