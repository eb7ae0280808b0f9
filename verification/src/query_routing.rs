//! Which way a statement is answered.

use vstd::prelude::*;
use crate::ast::{QueryAst, QueryBody, SelectAst, SqlExpr, StatementAst};
use crate::error::{fails_with, Failure, SqlError, SqlResult};
use crate::predicates::{expr_contains_materializable_subquery, holds_subquery};
use crate::rule_context::{says_mismatch, sql_rule_shape_mismatch_error};
use crate::sql_reading::{read_sql, reads_statements, statements_of};
use crate::tables_from::{
    any_joins, combines, derived_query, has_joins, parse_derived_from, query_contains_set_operation,
    reads_many_tables, table_count,
};

verus! {

/// The query that is the only statement.
pub open spec fn only_query(asts: Seq<StatementAst>) -> Option<QueryAst> {
    if asts.len() == 1 {
        match asts[0] {
            StatementAst::Query(query) => Some(*query),
            StatementAst::Other => None,
        }
    } else {
        None
    }
}

/// The `SELECT` that is the only statement.
pub open spec fn only_select(asts: Seq<StatementAst>) -> Option<SelectAst> {
    match only_query(asts) {
        Some(query) => match query.body {
            QueryBody::Select(select) => Some(*select),
            _ => None,
        },
        None => None,
    }
}

/// The query that is the only statement.
pub fn single_query(statements: &[StatementAst]) -> (query: Option<&QueryAst>)
    ensures
        match only_query(statements@) {
            Some(expected) => query matches Some(query) && *query == expected,
            None => query is None,
        },
{
    if statements.len() == 1 {
        match &statements[0] {
            StatementAst::Query(query) => Some(&**query),
            StatementAst::Other => None,
        }
    } else {
        None
    }
}

/// The `SELECT` that is the only statement.
pub fn single_select(statements: &[StatementAst]) -> (select: Option<&SelectAst>)
    ensures
        match only_select(statements@) {
            Some(expected) => select matches Some(select) && *select == expected,
            None => select is None,
        },
{
    match single_query(statements) {
        Some(query) => match &query.body {
            QueryBody::Select(select) => Some(&**select),
            _ => None,
        },
        None => None,
    }
}

/// Whether an optional filter holds a subquery.
pub open spec fn clause_holds_subquery(clause: Option<SqlExpr>) -> bool {
    match clause {
        Some(expr) => holds_subquery(expr, false),
        None => false,
    }
}

/// Whether the rows of a subquery are needed: in place of a table, or in a filter.
pub open spec fn needs_subquery(asts: Seq<StatementAst>) -> bool {
    match only_select(asts) {
        Some(select) => derived_query(select) is Some || clause_holds_subquery(select.selection)
            || clause_holds_subquery(select.having),
        None => false,
    }
}

/// Whether the rows of a subquery are needed.
pub fn needs_materialized_subquery(statements: &[StatementAst]) -> (needed: bool)
    ensures
        needed == needs_subquery(statements@),
{
    match single_select(statements) {
        Some(select) => {
            let filtered = match &select.selection {
                Some(expr) => expr_contains_materializable_subquery(expr),
                None => false,
            };
            let grouped = match &select.having {
                Some(expr) => expr_contains_materializable_subquery(expr),
                None => false,
            };
            parse_derived_from(select).is_some() || filtered || grouped
        },
        None => false,
    }
}

/// Whether more than two tables are read.
pub open spec fn reads_several(asts: Seq<StatementAst>) -> bool {
    match only_select(asts) {
        Some(select) => table_count(select.from@) > 2,
        None => false,
    }
}

/// Whether more than two tables are read.
pub fn reads_several_tables(statements: &[StatementAst]) -> (several: bool)
    ensures
        several == reads_several(statements@),
{
    match single_select(statements) {
        Some(select) => reads_many_tables(select),
        None => false,
    }
}

/// Whether a `JOIN` is written out.
pub open spec fn writes_join(asts: Seq<StatementAst>) -> bool {
    match only_select(asts) {
        Some(select) => any_joins(select.from@),
        None => false,
    }
}

/// Whether a `JOIN` is written out.
pub fn has_explicit_join(statements: &[StatementAst]) -> (found: bool)
    ensures
        found == writes_join(statements@),
{
    match single_select(statements) {
        Some(select) => has_joins(&select.from),
        None => false,
    }
}

/// Whether the rows of queries are combined.
pub open spec fn combines_queries(asts: Seq<StatementAst>) -> bool {
    match only_query(asts) {
        Some(query) => combines(query.body),
        None => false,
    }
}

/// Whether the rows of queries are combined.
pub fn has_set_operation(statements: &[StatementAst]) -> (found: bool)
    ensures
        found == combines_queries(statements@),
{
    match single_query(statements) {
        Some(query) => query_contains_set_operation(&query.body),
        None => false,
    }
}

/// Whether a text needs the rows of a subquery.
pub fn sql_uses_materialized_subquery(sql: &str) -> (result: SqlResult<bool>)
    ensures
        match statements_of(sql@) {
            Err(message) => fails_with(result, Failure::Unsupported(message)),
            Ok(statements) => exists|asts: Seq<StatementAst>| #[trigger]
                reads_statements(asts, statements, sql@.len()) && result == Ok::<bool, SqlError>(
                    needs_subquery(asts),
                ),
        },
{
    match read_sql(sql) {
        Ok(asts) => {
            assert(reads_statements(asts@, statements_of(sql@)->Ok_0, sql@.len()));
            Ok(needs_materialized_subquery(asts.as_slice()))
        },
        Err(error) => Err(error),
    }
}

/// Whether a text reads more than two tables.
pub fn sql_uses_multi_comma_join(sql: &str) -> (result: SqlResult<bool>)
    ensures
        match statements_of(sql@) {
            Err(message) => fails_with(result, Failure::Unsupported(message)),
            Ok(statements) => exists|asts: Seq<StatementAst>| #[trigger]
                reads_statements(asts, statements, sql@.len()) && result == Ok::<bool, SqlError>(
                    reads_several(asts),
                ),
        },
{
    match read_sql(sql) {
        Ok(asts) => {
            assert(reads_statements(asts@, statements_of(sql@)->Ok_0, sql@.len()));
            Ok(reads_several_tables(asts.as_slice()))
        },
        Err(error) => Err(error),
    }
}

/// Whether a text writes a `JOIN` out.
pub fn sql_select_has_explicit_join(sql: &str) -> (result: SqlResult<bool>)
    ensures
        match statements_of(sql@) {
            Err(message) => fails_with(result, Failure::Unsupported(message)),
            Ok(statements) => exists|asts: Seq<StatementAst>| #[trigger]
                reads_statements(asts, statements, sql@.len()) && result == Ok::<bool, SqlError>(
                    writes_join(asts),
                ),
        },
{
    match read_sql(sql) {
        Ok(asts) => {
            assert(reads_statements(asts@, statements_of(sql@)->Ok_0, sql@.len()));
            Ok(has_explicit_join(asts.as_slice()))
        },
        Err(error) => Err(error),
    }
}

/// Whether a text combines the rows of queries.
pub fn sql_uses_set_operation(sql: &str) -> (result: SqlResult<bool>)
    ensures
        match statements_of(sql@) {
            Err(message) => fails_with(result, Failure::Unsupported(message)),
            Ok(statements) => exists|asts: Seq<StatementAst>| #[trigger]
                reads_statements(asts, statements, sql@.len()) && result == Ok::<bool, SqlError>(
                    combines_queries(asts),
                ),
        },
{
    match read_sql(sql) {
        Ok(asts) => {
            assert(reads_statements(asts@, statements_of(sql@)->Ok_0, sql@.len()));
            Ok(has_set_operation(asts.as_slice()))
        },
        Err(error) => Err(error),
    }
}

/// A plan that may be missing: an error that says that the statement has another shape
/// counts as none.
pub fn relaxed<T>(result: SqlResult<Option<T>>) -> (relaxed: SqlResult<Option<T>>)
    ensures
        match result {
            Err(SqlError::UnsupportedSql(message)) => if says_mismatch(message@) {
                relaxed matches Ok(None)
            } else {
                relaxed == result
            },
            _ => relaxed == result,
        },
{
    match result {
        Err(SqlError::UnsupportedSql(message)) => {
            if sql_rule_shape_mismatch_error(message.as_str()) {
                Ok(None)
            } else {
                Err(SqlError::UnsupportedSql(message))
            }
        },
        other => other,
    }
}

} // verus!
