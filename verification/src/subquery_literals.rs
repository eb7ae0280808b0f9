//! What the filters of a statement and of its subqueries say.

use vstd::prelude::*;
use crate::ast::{QueryAst, QueryBody, SqlExpr, SqlExprKind};
use crate::conjuncts::{is_column_named, literal_step, sql_expr_column_matches};
use crate::error::{fails_unsupported, fails_with, Failure, SqlResult};
use crate::filters::literal_views;
use crate::literals::{literal_of, sql_literal_value, Literal, LiteralValue};
use crate::predicate_pushdown::no_literal;
use crate::row_scan::Step;
use crate::tables_from::{name_of, parse_from, single_table, table_ref_alias_or_name};
use crate::text::{
    chars_of, contains_char, eq_ignore_ascii_case, same_ignoring_case, string_from, texts,
};

verus! {

/// The runs of other characters than `mark` in a text: those that ended, and the one that
/// goes on.
pub open spec fn runs(text: Seq<char>, mark: char) -> (Seq<Seq<char>>, Seq<char>)
    decreases text.len(),
{
    if text.len() == 0 {
        (Seq::empty(), Seq::empty())
    } else {
        let (ended, run) = runs(text.drop_last(), mark);
        if text.last() != mark {
            (ended, run.push(text.last()))
        } else if run.len() > 0 {
            (ended.push(run), Seq::empty())
        } else {
            (ended, Seq::empty())
        }
    }
}

/// The parts of a text between marks that are not empty.
pub open spec fn parts_between(text: Seq<char>, mark: char) -> Seq<Seq<char>> {
    let (ended, run) = runs(text, mark);
    if run.len() > 0 {
        ended.push(run)
    } else {
        ended
    }
}

/// The parts of a text between marks that are not empty.
pub fn split_parts(text: &str, mark: char) -> (parts: Vec<String>)
    ensures
        texts(parts@) == parts_between(text@, mark),
{
    let characters = chars_of(text);
    let mut ended: Vec<String> = Vec::new();
    let mut run: Vec<char> = Vec::new();
    let mut index: usize = 0;
    proof {
        assert(text@.take(0) =~= Seq::empty());
        assert(texts(ended@) =~= Seq::empty());
        assert(run@ =~= Seq::empty());
    }
    while index < characters.len()
        invariant
            characters@ == text@,
            index <= characters@.len(),
            (texts(ended@), run@) == runs(text@.take(index as int), mark),
        decreases characters@.len() - index,
    {
        proof {
            assert(text@.take(index + 1).drop_last() =~= text@.take(index as int));
            assert(text@.take(index + 1).last() == characters@[index as int]);
        }
        if characters[index] != mark {
            run.push(characters[index]);
        } else {
            if run.len() > 0 {
                let ghost before = ended@;
                let ghost last = run@;
                ended.push(string_from(run.as_slice()));
                assert(texts(ended@) =~= texts(before).push(last));
            }
            run = Vec::new();
            assert(run@ =~= Seq::empty());
        }
        index += 1;
    }
    assert(text@.take(index as int) =~= text@);
    if run.len() > 0 {
        let ghost before = ended@;
        let ghost last = run@;
        ended.push(string_from(run.as_slice()));
        assert(texts(ended@) =~= texts(before).push(last));
    }
    ended
}

/// The first step that keeps something; a failure of either counts.
pub open spec fn either<T>(first: Step<T>, second: Step<T>) -> Step<T> {
    match (first, second) {
        (Step::Fail(message), _) => Step::Fail(message),
        (_, Step::Fail(message)) => Step::Fail(message),
        (Step::Keep(value), _) => Step::Keep(value),
        (Step::Skip, other) => other,
    }
}

/// The texts that a column must contain in their order, as the first pattern for it in a
/// filter or in the filter of a subquery says.
pub open spec fn substrings_in(expr: SqlExpr, column: Seq<char>) -> Step<Seq<Seq<char>>>
    decreases expr,
{
    match expr.kind {
        SqlExprKind::Like { expr: tested, pattern, negated, case_insensitive, .. } => {
            if case_insensitive || negated || !is_column_named(*tested, column) {
                Step::Skip
            } else {
                match literal_step(*pattern) {
                    Step::Fail(message) => Step::Fail(message),
                    Step::Keep(Literal::Utf8(text)) => if parts_between(text, '%').len() > 0
                        && !text.contains('_') {
                        Step::Keep(parts_between(text, '%'))
                    } else {
                        Step::Skip
                    },
                    _ => Step::Skip,
                }
            }
        },
        SqlExprKind::Exists { subquery, .. } => substrings_in_query(*subquery, column),
        SqlExprKind::InSubquery { subquery, .. } => substrings_in_query(*subquery, column),
        SqlExprKind::Subquery(subquery) => substrings_in_query(*subquery, column),
        SqlExprKind::BinaryOp { left, right, .. } => either(
            substrings_in(*left, column),
            substrings_in(*right, column),
        ),
        SqlExprKind::Nested(inner) => substrings_in(*inner, column),
        SqlExprKind::UnaryOp { expr, .. } => substrings_in(*expr, column),
        SqlExprKind::InList { expr, list, .. } => match substrings_in(*expr, column) {
            Step::Skip => substrings_in_list(list, list.len() as nat, column),
            decided => decided,
        },
        _ => Step::Skip,
    }
}

/// The texts that a column must contain, as the filter of a subquery says.
pub open spec fn substrings_in_query(query: QueryAst, column: Seq<char>) -> Step<Seq<Seq<char>>>
    decreases query,
{
    match query.body {
        QueryBody::Select(select) => match select.selection {
            Some(selection) => substrings_in(selection, column),
            None => Step::Skip,
        },
        _ => Step::Skip,
    }
}

/// The texts that a column must contain, as the first of the expressions that says so.
pub open spec fn substrings_in_list(list: Vec<SqlExpr>, count: nat, column: Seq<char>) -> Step<
    Seq<Seq<char>>,
>
    decreases list, count,
{
    if count == 0 || count > list.len() {
        Step::Skip
    } else {
        match substrings_in_list(list, (count - 1) as nat, column) {
            Step::Skip => substrings_in(list[count - 1], column),
            decided => decided,
        }
    }
}

/// Whether a result is the texts that a step says.
pub open spec fn follows_texts(
    result: SqlResult<Option<Vec<String>>>,
    step: Step<Seq<Seq<char>>>,
) -> bool {
    match step {
        Step::Skip => result matches Ok(None),
        Step::Keep(parts) => result matches Ok(Some(found)) && texts(found@) == parts,
        Step::Fail(message) => fails_unsupported(result, message),
    }
}

/// The texts that a column must contain in their order.
pub fn like_substrings_literal(expr: &SqlExpr, column: &str) -> (result: SqlResult<
    Option<Vec<String>>,
>)
    ensures
        follows_texts(result, substrings_in(*expr, column@)),
    decreases *expr,
{
    match &expr.kind {
        SqlExprKind::Like { expr: tested, pattern, negated, case_insensitive, .. } => {
            if *case_insensitive || *negated || !sql_expr_column_matches(tested, column) {
                return Ok(None);
            }
            match sql_literal_value(pattern) {
                Ok(LiteralValue::Utf8(text)) => {
                    let parts = split_parts(text.as_str(), '%');
                    assert(texts(parts@).len() == parts@.len());
                    if parts.len() > 0 && !contains_char(text.as_str(), '_') {
                        Ok(Some(parts))
                    } else {
                        Ok(None)
                    }
                },
                Ok(_) => Ok(None),
                Err(error) => Err(error),
            }
        },
        SqlExprKind::Exists { subquery, .. } => like_substrings_in_query(subquery, column),
        SqlExprKind::InSubquery { subquery, .. } => like_substrings_in_query(subquery, column),
        SqlExprKind::Subquery(subquery) => like_substrings_in_query(subquery, column),
        SqlExprKind::BinaryOp { left, right, .. } => {
            let first = match like_substrings_literal(left, column) {
                Ok(first) => first,
                Err(error) => {
                    return Err(error);
                },
            };
            let second = match like_substrings_literal(right, column) {
                Ok(second) => second,
                Err(error) => {
                    return Err(error);
                },
            };
            match first {
                Some(parts) => Ok(Some(parts)),
                None => Ok(second),
            }
        },
        SqlExprKind::Nested(inner) => like_substrings_literal(inner, column),
        SqlExprKind::UnaryOp { expr, .. } => like_substrings_literal(expr, column),
        SqlExprKind::InList { expr, list, .. } => match like_substrings_literal(expr, column) {
            Ok(None) => like_substrings_in_list(list, column),
            decided => decided,
        },
        _ => Ok(None),
    }
}

/// The texts that a column must contain, as the filter of a subquery says.
fn like_substrings_in_query(query: &QueryAst, column: &str) -> (result: SqlResult<
    Option<Vec<String>>,
>)
    ensures
        follows_texts(result, substrings_in_query(*query, column@)),
    decreases *query,
{
    match &query.body {
        QueryBody::Select(select) => match &select.selection {
            Some(selection) => like_substrings_literal(selection, column),
            None => Ok(None),
        },
        _ => Ok(None),
    }
}

proof fn lemma_substrings_decided(list: Vec<SqlExpr>, count: nat, more: nat, column: Seq<char>)
    requires
        count <= more <= list.len(),
        !(substrings_in_list(list, count, column) is Skip),
    ensures
        substrings_in_list(list, more, column) == substrings_in_list(list, count, column),
    decreases more - count,
{
    if count < more {
        lemma_substrings_decided(list, count, (more - 1) as nat, column);
    }
}

/// The texts that a column must contain, as the first of the expressions that says so.
fn like_substrings_in_list(list: &Vec<SqlExpr>, column: &str) -> (result: SqlResult<
    Option<Vec<String>>,
>)
    ensures
        follows_texts(result, substrings_in_list(*list, list.len() as nat, column@)),
    decreases *list,
{
    let mut index: usize = 0;
    while index < list.len()
        invariant
            index <= list.len(),
            substrings_in_list(*list, index as nat, column@) is Skip,
        decreases list.len() - index,
    {
        match like_substrings_literal(&list[index], column) {
            Ok(None) => {},
            decided => {
                proof {
                    lemma_substrings_decided(
                        *list,
                        (index + 1) as nat,
                        list.len() as nat,
                        column@,
                    );
                }
                return decided;
            },
        }
        index += 1;
    }
    Ok(None)
}

/// The one table that a subquery reads, where it goes by the given name.
pub open spec fn named_table(query: QueryAst, name: Seq<char>) -> Option<Seq<char>> {
    match query.body {
        QueryBody::Select(select) => match single_table(*select) {
            Ok(table) => if same_ignoring_case(name_of(table), name) {
                Some(table.path)
            } else {
                None
            },
            Err(_) => None,
        },
        _ => None,
    }
}

/// The first of two.
pub open spec fn first_of<T>(first: Option<T>, second: Option<T>) -> Option<T> {
    match first {
        Some(value) => Some(value),
        None => second,
    }
}

/// The table of the given name that the first subquery with it reads.
pub open spec fn path_in(expr: SqlExpr, name: Seq<char>) -> Option<Seq<char>>
    decreases expr,
{
    match expr.kind {
        SqlExprKind::Exists { subquery, .. } => path_in_query(*subquery, name),
        SqlExprKind::InSubquery { subquery, .. } => path_in_query(*subquery, name),
        SqlExprKind::Subquery(subquery) => path_in_query(*subquery, name),
        SqlExprKind::BinaryOp { left, right, .. } => first_of(
            path_in(*left, name),
            path_in(*right, name),
        ),
        SqlExprKind::Nested(inner) => path_in(*inner, name),
        SqlExprKind::UnaryOp { expr, .. } => path_in(*expr, name),
        SqlExprKind::InList { expr, list, .. } => first_of(
            path_in(*expr, name),
            path_in_list(list, list.len() as nat, name),
        ),
        SqlExprKind::Between { expr, low, high, .. } => first_of(
            first_of(path_in(*expr, name), path_in(*low, name)),
            path_in(*high, name),
        ),
        _ => None,
    }
}

/// The table of the given name that a subquery, or one in its filter, reads.
pub open spec fn path_in_query(query: QueryAst, name: Seq<char>) -> Option<Seq<char>>
    decreases query,
{
    match named_table(query, name) {
        Some(path) => Some(path),
        None => match query.body {
            QueryBody::Select(select) => match select.selection {
                Some(selection) => path_in(selection, name),
                None => None,
            },
            _ => None,
        },
    }
}

/// The table of the given name that the first of the expressions with it reads.
pub open spec fn path_in_list(list: Vec<SqlExpr>, count: nat, name: Seq<char>) -> Option<Seq<char>>
    decreases list, count,
{
    if count == 0 || count > list.len() {
        None
    } else {
        first_of(path_in_list(list, (count - 1) as nat, name), path_in(list[count - 1], name))
    }
}

/// Whether a path is the given one, where there is one.
pub open spec fn is_path(found: Option<String>, expected: Option<Seq<char>>) -> bool {
    match expected {
        Some(path) => found matches Some(found) && found@ == path,
        None => found is None,
    }
}

/// The table of the given name that the first subquery with it reads.
pub fn first_table_path_in_subqueries(expr: &SqlExpr, alias: &str) -> (path: Option<String>)
    ensures
        is_path(path, path_in(*expr, alias@)),
    decreases *expr,
{
    match &expr.kind {
        SqlExprKind::Exists { subquery, .. } => table_path_in_query(subquery, alias),
        SqlExprKind::InSubquery { subquery, .. } => table_path_in_query(subquery, alias),
        SqlExprKind::Subquery(subquery) => table_path_in_query(subquery, alias),
        SqlExprKind::BinaryOp { left, right, .. } => {
            match first_table_path_in_subqueries(left, alias) {
                Some(path) => Some(path),
                None => first_table_path_in_subqueries(right, alias),
            }
        },
        SqlExprKind::Nested(inner) => first_table_path_in_subqueries(inner, alias),
        SqlExprKind::UnaryOp { expr, .. } => first_table_path_in_subqueries(expr, alias),
        SqlExprKind::InList { expr, list, .. } => {
            match first_table_path_in_subqueries(expr, alias) {
                Some(path) => Some(path),
                None => table_path_in_list(list, alias),
            }
        },
        SqlExprKind::Between { expr, low, high, .. } => {
            match first_table_path_in_subqueries(expr, alias) {
                Some(path) => Some(path),
                None => match first_table_path_in_subqueries(low, alias) {
                    Some(path) => Some(path),
                    None => first_table_path_in_subqueries(high, alias),
                },
            }
        },
        _ => None,
    }
}

/// The table of the given name that a subquery, or one in its filter, reads.
fn table_path_in_query(query: &QueryAst, alias: &str) -> (path: Option<String>)
    ensures
        is_path(path, path_in_query(*query, alias@)),
    decreases *query,
{
    match &query.body {
        QueryBody::Select(select) => {
            match parse_from(select) {
                Ok(table) => {
                    let name = table_ref_alias_or_name(&table);
                    if eq_ignore_ascii_case(name.as_str(), alias) {
                        return Some(table.path);
                    }
                },
                Err(_) => {},
            }
            match &select.selection {
                Some(selection) => first_table_path_in_subqueries(selection, alias),
                None => None,
            }
        },
        _ => None,
    }
}

/// The table of the given name that the first of the expressions with it reads.
fn table_path_in_list(list: &Vec<SqlExpr>, alias: &str) -> (path: Option<String>)
    ensures
        is_path(path, path_in_list(*list, list.len() as nat, alias@)),
    decreases *list,
{
    let mut path: Option<String> = None;
    let mut index: usize = 0;
    while index < list.len()
        invariant
            index <= list.len(),
            is_path(path, path_in_list(*list, index as nat, alias@)),
        decreases list.len() - index,
    {
        if path.is_none() {
            path = first_table_path_in_subqueries(&list[index], alias);
        }
        index += 1;
    }
    path
}

/// The list that a conjunct asks a column to be in.
pub open spec fn list_for(conjunct: SqlExpr, column: Seq<char>) -> Option<Vec<SqlExpr>> {
    match conjunct.kind {
        SqlExprKind::InList { expr, list, negated } => if !negated && is_column_named(*expr, column) {
            Some(list)
        } else {
            None
        },
        _ => None,
    }
}

/// The first list that conjuncts ask a column to be in.
pub open spec fn first_list_for(conjuncts: Seq<&SqlExpr>, column: Seq<char>) -> Option<Vec<SqlExpr>>
    decreases conjuncts.len(),
{
    if conjuncts.len() == 0 {
        None
    } else {
        match first_list_for(conjuncts.drop_last(), column) {
            Some(list) => Some(list),
            None => list_for(*conjuncts.last(), column),
        }
    }
}

/// The literals of a list, the first failure where one is none.
pub open spec fn literals_of(list: Seq<SqlExpr>) -> Result<Seq<Literal>, Failure>
    decreases list.len(),
{
    if list.len() == 0 {
        Ok(Seq::empty())
    } else {
        match literals_of(list.drop_last()) {
            Err(failure) => Err(failure),
            Ok(earlier) => match literal_of(list.last()) {
                None => Err(no_literal(list.last())),
                Some(literal) => Ok(earlier.push(literal)),
            },
        }
    }
}

proof fn lemma_literals_of_fail(list: Seq<SqlExpr>, count: int)
    requires
        0 <= count <= list.len(),
        literals_of(list.take(count)) is Err,
    ensures
        literals_of(list) == literals_of(list.take(count)),
    decreases list.len() - count,
{
    if count < list.len() {
        assert(list.take(count + 1).drop_last() =~= list.take(count));
        lemma_literals_of_fail(list, count + 1);
    } else {
        assert(list.take(count) =~= list);
    }
}

/// The literals of a list.
fn read_list(list: &Vec<SqlExpr>) -> (result: SqlResult<Vec<LiteralValue>>)
    ensures
        match literals_of(list@) {
            Ok(values) => result matches Ok(found) && literal_views(found@) == values,
            Err(failure) => fails_with(result, failure),
        },
{
    let mut values: Vec<LiteralValue> = Vec::new();
    let mut index: usize = 0;
    proof {
        assert(list@.take(0) =~= Seq::empty());
        assert(literal_views(values@) =~= Seq::empty());
    }
    while index < list.len()
        invariant
            index <= list@.len(),
            literals_of(list@.take(index as int)) == Ok::<Seq<Literal>, Failure>(
                literal_views(values@),
            ),
        decreases list@.len() - index,
    {
        let ghost before = values@;
        proof {
            assert(list@.take(index + 1).drop_last() =~= list@.take(index as int));
            assert(list@.take(index + 1).last() == list@[index as int]);
        }
        match sql_literal_value(&list[index]) {
            Ok(value) => {
                let ghost literal = value@;
                values.push(value);
                assert(literal_views(values@) =~= literal_views(before).push(literal));
            },
            Err(error) => {
                proof {
                    lemma_literals_of_fail(list@, index + 1);
                }
                return Err(error);
            },
        }
        index += 1;
    }
    assert(list@.take(index as int) =~= list@);
    Ok(values)
}

proof fn lemma_first_list_stays(conjuncts: Seq<&SqlExpr>, column: Seq<char>, count: int)
    requires
        0 <= count <= conjuncts.len(),
        first_list_for(conjuncts.take(count), column) is Some,
    ensures
        first_list_for(conjuncts, column) == first_list_for(conjuncts.take(count), column),
    decreases conjuncts.len() - count,
{
    if count < conjuncts.len() {
        assert(conjuncts.take(count + 1).drop_last() =~= conjuncts.take(count));
        lemma_first_list_stays(conjuncts, column, count + 1);
    } else {
        assert(conjuncts.take(count) =~= conjuncts);
    }
}

/// The literals of the first list that conjuncts ask a column to be in.
pub fn numeric_in_literals(conjuncts: &[&SqlExpr], column: &str) -> (result: SqlResult<
    Option<Vec<LiteralValue>>,
>)
    ensures
        match first_list_for(conjuncts@, column@) {
            None => result matches Ok(None),
            Some(list) => match literals_of(list@) {
                Ok(values) => result matches Ok(Some(found)) && literal_views(found@) == values,
                Err(failure) => fails_with(result, failure),
            },
        },
{
    let mut index: usize = 0;
    assert(conjuncts@.take(0) =~= Seq::empty());
    while index < conjuncts.len()
        invariant
            index <= conjuncts@.len(),
            first_list_for(conjuncts@.take(index as int), column@) is None,
        decreases conjuncts@.len() - index,
    {
        proof {
            assert(conjuncts@.take(index + 1).drop_last() =~= conjuncts@.take(index as int));
            assert(conjuncts@.take(index + 1).last() == conjuncts@[index as int]);
        }
        match &conjuncts[index].kind {
            SqlExprKind::InList { expr, list, negated } => {
                if !*negated && sql_expr_column_matches(expr, column) {
                    proof {
                        lemma_first_list_stays(conjuncts@, column@, index + 1);
                    }
                    return match read_list(list) {
                        Ok(values) => Ok(Some(values)),
                        Err(error) => Err(error),
                    };
                }
            },
            _ => {},
        }
        index += 1;
    }
    assert(conjuncts@.take(index as int) =~= conjuncts@);
    Ok(None)
}

} // verus!
