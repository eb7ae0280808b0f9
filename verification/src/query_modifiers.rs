//! The order, the limit and the offset of a query.

use vstd::prelude::*;
use crate::aggregates::{aggregate_text, aggregate_to_string, parse_aggregate, plain_aggregate};
use crate::ast::{
    LimitAst, OrderClause, OrderKey, QueryAst, SqlExpr, SqlExprKind, SqlValue, SqlValueKind,
};
use crate::error::{fails_unsupported, fails_with, Failure, SqlError, SqlResult};
use crate::literals::{count_of, parse_usize_literal};
use crate::names::{column_in, sql_column_name, Scope, Tables};
use crate::plan::{SortExpr, SortKey};
use crate::projection_parser::pair_texts;
use crate::text::{
    chars_of, decimal_digits, decimal_text, joined, parse_usize, str_eq, string_copy, string_from,
    texts, usize_value,
};

verus! {

/// The target of the first alias of a name.
pub open spec fn target_of(
    name: Seq<char>,
    aliases: Seq<(Seq<char>, Seq<char>)>,
) -> Option<Seq<char>>
    decreases aliases.len(),
{
    if aliases.len() == 0 {
        None
    } else {
        match target_of(name, aliases.drop_last()) {
            Some(target) => Some(target),
            None => if aliases.last().0 == name {
                Some(aliases.last().1)
            } else {
                None
            },
        }
    }
}

/// What a name stands for: the target of its first alias, else itself.
pub open spec fn resolved_alias(
    name: Seq<char>,
    aliases: Seq<(Seq<char>, Seq<char>)>,
) -> Seq<char> {
    match target_of(name, aliases) {
        Some(target) => target,
        None => name,
    }
}

proof fn lemma_target_stays(name: Seq<char>, aliases: Seq<(Seq<char>, Seq<char>)>, count: int)
    requires
        0 <= count <= aliases.len(),
        target_of(name, aliases.take(count)) is Some,
    ensures
        target_of(name, aliases) == target_of(name, aliases.take(count)),
    decreases aliases.len() - count,
{
    if count < aliases.len() {
        assert(aliases.take(count + 1).drop_last() =~= aliases.take(count));
        lemma_target_stays(name, aliases, count + 1);
    } else {
        assert(aliases.take(count) =~= aliases);
    }
}

/// The target of the first alias of a name.
pub fn alias_target<'a>(name: &str, aliases: &'a [(String, String)]) -> (target: Option<&'a String>)
    ensures
        match target_of(name@, pair_texts(aliases@)) {
            Some(expected) => target matches Some(target) && target@ == expected,
            None => target is None,
        },
{
    let ghost pairs = pair_texts(aliases@);
    let mut index: usize = 0;
    assert(pairs.take(0) =~= Seq::empty());
    while index < aliases.len()
        invariant
            index <= aliases@.len(),
            pairs == pair_texts(aliases@),
            target_of(name@, pairs.take(index as int)) is None,
        decreases aliases@.len() - index,
    {
        proof {
            assert(pairs.take(index + 1).drop_last() =~= pairs.take(index as int));
            assert(pairs.take(index + 1).last() == pairs[index as int]);
        }
        if str_eq(aliases[index].0.as_str(), name) {
            proof {
                lemma_target_stays(name@, pairs, index + 1);
            }
            return Some(&aliases[index].1);
        }
        index += 1;
    }
    assert(pairs.take(index as int) =~= pairs);
    None
}

/// What a name stands for: the target of its first alias, else itself.
pub fn resolve_alias(name: &str, aliases: &[(String, String)]) -> (resolved: String)
    ensures
        resolved@ == resolved_alias(name@, pair_texts(aliases@)),
{
    match alias_target(name, aliases) {
        Some(target) => string_copy(target),
        None => string_from(chars_of(name).as_slice()),
    }
}

/// What a literal in an `ORDER BY` stands for: the position that it writes.
pub open spec fn position_of(value: SqlValue, ordinal_targets: Seq<Seq<char>>) -> Result<
    Seq<char>,
    Failure,
> {
    match value.kind {
        SqlValueKind::Number(number) => match usize_value(number@) {
            None => Err(Failure::Unsupported("invalid ORDER BY ordinal: "@ + number@)),
            Some(ordinal) => if ordinal == 0 {
                Err(Failure::Unsupported("ORDER BY ordinal must be greater than zero"@))
            } else if ordinal > ordinal_targets.len() {
                Err(
                    Failure::Unsupported(
                        "ORDER BY position "@ + decimal_digits(ordinal as nat)
                            + " is out of range"@,
                    ),
                )
            } else {
                Ok(ordinal_targets[ordinal - 1])
            },
        },
        _ => Err(
            Failure::Unsupported(
                "expected ORDER BY column, ordinal, or aggregate expression, got "@ + value.text@,
            ),
        ),
    }
}

/// What a literal in an `ORDER BY` stands for.
pub fn resolve_order_by_ordinal(value: &SqlValue, ordinal_targets: &[String]) -> (result: SqlResult<
    String,
>)
    ensures
        match position_of(*value, texts(ordinal_targets@)) {
            Ok(target) => result matches Ok(found) && found@ == target,
            Err(failure) => fails_with(result, failure),
        },
{
    match &value.kind {
        SqlValueKind::Number(number) => {
            let ordinal: usize = match parse_usize(number.as_str()) {
                Some(ordinal) => ordinal,
                None => {
                    return Err(
                        SqlError::UnsupportedSql(
                            joined("invalid ORDER BY ordinal: ", number.as_str()),
                        ),
                    );
                },
            };
            if ordinal == 0 {
                return Err(SqlError::unsupported("ORDER BY ordinal must be greater than zero"));
            }
            assert(texts(ordinal_targets@).len() == ordinal_targets@.len());
            if ordinal > ordinal_targets.len() {
                let digits = decimal_text(ordinal as u64);
                let message = joined("ORDER BY position ", digits.as_str());
                return Err(SqlError::UnsupportedSql(joined(message.as_str(), " is out of range")));
            }
            Ok(string_copy(&ordinal_targets[ordinal - 1]))
        },
        _ => Err(
            SqlError::UnsupportedSql(
                joined(
                    "expected ORDER BY column, ordinal, or aggregate expression, got ",
                    value.text.as_str(),
                ),
            ),
        ),
    }
}

/// What the keys of an `ORDER BY` are looked up in.
pub struct OrderNames<'a> {
    pub aliases: &'a [(String, String)],
    pub ordinal_targets: &'a [String],
    pub scope: Scope<'a>,
}

/// What the keys of an `ORDER BY` are looked up in, as a value.
pub struct OrderScope {
    pub aliases: Seq<(Seq<char>, Seq<char>)>,
    pub ordinal_targets: Seq<Seq<char>>,
    pub tables: Tables,
}

impl<'a> View for OrderNames<'a> {
    type V = OrderScope;

    open spec fn view(&self) -> OrderScope {
        OrderScope {
            aliases: pair_texts(self.aliases@),
            ordinal_targets: texts(self.ordinal_targets@),
            tables: self.scope@,
        }
    }
}

/// The column that an expression of an `ORDER BY` sorts by, before aliases.
pub open spec fn sorted_name(expr: SqlExpr, names: OrderScope) -> Result<Seq<char>, Failure> {
    match expr.kind {
        SqlExprKind::Value(value) => position_of(value, names.ordinal_targets),
        SqlExprKind::Identifier(_) => column_in(expr, names.tables),
        SqlExprKind::CompoundIdentifier(_) => column_in(expr, names.tables),
        SqlExprKind::Function(function) => match plain_aggregate(
            function,
            expr.text@,
            names.tables,
        ) {
            Ok(aggregate) => Ok(aggregate_text(aggregate)),
            Err(failure) => Err(failure),
        },
        _ => Err(
            Failure::Unsupported(
                "expected ORDER BY column or aggregate expression, got "@ + expr.text@,
            ),
        ),
    }
}

/// The column that an expression of an `ORDER BY` sorts by.
pub open spec fn sorted_column(expr: SqlExpr, names: OrderScope) -> Result<Seq<char>, Failure> {
    match sorted_name(expr, names) {
        Ok(name) => Ok(resolved_alias(name, names.aliases)),
        Err(failure) => Err(failure),
    }
}

/// The column that an expression of an `ORDER BY` sorts by.
fn parse_order_expr(expr: &SqlExpr, names: &OrderNames<'_>) -> (result: SqlResult<String>)
    ensures
        match sorted_column(*expr, names@) {
            Ok(column) => result matches Ok(found) && found@ == column,
            Err(failure) => fails_with(result, failure),
        },
{
    let name = match &expr.kind {
        SqlExprKind::Value(value) => resolve_order_by_ordinal(value, names.ordinal_targets),
        SqlExprKind::Identifier(_) | SqlExprKind::CompoundIdentifier(_) => sql_column_name(
            expr,
            names.scope,
        ),
        SqlExprKind::Function(function) => match parse_aggregate(
            function,
            &expr.text,
            names.scope,
        ) {
            Ok(aggregate) => Ok(aggregate_to_string(&aggregate)),
            Err(error) => Err(error),
        },
        _ => Err(
            SqlError::UnsupportedSql(
                joined(
                    "expected ORDER BY column or aggregate expression, got ",
                    expr.text.as_str(),
                ),
            ),
        ),
    };
    match name {
        Ok(name) => Ok(resolve_alias(name.as_str(), names.aliases)),
        Err(error) => Err(error),
    }
}

/// A sort key, as a value.
pub struct Sorted {
    pub column: Seq<char>,
    pub descending: bool,
    pub nulls_first: bool,
}

/// Sort keys, as values.
pub open spec fn sorted_views(expressions: Seq<SortExpr>) -> Seq<Sorted> {
    expressions.map_values(
        |sort: SortExpr|
            Sorted {
                column: sort.column@,
                descending: sort.descending,
                nulls_first: sort.nulls_first,
            },
    )
}

/// The sort key that a key of an `ORDER BY` is.
pub open spec fn sort_of(key: OrderKey, names: OrderScope) -> Result<Sorted, Failure> {
    if key.with_fill {
        Err(Failure::Unsupported("ORDER BY WITH FILL is not supported"@))
    } else {
        match sorted_column(key.expr, names) {
            Err(failure) => Err(failure),
            Ok(column) => Ok(
                Sorted {
                    column,
                    descending: key.asc == Some(false),
                    nulls_first: key.nulls_first == Some(true),
                },
            ),
        }
    }
}

/// The sort keys that the keys of an `ORDER BY` are, or the first failure.
pub open spec fn sorts_of(keys: Seq<OrderKey>, names: OrderScope) -> Result<Seq<Sorted>, Failure>
    decreases keys.len(),
{
    if keys.len() == 0 {
        Ok(Seq::empty())
    } else {
        match sorts_of(keys.drop_last(), names) {
            Err(failure) => Err(failure),
            Ok(earlier) => match sort_of(keys.last(), names) {
                Err(failure) => Err(failure),
                Ok(sort) => Ok(earlier.push(sort)),
            },
        }
    }
}

/// The order of a query, `None` where it has none.
pub open spec fn order_of(order_by: Option<OrderClause>, names: OrderScope) -> Result<
    Option<Seq<Sorted>>,
    Failure,
> {
    match order_by {
        None => Ok(None),
        Some(clause) => if clause.interpolate {
            Err(Failure::Unsupported("ORDER BY INTERPOLATE is not supported"@))
        } else {
            match clause.expressions {
                None => Err(Failure::Unsupported("ORDER BY ALL is not supported"@)),
                Some(keys) => match sorts_of(keys@, names) {
                    Err(failure) => Err(failure),
                    Ok(sorts) => if sorts.len() == 0 {
                        Err(Failure::Unsupported("ORDER BY requires at least one expression"@))
                    } else {
                        Ok(Some(sorts))
                    },
                },
            }
        },
    }
}

/// Whether a result is the order of a query.
pub open spec fn gives_order(
    result: SqlResult<Option<SortKey>>,
    expected: Result<Option<Seq<Sorted>>, Failure>,
) -> bool {
    match expected {
        Ok(Some(sorts)) => result matches Ok(Some(key)) && sorted_views(key.expressions@) == sorts,
        Ok(None) => result matches Ok(None),
        Err(failure) => fails_with(result, failure),
    }
}

proof fn lemma_sorts_fail(keys: Seq<OrderKey>, names: OrderScope, count: int)
    requires
        0 <= count <= keys.len(),
        sorts_of(keys.take(count), names) is Err,
    ensures
        sorts_of(keys, names) == sorts_of(keys.take(count), names),
    decreases keys.len() - count,
{
    if count < keys.len() {
        assert(keys.take(count + 1).drop_last() =~= keys.take(count));
        lemma_sorts_fail(keys, names, count + 1);
    } else {
        assert(keys.take(count) =~= keys);
    }
}

/// The sort key that a key of an `ORDER BY` is.
fn parse_order_key(key: &OrderKey, names: &OrderNames<'_>) -> (result: SqlResult<SortExpr>)
    ensures
        match sort_of(*key, names@) {
            Ok(sort) => result matches Ok(found) && found.column@ == sort.column && found.descending
                == sort.descending && found.nulls_first == sort.nulls_first,
            Err(failure) => fails_with(result, failure),
        },
{
    if key.with_fill {
        return Err(SqlError::unsupported("ORDER BY WITH FILL is not supported"));
    }
    match parse_order_expr(&key.expr, names) {
        Ok(column) => Ok(
            SortExpr {
                column,
                descending: match key.asc {
                    Some(asc) => !asc,
                    None => false,
                },
                nulls_first: match key.nulls_first {
                    Some(first) => first,
                    None => false,
                },
            },
        ),
        Err(error) => Err(error),
    }
}

/// The order of a query, `None` where it has none.
pub fn parse_order_by(order_by: &Option<OrderClause>, names: &OrderNames<'_>) -> (result: SqlResult<
    Option<SortKey>,
>)
    ensures
        gives_order(result, order_of(*order_by, names@)),
{
    let clause = match order_by {
        None => {
            return Ok(None);
        },
        Some(clause) => clause,
    };
    if clause.interpolate {
        return Err(SqlError::unsupported("ORDER BY INTERPOLATE is not supported"));
    }
    let keys = match &clause.expressions {
        None => {
            return Err(SqlError::unsupported("ORDER BY ALL is not supported"));
        },
        Some(keys) => keys,
    };
    let mut expressions: Vec<SortExpr> = Vec::new();
    let mut index: usize = 0;
    proof {
        assert(keys@.take(0) =~= Seq::empty());
        assert(sorted_views(expressions@) =~= Seq::empty());
    }
    while index < keys.len()
        invariant
            index <= keys@.len(),
            *order_by == Some(*clause),
            !clause.interpolate,
            clause.expressions == Some(*keys),
            sorts_of(keys@.take(index as int), names@) == Ok::<Seq<Sorted>, Failure>(
                sorted_views(expressions@),
            ),
        decreases keys@.len() - index,
    {
        proof {
            assert(keys@.take(index + 1).drop_last() =~= keys@.take(index as int));
            assert(keys@.take(index + 1).last() == keys@[index as int]);
        }
        match parse_order_key(&keys[index], names) {
            Ok(sort) => {
                let ghost before = expressions@;
                let ghost added = Sorted {
                    column: sort.column@,
                    descending: sort.descending,
                    nulls_first: sort.nulls_first,
                };
                expressions.push(sort);
                assert(sorted_views(expressions@) =~= sorted_views(before).push(added));
            },
            Err(error) => {
                proof {
                    lemma_sorts_fail(keys@, names@, index + 1);
                }
                return Err(error);
            },
        }
        index += 1;
    }
    assert(keys@.take(index as int) =~= keys@);
    assert(sorted_views(expressions@).len() == expressions@.len());
    if expressions.len() == 0 {
        return Err(SqlError::unsupported("ORDER BY requires at least one expression"));
    }
    Ok(Some(SortKey { expressions }))
}

proof fn lemma_sorts_by_key(keys: Seq<OrderKey>, names: OrderScope)
    requires
        sorts_of(keys, names) is Ok,
    ensures
        sorts_of(keys, names)->Ok_0.len() == keys.len(),
        forall|place: int|
            0 <= place < keys.len() ==> sort_of(#[trigger] keys[place], names) == Ok::<
                Sorted,
                Failure,
            >(sorts_of(keys, names)->Ok_0[place]),
    decreases keys.len(),
{
    if keys.len() > 0 {
        let shorter = keys.drop_last();
        lemma_sorts_by_key(shorter, names);
        assert forall|place: int| 0 <= place < keys.len() implies sort_of(
            #[trigger] keys[place],
            names,
        ) == Ok::<Sorted, Failure>(sorts_of(keys, names)->Ok_0[place]) by {
            if place < shorter.len() {
                assert(shorter[place] == keys[place]);
            }
        }
    }
}

/// A query without `ORDER BY` has no order. The order of one that has it holds a sort key for
/// each of its keys, in the same order: a key written `DESC` descends, one written `ASC` or
/// without a direction does not, and nulls come first exactly where the key says
/// `NULLS FIRST`.
pub proof fn law_order_keeps_directions(
    order_by: Option<OrderClause>,
    names: OrderScope,
    result: SqlResult<Option<SortKey>>,
)
    requires
        gives_order(result, order_of(order_by, names)),
    ensures
        order_by is None ==> result == Ok::<Option<SortKey>, SqlError>(None),
        order_by is Some && result is Ok ==> result->Ok_0 is Some && order_by->0.expressions is Some,
        order_by matches Some(clause) ==> clause.expressions matches Some(keys) ==> result
            matches Ok(Some(order)) ==> {
            &&& order.expressions@.len() == keys@.len()
            &&& order.expressions@.len() > 0
            &&& forall|place: int|
                0 <= place < keys@.len() ==> {
                    let key = #[trigger] keys@[place];
                    let sort = order.expressions@[place];
                    &&& key.asc == Some(true) ==> !sort.descending
                    &&& key.asc == Some(false) ==> sort.descending
                    &&& key.asc is None ==> !sort.descending
                    &&& key.nulls_first == Some(true) ==> sort.nulls_first
                    &&& key.nulls_first == Some(false) ==> !sort.nulls_first
                    &&& key.nulls_first is None ==> !sort.nulls_first
                    &&& !key.with_fill
                }
        },
{
    match order_by {
        Some(clause) => match clause.expressions {
            Some(keys) => if let Ok(Some(order)) = result {
                lemma_sorts_by_key(keys@, names);
                let sorts = sorted_views(order.expressions@);
                assert forall|place: int| 0 <= place < keys@.len() implies {
                    let key = #[trigger] keys@[place];
                    let sort = order.expressions@[place];
                    &&& key.asc == Some(true) ==> !sort.descending
                    &&& key.asc == Some(false) ==> sort.descending
                    &&& key.asc is None ==> !sort.descending
                    &&& key.nulls_first == Some(true) ==> sort.nulls_first
                    &&& key.nulls_first == Some(false) ==> !sort.nulls_first
                    &&& key.nulls_first is None ==> !sort.nulls_first
                    &&& !key.with_fill
                } by {
                    assert(sorts[place].descending == order.expressions@[place].descending);
                }
            },
            None => {},
        },
        None => {},
    }
}

/// The limit of a query, `None` where it has none.
pub open spec fn limit_of(query: QueryAst) -> Result<Option<int>, Failure> {
    match query.limit_clause {
        None => Ok(None),
        Some(LimitAst::LimitOffset { limit, offset, limit_by }) => if limit_by != 0 {
            Err(Failure::Unsupported("only LIMIT <integer> with optional OFFSET is supported"@))
        } else {
            match limit {
                Some(expr) => match count_of(expr) {
                    Ok(count) => Ok(Some(count)),
                    Err(failure) => Err(failure),
                },
                None => Ok(None),
            }
        },
        Some(LimitAst::OffsetCommaLimit) => Err(
            Failure::Unsupported("only LIMIT <integer> with optional OFFSET is supported"@),
        ),
    }
}

/// The limit of a query, `None` where it has none.
pub fn parse_limit(query: &QueryAst) -> (result: SqlResult<Option<usize>>)
    ensures
        match limit_of(*query) {
            Ok(Some(count)) => result matches Ok(Some(limit)) && limit == count,
            Ok(None) => result matches Ok(None),
            Err(failure) => fails_with(result, failure),
        },
{
    match &query.limit_clause {
        None => Ok(None),
        Some(LimitAst::LimitOffset { limit, offset: _, limit_by }) => {
            if *limit_by != 0 {
                return Err(
                    SqlError::unsupported("only LIMIT <integer> with optional OFFSET is supported"),
                );
            }
            match limit {
                Some(expr) => match parse_usize_literal(expr) {
                    Ok(count) => Ok(Some(count)),
                    Err(error) => Err(error),
                },
                None => Ok(None),
            }
        },
        Some(LimitAst::OffsetCommaLimit) => Err(
            SqlError::unsupported("only LIMIT <integer> with optional OFFSET is supported"),
        ),
    }
}

/// The offset of a query, zero where it has none.
pub open spec fn offset_of(query: QueryAst) -> Result<int, Failure> {
    match query.limit_clause {
        None => Ok(0),
        Some(LimitAst::LimitOffset { limit, offset, limit_by }) => if limit_by != 0 {
            Err(Failure::Unsupported("only LIMIT/OFFSET without LIMIT BY is supported"@))
        } else {
            match offset {
                Some(expr) => count_of(expr),
                None => Ok(0),
            }
        },
        Some(LimitAst::OffsetCommaLimit) => Err(
            Failure::Unsupported("only LIMIT/OFFSET without LIMIT BY is supported"@),
        ),
    }
}

/// The offset of a query, zero where it has none.
pub fn parse_offset(query: &QueryAst) -> (result: SqlResult<usize>)
    ensures
        match offset_of(*query) {
            Ok(count) => result matches Ok(offset) && offset == count,
            Err(failure) => fails_with(result, failure),
        },
{
    match &query.limit_clause {
        None => Ok(0),
        Some(LimitAst::LimitOffset { limit: _, offset, limit_by }) => {
            if *limit_by != 0 {
                return Err(
                    SqlError::unsupported("only LIMIT/OFFSET without LIMIT BY is supported"),
                );
            }
            match offset {
                Some(expr) => parse_usize_literal(expr),
                None => Ok(0),
            }
        },
        Some(LimitAst::OffsetCommaLimit) => Err(
            SqlError::unsupported("only LIMIT/OFFSET without LIMIT BY is supported"),
        ),
    }
}

/// How many rows a scan must give for a limit behind an offset, `None` for all.
pub fn scan_limit_with_offset(limit: Option<usize>, offset: usize) -> (result: SqlResult<
    Option<usize>,
>)
    ensures
        match limit {
            None => result matches Ok(None),
            Some(count) => if count + offset <= usize::MAX {
                result matches Ok(Some(rows)) && rows == count + offset
            } else {
                fails_unsupported(result, "LIMIT + OFFSET overflow"@)
            },
        },
{
    match limit {
        None => Ok(None),
        Some(count) => {
            if offset > usize::MAX - count {
                Err(SqlError::unsupported("LIMIT + OFFSET overflow"))
            } else {
                Ok(Some(count + offset))
            }
        },
    }
}

/// The column of an order by which a limit can be taken while rows come in: of the only
/// key, where it ascends with nulls last.
pub fn monotonic_stream_limit_column(order_by: Option<&SortKey>) -> (column: Option<String>)
    ensures
        match order_by {
            Some(key) => if key.expressions@.len() == 1 && !key.expressions@[0].descending
                && !key.expressions@[0].nulls_first {
                column matches Some(column) && column@ == key.expressions@[0].column@
            } else {
                column is None
            },
            None => column is None,
        },
{
    match order_by {
        Some(key) => {
            if key.expressions.len() == 1 && !key.expressions[0].descending
                && !key.expressions[0].nulls_first {
                Some(string_copy(&key.expressions[0].column))
            } else {
                None
            }
        },
        None => None,
    }
}

} // verus!
