//! What the choice of a rule goes by, and which queries are answered at all.

use vstd::prelude::*;
use crate::ast::{
    LimitAst, QueryAst, QueryBody, SelectAst, SqlBinaryOperator, SqlExpr, SqlExprKind,
    SqlValueKind,
};
use crate::error::Failure;
use crate::key_ranges::{row_filter_choice, RowFilterChoice, RowFilterLimits};
use crate::literals::literal_of;
use crate::predicates::{filter_columns, is_computed};
use crate::projection::first_ungrouped;
use crate::projection_expression::{route_of, ComputedRoute};
use crate::query_features::{distinct_failure, query_refused, select_refused, sort_columns};
use crate::query_modifiers::{limit_of, offset_of, Sorted};
use crate::rule_context::{
    cost_input, is_query_context, is_text_context, is_worth_trying, rule_cost, rule_estimate,
    SqlRuleContext, SqlRuleCostInput,
};
use crate::rules::SqlRule;
use crate::table_laws::how_many;
use crate::tables_from::{before_dot, last_mark};
use crate::text::{has_substring, is_truthy, lowered, usize_value};

verus! {

/// A rule is tried on the statements that it was made for: one for `WITH` on those that have
/// it, those that look into the `FROM` where something other than a table stands there, those
/// for joins where several inputs are read, those for subqueries where one is held, that for
/// computed values where one is put out or tested, and every other where a benchmark table is
/// named.
pub proof fn law_rules_are_called_for(rule: SqlRule, context: SqlRuleContext)
    ensures
        is_worth_trying(rule, context) <==> match rule {
            SqlRule::WithCte => context.has_with,
            SqlRule::DerivedPrefixAvgAntiJoinAggregate
            | SqlRule::DerivedJoin
            | SqlRule::DerivedLeftJoinCountDistribution
            | SqlRule::Derived => context.has_derived_from,
            SqlRule::JoinWithGroupedSumSemijoin
            | SqlRule::JoinWithCorrelatedAvgThreshold
            | SqlRule::MultiCommaJoin => context.has_join || context.from_table_count >= 2,
            SqlRule::CorrelatedJoinSubqueryFilter
            | SqlRule::MaterializedJoinSubquery
            | SqlRule::CorrelatedExistsSemijoin
            | SqlRule::CorrelatedInPairSemijoin
            | SqlRule::CorrelatedSubqueryFilter
            | SqlRule::CorrelatedExistsSubquery
            | SqlRule::ExistsSubquery
            | SqlRule::InSubquery => context.has_subquery,
            SqlRule::ProjectionExpression => context.has_projection_expression
                || context.has_predicate_expression,
            _ => context.has_tpch_like_terms,
        },
{
}

/// As many columns are found in a statement as are named in it, in small letters.
pub proof fn law_mentioned_columns(context: SqlRuleContext, columns: Seq<Seq<char>>)
    ensures
        context.mentioned(columns) == how_many(
            columns.len() as int,
            |place: int| has_substring(context.lower_sql@, lowered(columns[place])),
        ),
    decreases columns.len(),
{
    if columns.len() > 0 {
        let shorter = columns.drop_last();
        law_mentioned_columns(context, shorter);
        lemma_how_many_agrees(
            shorter.len() as int,
            |place: int| has_substring(context.lower_sql@, lowered(columns[place])),
            |place: int| has_substring(context.lower_sql@, lowered(shorter[place])),
        );
    }
}

proof fn lemma_how_many_agrees(
    rows: int,
    left: spec_fn(int) -> bool,
    right: spec_fn(int) -> bool,
)
    requires
        forall|row: int| 0 <= row < rows ==> #[trigger] left(row) == right(row),
    ensures
        how_many(rows, left) == how_many(rows, right),
    decreases rows,
{
    if rows > 0 {
        lemma_how_many_agrees(rows - 1, left, right);
        assert(left(rows - 1) == right(rows - 1));
    }
}

/// A rule that lacks nothing and scans nothing costs its rank. Each feature that is missing
/// adds a thousand, each column a hundred and each mebibyte one, up to the largest number.
pub proof fn law_each_lack_costs(input: SqlRuleCostInput, more: SqlRuleCostInput)
    requires
        input.base_rank == more.base_rank,
        input.matched_features == more.matched_features,
        input.matched_required_columns == more.matched_required_columns,
        input.matched_features <= input.required_features,
        input.matched_required_columns <= input.required_columns,
        rule_estimate(more) < u32::MAX,
    ensures
        input.required_features == input.matched_features && input.required_columns
            == input.matched_required_columns && input.estimated_scan_bytes is None
            ==> rule_estimate(input) == input.base_rank,
        more.required_features == input.required_features + 1 && more.required_columns
            == input.required_columns && more.estimated_scan_bytes == input.estimated_scan_bytes
            ==> rule_estimate(more) == rule_estimate(input) + 1_000,
        more.required_features == input.required_features && more.required_columns
            == input.required_columns + 1 && more.estimated_scan_bytes
            == input.estimated_scan_bytes ==> rule_estimate(more) == rule_estimate(input) + 100,
        more.required_features == input.required_features && more.required_columns
            == input.required_columns && input.estimated_scan_bytes is None ==> (
        more.estimated_scan_bytes matches Some(bytes) ==> 1_048_576 * (rule_estimate(more)
            - rule_estimate(input)) <= bytes < 1_048_576 * (rule_estimate(more) - rule_estimate(
            input,
        ) + 1)),
{
}

/// What is placed by a cost costs what its estimate says, and fifty thousand more where it
/// handles `WITH`, forty thousand more where it computes any expression.
pub proof fn law_general_rules_cost_more(
    rule: SqlRule,
    context: SqlRuleContext,
    estimated_scan_bytes: Option<u64>,
)
    requires
        rule_cost(rule, context, estimated_scan_bytes) < u32::MAX,
    ensures
        ({
            let estimate = rule_estimate(cost_input(rule, context, estimated_scan_bytes));
            let cost = rule_cost(rule, context, estimated_scan_bytes);
            match rule {
                SqlRule::WithCte => cost == estimate + 50_000,
                SqlRule::ProjectionExpression => cost == estimate + 40_000,
                _ => cost == estimate,
            }
        }),
{
}

/// The context of a query tells what it is made of: its `WITH`, its order and its limit, how
/// many tables it lists and whether others are joined to them, and whether it groups.
pub proof fn law_context_tells_the_query(
    context: SqlRuleContext,
    query: QueryAst,
    lower: Seq<char>,
)
    requires
        is_query_context(context, query, lower),
    ensures
        context.lower_sql@ == lower,
        context.has_with <==> query.ctes is Some,
        context.has_order_by <==> query.order_by is Some,
        context.has_limit ==> query.limit_clause is Some,
        query.body matches QueryBody::Select(select) ==> {
            &&& context.from_table_count == select.from@.len()
            &&& (context.has_group_by <==> (select.group_by.expressions matches Some(keys)
                && keys@.len() > 0))
            &&& (context.has_join <==> exists|place: int|
                0 <= place < select.from@.len() && (#[trigger] select.from@[place]).joins@.len()
                    > 0)
        },
{
}

/// Without a query the context goes by the words of the text.
pub proof fn law_context_of_words(context: SqlRuleContext, lower: Seq<char>)
    requires
        is_text_context(context, lower),
    ensures
        context.has_with <==> has_substring(lower, "with "@),
        context.has_join <==> has_substring(lower, " join "@),
        context.has_derived_from <==> has_substring(lower, "from ("@),
        context.has_group_by <==> has_substring(lower, " group by "@),
        context.has_order_by <==> has_substring(lower, " order by "@),
        context.has_limit <==> has_substring(lower, " limit "@),
        context.has_aggregate <==> has_substring(lower, "count("@) || has_substring(lower, "sum("@)
            || has_substring(lower, "avg("@) || has_substring(lower, "min("@) || has_substring(
            lower,
            "max("@,
        ),
        context.has_subquery ==> has_substring(lower, "select"@),
        has_substring(lower, "select"@) && has_substring(lower, "(select"@)
            ==> context.has_subquery,
        has_substring(lower, "lineitem"@) || has_substring(lower, "orders"@) || has_substring(
            lower,
            "part"@,
        ) || has_substring(lower, "supplier"@) ==> context.has_tpch_like_terms,
{
}

/// A query is answered only without `WITH`, `FETCH`, locks, settings, a format or pipes, and a
/// `SELECT` only without `TOP`, windows, `QUALIFY` and the like.
pub proof fn law_answered_queries_are_plain(query: QueryAst, select: SelectAst)
    ensures
        query_refused(query) == !(query.ctes is None && !query.extras.fetch && query.extras.locks
            == 0 && !query.extras.for_clause && !query.extras.settings
            && !query.extras.format_clause && query.extras.pipe_operators == 0),
        select_refused(select) == !(!select.extras.select_modifiers && !select.extras.top
            && !select.extras.into && !select.extras.prewhere && !select.extras.qualify
            && !select.extras.value_table_mode && select.extras.connect_by == 0
            && select.extras.cluster_by == 0 && select.extras.distribute_by == 0
            && select.extras.sort_by == 0 && select.extras.named_window == 0),
{
}

/// A limit or an offset is the number that is written; without one all rows from the first
/// are put out.
pub proof fn law_limits_are_written(query: QueryAst)
    ensures
        query.limit_clause is None ==> limit_of(query) == Ok::<Option<int>, Failure>(None)
            && offset_of(query) == Ok::<int, Failure>(0),
        query.limit_clause matches Some(LimitAst::LimitOffset { limit, offset, limit_by }) ==> {
            &&& (limit_of(query) matches Ok(Some(count)) ==> (limit matches Some(expr) && (
            expr.kind matches SqlExprKind::Value(value) && (value.kind matches SqlValueKind::Number(
                digits,
            ) && usize_value(digits@) == Some(count)))))
            &&& (limit_of(query) matches Ok(None) ==> limit is None)
            &&& (offset_of(query) matches Ok(count) ==> offset is None && count == 0 || (offset
                matches Some(expr) && (expr.kind matches SqlExprKind::Value(value) && (value.kind
                matches SqlValueKind::Number(digits) && usize_value(digits@) == Some(count)))))
            &&& (limit_of(query) is Ok || offset_of(query) is Ok ==> limit_by == 0)
        },
        query.limit_clause matches Some(LimitAst::OffsetCommaLimit) ==> limit_of(query) is Err
            && offset_of(query) is Err,
{
}

/// The first column that is no key stands before any other such; where every column is a key
/// there is none.
pub proof fn law_first_that_is_no_key(
    columns: Seq<Seq<char>>,
    keys: Seq<Seq<char>>,
) -> (place: int)
    ensures
        first_ungrouped(columns, keys) matches Some(column) ==> {
            &&& 0 <= place < columns.len()
            &&& columns[place] == column
            &&& !keys.contains(column)
            &&& forall|earlier: int|
                0 <= earlier < place ==> keys.contains(#[trigger] columns[earlier])
        },
        first_ungrouped(columns, keys) is None ==> forall|other: int|
            0 <= other < columns.len() ==> keys.contains(#[trigger] columns[other]),
    decreases columns.len(),
{
    if columns.len() == 0 {
        0
    } else {
        let shorter = columns.drop_last();
        let found = law_first_that_is_no_key(shorter, keys);
        assert forall|other: int| 0 <= other < shorter.len() implies #[trigger] columns[other]
            == shorter[other] by {}
        if first_ungrouped(shorter, keys) is Some {
            found
        } else {
            columns.len() - 1
        }
    }
}

/// Duplicate rows can be left out where nothing is aggregated and the rows are ordered by
/// nothing that is not selected.
pub proof fn law_distinct_rows_show_their_order(
    distinct: bool,
    columns: Option<Seq<Seq<char>>>,
    aggregates: int,
    order: Option<Seq<Sorted>>,
)
    ensures
        distinct_failure(distinct, columns, aggregates, order) is None <==> !distinct || aggregates
            == 0 && (columns matches Some(shown) ==> (order matches Some(sorts) ==> forall|
            place: int,
        |
            0 <= place < sorts.len() ==> shown.contains((#[trigger] sorts[place]).column))),
{
    if let (Some(shown), Some(sorts)) = (columns, order) {
        let sorted = sort_columns(sorts);
        let place = law_first_that_is_no_key(sorted, shown);
        assert(sorted.len() == sorts.len());
        if first_ungrouped(sorted, shown) is None {
            assert forall|place: int| 0 <= place < sorts.len() implies shown.contains(
                (#[trigger] sorts[place]).column,
            ) by {
                assert(sorted[place] == sorts[place].column);
            }
        } else {
            assert(sorted[place] == sorts[place].column);
        }
    }
}

/// Rows are computed one by one where nothing is aggregated; a computed filter goes before
/// aggregates only where the list itself computes nothing. Duplicates are never left out of
/// computed rows.
pub proof fn law_ways_of_computing(
    list_computed: bool,
    filter_computed: bool,
    distinct: bool,
    aggregated: bool,
    having: bool,
    filtered: bool,
)
    ensures
        ({
            let route = route_of(
                list_computed,
                filter_computed,
                distinct,
                aggregated,
                having,
                filtered,
            );
            &&& (route == ComputedRoute::Rows <==> (list_computed || filter_computed) && !distinct
                && !aggregated && !having)
            &&& (route == ComputedRoute::Aggregate <==> filter_computed && !list_computed
                && !distinct && aggregated && !having && filtered)
            &&& (route == ComputedRoute::DistinctRefused <==> distinct && (list_computed
                || filter_computed))
        }),
{
}

/// The name of a file without what follows its last dot.
pub proof fn law_names_without_endings(base: Seq<char>, ending: Seq<char>)
    requires
        base.len() > 0,
        forall|place: int| 0 <= place < ending.len() ==> #[trigger] ending[place] != '.',
    ensures
        before_dot(base + seq!['.'] + ending) == base,
        before_dot(ending) == ending,
{
    let name = base + seq!['.'] + ending;
    assert(last_mark(name, '.', base.len() as int)) by {
        assert forall|later: int| base.len() < later < name.len() implies #[trigger] name[later]
            != '.' by {
            assert(name[later] == ending[later - base.len() - 1]);
        }
    }
    let place = choose|place: int| last_mark(name, '.', place);
    assert(last_mark(name, '.', place));
    assert(name[base.len() as int] == '.');
    if place > base.len() {
        assert(name[place] == ending[place - base.len() - 1]);
    }
    assert(place == base.len());
    assert(name.take(place) =~= base);
    assert forall|other: int| !last_mark(ending, '.', other) by {}
}

/// A switch is on where it says one, `true` or `yes`, in small letters or in capitals.
pub proof fn law_texts_that_switch_on(text: Seq<char>)
    ensures
        is_truthy(text) == seq!["1"@, "true"@, "TRUE"@, "yes"@, "YES"@].contains(text),
{
    let on = seq!["1"@, "true"@, "TRUE"@, "yes"@, "YES"@];
    assert(on[0] == "1"@ && on[1] == "true"@ && on[2] == "TRUE"@ && on[3] == "yes"@ && on[4]
        == "YES"@);
}

/// Whether a condition names a column without a table.
pub open spec fn names_bare(expr: SqlExpr, name: Seq<char>) -> bool
    decreases expr,
{
    match expr.kind {
        SqlExprKind::Identifier(own) => own@ == name,
        SqlExprKind::BinaryOp { left, op, right } => names_bare(*left, name) || names_bare(
            *right,
            name,
        ),
        SqlExprKind::UnaryOp { op, expr: inner } => names_bare(*inner, name),
        SqlExprKind::Nested(inner) => names_bare(*inner, name),
        SqlExprKind::IsNull(inner) => names_bare(*inner, name),
        SqlExprKind::IsNotNull(inner) => names_bare(*inner, name),
        SqlExprKind::InList { expr: tested, list, negated } => names_bare(*tested, name),
        _ => false,
    }
}

/// Every column that a filter names is among those that are read for it.
pub proof fn law_named_columns_are_read(expr: SqlExpr, alias: Option<Seq<char>>, name: Seq<char>)
    requires
        filter_columns(expr, alias) is Ok,
        names_bare(expr, name),
    ensures
        filter_columns(expr, alias)->Ok_0.contains(name),
    decreases expr,
{
    let read = filter_columns(expr, alias)->Ok_0;
    match expr.kind {
        SqlExprKind::Identifier(own) => {
            assert(read[0] == name);
        },
        SqlExprKind::BinaryOp { left, op, right } => {
            let first = filter_columns(*left, alias)->Ok_0;
            let second = filter_columns(*right, alias)->Ok_0;
            if names_bare(*left, name) {
                law_named_columns_are_read(*left, alias, name);
                let at = choose|at: int| 0 <= at < first.len() && first[at] == name;
                assert(read[at] == name);
            } else {
                law_named_columns_are_read(*right, alias, name);
                let at = choose|at: int| 0 <= at < second.len() && second[at] == name;
                assert(read[first.len() + at] == name);
            }
        },
        SqlExprKind::UnaryOp { op, expr: inner } => {
            law_named_columns_are_read(*inner, alias, name);
        },
        SqlExprKind::Nested(inner) => {
            law_named_columns_are_read(*inner, alias, name);
        },
        SqlExprKind::IsNull(inner) => {
            law_named_columns_are_read(*inner, alias, name);
        },
        SqlExprKind::IsNotNull(inner) => {
            law_named_columns_are_read(*inner, alias, name);
        },
        SqlExprKind::InList { expr: tested, list, negated } => {
            law_named_columns_are_read(*tested, alias, name);
            let first = filter_columns(*tested, alias)->Ok_0;
            let at = choose|at: int| 0 <= at < first.len() && first[at] == name;
            assert(read[at] == name);
        },
        _ => {},
    }
}

/// A comparison of bare columns and literals computes nothing, and one with a call, a cast or
/// a `CASE` on either side does.
pub proof fn law_computed_comparisons(expr: SqlExpr)
    ensures
        expr.kind matches SqlExprKind::BinaryOp { left, op, right } ==> op != SqlBinaryOperator::And
            ==> op != SqlBinaryOperator::Or ==> {
            &&& (left.kind is Identifier || left.kind is Value && literal_of(*left) is Some) && (
            right.kind is Identifier || right.kind is Value && literal_of(*right) is Some)
                ==> !is_computed(expr)
            &&& left.kind is Function || right.kind is Function || left.kind is Cast
                || right.kind is Cast || left.kind is Case || right.kind is Case ==> is_computed(
                expr,
            )
        },
{
}

/// A scan filters rows by keys only where there are some, not too many of them, over enough
/// columns and within a range that goes up; few keys always do, more of them by how densely
/// they fill the range.
pub proof fn law_filters_by_keys(
    default_enabled: bool,
    key_count: int,
    min_key: i64,
    max_key: i64,
    projected_columns: int,
    limits: RowFilterLimits,
)
    ensures
        ({
            let choice = row_filter_choice(
                default_enabled,
                key_count,
                min_key,
                max_key,
                projected_columns,
                limits,
            );
            &&& (!(choice is No) ==> default_enabled && key_count != 0 && key_count
                <= limits.max_keys && projected_columns >= limits.min_projected_columns && min_key
                <= max_key)
            &&& (choice is Yes ==> key_count <= limits.always_allow_keys)
            &&& (choice matches RowFilterChoice::ByDensity { width } ==> key_count
                > limits.always_allow_keys && min_key + width == max_key + 1)
            &&& (default_enabled && 0 < key_count <= limits.max_keys && projected_columns
                >= limits.min_projected_columns && 0 <= max_key - min_key < u32::MAX
                ==> !(choice is No))
        }),
{
}

} // verus!
