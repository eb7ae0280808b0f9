//! What the plan of a query says, said over the query.

use vstd::prelude::*;
use crate::ast::{
    DistinctKind, JoinKind, JoinOn, JoinedTable, LimitAst, QueryAst, QueryBody, SelectAst,
    SqlBinaryOperator, SqlExpr, SqlExprKind, SqlValueKind, TableSource,
};
use crate::calendar::date_text_days;
use crate::conjuncts::{
    between_steps, bound_steps, compared_texts, conjuncts_of, day_bound_steps, day_range,
    equal_integers, first_step, is_column_named, last_step, pattern_steps, PatternShape,
};
use crate::error::{Failure, SqlResult};
use crate::filter_parser::{filter_of, tested_column, FilterScope};
use crate::filters::{ComparisonOp, Filter};
use crate::joins::{
    firsts, key_pair, pairs_in, plans_join, ref_pairs, seconds, side_of, JoinPlan, JoinType, Side,
};
use crate::literals::{literal_of, Literal};
use crate::names::{alias_with_prefix, column_prefix};
use crate::plan::SortKey;
use crate::predicate_pushdown::{escape_of, present_literals};
use crate::query_modifiers::{gives_order, law_order_keeps_directions, order_of};
use crate::query_parser::{
    clauses_of, has_parts, head_of, join_scope, output_tables, plans_comma, plans_comma_rest,
    plans_query, table_scope, SqlQuery,
};
use crate::row_scan::Step;
use crate::tables_from::{comma_tables, name_of, single_table, table_of};
use crate::text::{joined_with, texts, usize_value};

verus! {

/// What a row holds, and how values order and match patterns.
pub struct RowValues {
    pub column: spec_fn(Seq<char>) -> Literal,
    pub less: spec_fn(Literal, Literal) -> bool,
    pub alike: spec_fn(Literal, Seq<char>, Option<char>, bool) -> bool,
}

impl RowValues {
    /// Whether two values that are there compare by the order of values.
    pub open spec fn meets(self, left: Literal, op: ComparisonOp, right: Literal) -> bool {
        !(left is Null) && !(right is Null) && match op {
            ComparisonOp::Lt => (self.less)(left, right),
            ComparisonOp::Gt => (self.less)(right, left),
            ComparisonOp::LtEq => !(self.less)(right, left),
            ComparisonOp::GtEq => !(self.less)(left, right),
            ComparisonOp::Eq => !(self.less)(left, right) && !(self.less)(right, left),
            ComparisonOp::NotEq => (self.less)(left, right) || (self.less)(right, left),
        }
    }

    /// Whether two values that are there are the same by the order of values.
    pub open spec fn same(self, left: Literal, right: Literal) -> bool {
        !(left is Null) && !(right is Null) && !(self.less)(left, right) && !(self.less)(
            right,
            left,
        )
    }

    /// Whether a value is the same as one of some literals.
    pub open spec fn is_among(self, value: Literal, values: Seq<Literal>) -> bool {
        exists|place: int|
            0 <= place < values.len() && self.same(value, #[trigger] values[place])
    }

    /// Whether a value is the same as one of the literals that are written in a list.
    pub open spec fn is_written(self, value: Literal, list: Seq<SqlExpr>) -> bool {
        exists|place: int|
            0 <= place < list.len() && self.same(value, literal_of(#[trigger] list[place])->0)
    }

    /// What one side of a comparison is worth in this row.
    pub open spec fn operand(self, expr: SqlExpr, names: FilterScope) -> Literal {
        match literal_of(expr) {
            Some(literal) => literal,
            None => (self.column)(tested_column(expr, names)->Ok_0),
        }
    }

    /// Whether a filter of a scan keeps this row.
    pub open spec fn kept_by(self, filter: Filter) -> bool
        decreases filter,
    {
        match filter {
            Filter::Comparison { column, op, value } => self.meets(
                (self.column)(column),
                op,
                value,
            ),
            Filter::And(left, right) => self.kept_by(*left) && self.kept_by(*right),
            Filter::Or(left, right) => self.kept_by(*left) || self.kept_by(*right),
            Filter::InList { column, values, negated, has_null } => {
                let value = (self.column)(column);
                if negated {
                    !(value is Null) && !has_null && !self.is_among(value, values)
                } else {
                    self.is_among(value, values)
                }
            },
            Filter::IsNull { column, negated } => ((self.column)(column) is Null) == !negated,
            Filter::Like { column, pattern, negated, escape, case_insensitive } => {
                let value = (self.column)(column);
                !(value is Null) && (self.alike)(value, pattern, escape, case_insensitive)
                    == !negated
            },
        }
    }

    /// Whether a condition of a statement holds in this row, as far as it compares columns
    /// with literals.
    pub open spec fn fits(self, expr: SqlExpr, names: FilterScope) -> bool
        decreases expr,
    {
        match expr.kind {
            SqlExprKind::Nested(inner) => self.fits(*inner, names),
            SqlExprKind::BinaryOp { left, op, right } => {
                let first = self.operand(*left, names);
                let second = self.operand(*right, names);
                let there = !(first is Null) && !(second is Null);
                match op {
                    SqlBinaryOperator::And => self.fits(*left, names) && self.fits(*right, names),
                    SqlBinaryOperator::Or => self.fits(*left, names) || self.fits(*right, names),
                    SqlBinaryOperator::Lt => there && (self.less)(first, second),
                    SqlBinaryOperator::Gt => there && (self.less)(second, first),
                    SqlBinaryOperator::LtEq => there && !(self.less)(second, first),
                    SqlBinaryOperator::GtEq => there && !(self.less)(first, second),
                    SqlBinaryOperator::Eq => self.same(first, second),
                    SqlBinaryOperator::NotEq => there && !self.same(first, second),
                    _ => false,
                }
            },
            SqlExprKind::InList { expr: tested, list, negated } => {
                let value = self.operand(*tested, names);
                if negated {
                    !(value is Null) && !self.is_written(value, list@) && forall|place: int|
                        0 <= place < list@.len() ==> literal_of(#[trigger] list@[place]) != Some(
                            Literal::Null,
                        )
                } else {
                    self.is_written(value, list@)
                }
            },
            SqlExprKind::Between { expr: tested, negated, low, high } => {
                let value = self.operand(*tested, names);
                let from = self.operand(*low, names);
                let to = self.operand(*high, names);
                if negated {
                    !(value is Null) && ((!(from is Null) && (self.less)(value, from)) || (!(
                    to is Null) && (self.less)(to, value)))
                } else {
                    !(value is Null) && !(from is Null) && !(to is Null) && !(self.less)(
                        value,
                        from,
                    ) && !(self.less)(to, value)
                }
            },
            SqlExprKind::IsNull(inner) => self.operand(*inner, names) is Null,
            SqlExprKind::IsNotNull(inner) => !(self.operand(*inner, names) is Null),
            SqlExprKind::Like { expr: tested, pattern, negated, escape_char, case_insensitive,
                .. } => {
                let value = self.operand(*tested, names);
                match (literal_of(*pattern), escape_of(escape_char)) {
                    (Some(Literal::Utf8(text)), Ok(escape)) => !(value is Null) && (self.alike)(
                        value,
                        text,
                        escape,
                        case_insensitive,
                    ) == !negated,
                    _ => false,
                }
            },
            _ => false,
        }
    }
}

proof fn lemma_present_literals(list: Seq<SqlExpr>)
    requires
        present_literals(list) is Ok,
    ensures
        forall|place: int|
            0 <= place < list.len() ==> literal_of(#[trigger] list[place]) is Some && (literal_of(
                list[place],
            ) == Some(Literal::Null) || present_literals(list)->Ok_0.contains(
                literal_of(list[place])->0,
            )),
        forall|place: int|
            0 <= place < present_literals(list)->Ok_0.len() ==> exists|source: int|
                0 <= source < list.len() && literal_of(#[trigger] list[source]) == Some(
                    #[trigger] present_literals(list)->Ok_0[place],
                ),
    decreases list.len(),
{
    let values = present_literals(list)->Ok_0;
    if list.len() > 0 {
        let shorter = list.drop_last();
        let earlier = present_literals(shorter)->Ok_0;
        lemma_present_literals(shorter);
        assert forall|place: int| 0 <= place < list.len() implies literal_of(
            #[trigger] list[place],
        ) is Some && (literal_of(list[place]) == Some(Literal::Null) || values.contains(
            literal_of(list[place])->0,
        )) by {
            let literal = literal_of(list[place])->0;
            if place < shorter.len() {
                assert(shorter[place] == list[place]);
                if earlier.contains(literal) {
                    let there = choose|there: int|
                        0 <= there < earlier.len() && earlier[there] == literal;
                    assert(values[there] == literal);
                }
            } else if literal != Literal::Null {
                assert(values[earlier.len() as int] == literal);
            }
        }
        assert forall|place: int| 0 <= place < values.len() implies exists|source: int|
            0 <= source < list.len() && literal_of(#[trigger] list[source]) == Some(
                #[trigger] values[place],
            ) by {
            if place < earlier.len() {
                assert(earlier[place] == values[place]);
                let source = choose|source: int|
                    0 <= source < shorter.len() && literal_of(#[trigger] shorter[source]) == Some(
                        earlier[place],
                    );
                assert(literal_of(list[source]) == Some(values[place]));
            } else {
                assert(literal_of(list[list.len() - 1]) == Some(values[place]));
            }
        }
    }
}

/// The filter that a condition is keeps exactly the rows in which the condition holds,
/// whichever side of a comparison the column stands on.
#[verifier::rlimit(60)]
pub proof fn law_filter_keeps_fitting_rows(expr: SqlExpr, names: FilterScope, row: RowValues)
    requires
        filter_of(expr, names) is Ok,
    ensures
        row.kept_by(filter_of(expr, names)->Ok_0) <==> row.fits(expr, names),
    decreases expr,
{
    reveal_with_fuel(RowValues::kept_by, 2);
    match expr.kind {
        SqlExprKind::Nested(inner) => {
            law_filter_keeps_fitting_rows(*inner, names, row);
        },
        SqlExprKind::BinaryOp { left, op, right } => {
            if op == SqlBinaryOperator::And || op == SqlBinaryOperator::Or {
                law_filter_keeps_fitting_rows(*left, names, row);
                law_filter_keeps_fitting_rows(*right, names, row);
            }
        },
        SqlExprKind::InList { expr: tested, list, negated } => {
            lemma_present_literals(list@);
            let values = present_literals(list@)->Ok_0;
            let value = row.operand(*tested, names);
            assert(value == (row.column)(tested_column(*tested, names)->Ok_0));
            let listed = row.is_among(value, values);
            let written = row.is_written(value, list@);
            if listed {
                let place = choose|place: int|
                    0 <= place < values.len() && row.same(value, #[trigger] values[place]);
                let source = choose|source: int|
                    0 <= source < list@.len() && literal_of(#[trigger] list@[source]) == Some(
                        values[place],
                    );
                assert(row.same(value, literal_of(list@[source])->0));
                assert(written);
            }
            if written {
                let place = choose|place: int|
                    0 <= place < list@.len() && row.same(
                        value,
                        literal_of(#[trigger] list@[place])->0,
                    );
                let literal = literal_of(list@[place])->0;
                assert(values.contains(literal));
                let there = choose|there: int| 0 <= there < values.len()
                    && values[there] == literal;
                assert(row.same(value, values[there]));
                assert(listed);
            }
            let nulls = crate::predicate_pushdown::lists_null(list@);
            assert(nulls == !forall|place: int|
                0 <= place < list@.len() ==> literal_of(#[trigger] list@[place]) != Some(
                    Literal::Null,
                ));
        },
        SqlExprKind::Between { expr: tested, negated, low, high } => {
            let filter = filter_of(expr, names)->Ok_0;
            match filter {
                Filter::And(first, second) => {
                    assert(row.kept_by(filter) == (row.kept_by(*first) && row.kept_by(*second)));
                },
                Filter::Or(first, second) => {
                    assert(row.kept_by(filter) == (row.kept_by(*first) || row.kept_by(*second)));
                },
                _ => {},
            }
            assert(row.operand(*tested, names) == (row.column)(
                tested_column(*tested, names)->Ok_0,
            ));
        },
        _ => {},
    }
}

/// Whether an expression is a column of a table: qualified with the table, or bare with a
/// prefix that tells the table of the two.
pub open spec fn is_column_of(
    expr: SqlExpr,
    column: Seq<char>,
    table: Seq<char>,
    left: Seq<char>,
    right: Seq<char>,
) -> bool {
    match expr.kind {
        SqlExprKind::Identifier(name) => name@ == column && (column_prefix(name@) matches Some(
            prefix,
        ) && alias_with_prefix(prefix, seq![left, right]) == Some(table)),
        SqlExprKind::CompoundIdentifier(names) => names@.len() == 2 && names@[0]@ == table
            && names@[1]@ == column,
        _ => false,
    }
}

/// Whether a condition sets a column of the left table equal to one of the right table.
pub open spec fn sets_equal(
    conjunct: SqlExpr,
    left_column: Seq<char>,
    right_column: Seq<char>,
    left: Seq<char>,
    right: Seq<char>,
) -> bool {
    conjunct.kind matches SqlExprKind::BinaryOp { left: first, op, right: second } && op
        == SqlBinaryOperator::Eq && ((is_column_of(*first, left_column, left, left, right)
        && is_column_of(*second, right_column, right, left, right)) || (is_column_of(
        *first,
        right_column,
        right,
        left,
        right,
    ) && is_column_of(*second, left_column, left, left, right)))
}

pub proof fn lemma_pair_sets_equal(conjunct: SqlExpr, left: Seq<char>, right: Seq<char>)
    ensures
        key_pair(conjunct, left, right) matches Some((left_column, right_column)) ==> sets_equal(
            conjunct,
            left_column,
            right_column,
            left,
            right,
        ),
{
    match conjunct.kind {
        SqlExprKind::BinaryOp { left: first, op, right: second } => {
            lemma_side_is_column(*first, left, right);
            lemma_side_is_column(*second, left, right);
        },
        _ => {},
    }
}

proof fn lemma_side_is_column(expr: SqlExpr, left: Seq<char>, right: Seq<char>)
    ensures
        side_of(expr, left, right) matches Some(Side::Left(column)) ==> is_column_of(
            expr,
            column,
            left,
            left,
            right,
        ),
        side_of(expr, left, right) matches Some(Side::Right(column)) ==> is_column_of(
            expr,
            column,
            right,
            left,
            right,
        ),
{
    match expr.kind {
        SqlExprKind::Identifier(name) => match column_prefix(name@) {
            Some(prefix) => {
                let aliases = seq![left, right];
                match alias_with_prefix(prefix, aliases) {
                    Some(alias) => {
                        assert(aliases.contains(alias)) by {
                            let index = choose|index: int|
                                crate::names::first_with_prefix(prefix, aliases, index);
                            assert(aliases[index] == alias);
                        }
                    },
                    None => {},
                }
            },
            None => {},
        },
        _ => {},
    }
}

pub proof fn lemma_pairs_are_set_equal(
    conjuncts: Seq<&SqlExpr>,
    left: Seq<char>,
    right: Seq<char>,
    place: int,
) -> (index: int)
    requires
        0 <= place < ref_pairs(conjuncts, left, right).len(),
    ensures
        0 <= index < conjuncts.len(),
        sets_equal(
            *conjuncts[index],
            ref_pairs(conjuncts, left, right)[place].0,
            ref_pairs(conjuncts, left, right)[place].1,
            left,
            right,
        ),
    decreases conjuncts.len(),
{
    let shorter = conjuncts.drop_last();
    lemma_pair_sets_equal(*conjuncts.last(), left, right);
    if place < ref_pairs(shorter, left, right).len() {
        let index = lemma_pairs_are_set_equal(shorter, left, right, place);
        assert(shorter[index] == conjuncts[index]);
        index
    } else {
        conjuncts.len() - 1
    }
}

/// The keys of a `JOIN` are columns that its condition sets equal: as many of the left table
/// as of the right, each pair set equal by a conjunct, that of the left table on the left.
/// The join is of the kind that is written.
pub proof fn law_join_keys_are_set_equal(
    plan: JoinPlan,
    join: JoinedTable,
    left: Seq<char>,
    right: Seq<char>,
)
    requires
        plans_join(plan, join, left, right),
    ensures
        plan.left_keys@.len() == plan.right_keys@.len(),
        match join.operator {
            JoinKind::Inner(JoinOn::On(condition)) => {
                &&& plan.join_type == JoinType::Inner
                &&& keys_set_equal(plan, condition, left, right)
            },
            JoinKind::Left(JoinOn::On(condition)) => {
                &&& plan.join_type == JoinType::Left
                &&& keys_set_equal(plan, condition, left, right)
            },
            JoinKind::Semi(JoinOn::On(condition)) => {
                &&& plan.join_type == JoinType::Semi
                &&& keys_set_equal(plan, condition, left, right)
            },
            _ => false,
        },
{
    let condition = match join.operator {
        JoinKind::Inner(JoinOn::On(condition)) => condition,
        JoinKind::Left(JoinOn::On(condition)) => condition,
        JoinKind::Semi(JoinOn::On(condition)) => condition,
        _ => arbitrary(),
    };
    let pairs = pairs_in(condition, left, right);
    assert(texts(plan.left_keys@).len() == plan.left_keys@.len());
    assert(texts(plan.right_keys@).len() == plan.right_keys@.len());
    assert forall|place: int| 0 <= place < plan.left_keys@.len() implies set_equal_by_one(
        conjuncts_of(&condition),
        (#[trigger] plan.left_keys@[place])@,
        plan.right_keys@[place]@,
        left,
        right,
    ) by {
        let index = lemma_pairs_are_set_equal(conjuncts_of(&condition), left, right, place);
        assert(texts(plan.left_keys@)[place] == firsts(pairs)[place]);
        assert(texts(plan.right_keys@)[place] == seconds(pairs)[place]);
        assert(sets_equal(
            *conjuncts_of(&condition)[index],
            plan.left_keys@[place]@,
            plan.right_keys@[place]@,
            left,
            right,
        ));
    }
}

/// Whether one of the conjuncts sets two columns equal.
pub open spec fn set_equal_by_one(
    conjuncts: Seq<&SqlExpr>,
    left_column: Seq<char>,
    right_column: Seq<char>,
    left: Seq<char>,
    right: Seq<char>,
) -> bool {
    exists|index: int|
        0 <= index < conjuncts.len() && sets_equal(
            *#[trigger] conjuncts[index],
            left_column,
            right_column,
            left,
            right,
        )
}

/// Whether a condition sets the keys of a join equal, pair by pair.
pub open spec fn keys_set_equal(
    plan: JoinPlan,
    condition: SqlExpr,
    left: Seq<char>,
    right: Seq<char>,
) -> bool {
    forall|place: int|
        0 <= place < plan.left_keys@.len() ==> set_equal_by_one(
            conjuncts_of(&condition),
            (#[trigger] plan.left_keys@[place])@,
            plan.right_keys@[place]@,
            left,
            right,
        )
}

proof fn lemma_first_kept<T>(steps: spec_fn(int) -> Step<T>, count: int) -> (index: int)
    requires
        first_step(steps, count) is Keep,
    ensures
        0 <= index < count,
        steps(index) == first_step(steps, count),
        forall|earlier: int| 0 <= earlier < index ==> #[trigger] steps(earlier) is Skip,
    decreases count,
{
    if first_step(steps, count - 1) is Skip {
        lemma_all_skipped(steps, count - 1);
        count - 1
    } else {
        lemma_first_kept(steps, count - 1)
    }
}

proof fn lemma_all_skipped<T>(steps: spec_fn(int) -> Step<T>, count: int)
    requires
        first_step(steps, count) is Skip,
    ensures
        forall|earlier: int| 0 <= earlier < count ==> #[trigger] steps(earlier) is Skip,
    decreases count,
{
    if count > 0 {
        lemma_all_skipped(steps, count - 1);
    }
}

proof fn lemma_last_kept<T>(steps: spec_fn(int) -> Step<T>, count: int) -> (index: int)
    requires
        last_step(steps, count) is Keep,
    ensures
        0 <= index < count,
        steps(index) == last_step(steps, count),
        forall|later: int| index < later < count ==> #[trigger] steps(later) is Skip,
    decreases count,
{
    match steps(count - 1) {
        Step::Skip => lemma_last_kept(steps, count - 1),
        _ => count - 1,
    }
}

/// Whether a condition says that a column is less than an expression, or no more.
pub open spec fn bounds_above(conjunct: SqlExpr, column: Seq<char>, bound: SqlExpr) -> bool {
    conjunct.kind matches SqlExprKind::BinaryOp { left, op, right } && match op {
        SqlBinaryOperator::Lt => is_column_named(*left, column) && *right == bound,
        SqlBinaryOperator::LtEq => is_column_named(*left, column) && *right == bound,
        SqlBinaryOperator::Gt => is_column_named(*right, column) && *left == bound,
        SqlBinaryOperator::GtEq => is_column_named(*right, column) && *left == bound,
        _ => false,
    }
}

/// Whether a condition says that a column is greater than an expression, or no less.
pub open spec fn bounds_below(conjunct: SqlExpr, column: Seq<char>, bound: SqlExpr) -> bool {
    conjunct.kind matches SqlExprKind::BinaryOp { left, op, right } && match op {
        SqlBinaryOperator::Gt => is_column_named(*left, column) && *right == bound,
        SqlBinaryOperator::GtEq => is_column_named(*left, column) && *right == bound,
        SqlBinaryOperator::Lt => is_column_named(*right, column) && *left == bound,
        SqlBinaryOperator::LtEq => is_column_named(*right, column) && *left == bound,
        _ => false,
    }
}

/// A number that bounds a column from above, or from below, is written in a condition that
/// says so.
pub proof fn law_numeric_bounds(
    conjuncts: Seq<&SqlExpr>,
    column: Seq<char>,
    upper: bool,
) -> (found: (
    int,
    SqlExpr,
))
    requires
        last_step(bound_steps(conjuncts, column, upper), conjuncts.len() as int) is Keep,
    ensures
        0 <= found.0 < conjuncts.len(),
        upper ==> bounds_above(*conjuncts[found.0], column, found.1),
        !upper ==> bounds_below(*conjuncts[found.0], column, found.1),
        literal_of(found.1) == Some(
            last_step(bound_steps(conjuncts, column, upper), conjuncts.len() as int)->Keep_0,
        ),
{
    let steps = bound_steps(conjuncts, column, upper);
    let index = lemma_last_kept(steps, conjuncts.len() as int);
    let conjunct = *conjuncts[index];
    match conjunct.kind {
        SqlExprKind::BinaryOp { left, op, right } => {
            let less = op == SqlBinaryOperator::Lt || op == SqlBinaryOperator::LtEq;
            if less == upper && is_column_named(*left, column) {
                (index, *right)
            } else {
                (index, *left)
            }
        },
        _ => (index, conjunct),
    }
}

proof fn lemma_day_bound(conjuncts: Seq<&SqlExpr>, column: Seq<char>, upper: bool) -> (found: (
    int,
    SqlExpr,
))
    requires
        last_step(day_bound_steps(conjuncts, column, upper), conjuncts.len() as int) is Keep,
    ensures
        0 <= found.0 < conjuncts.len(),
        upper ==> bounds_above(*conjuncts[found.0], column, found.1),
        !upper ==> bounds_below(*conjuncts[found.0], column, found.1),
        literal_of(found.1) matches Some(Literal::Utf8(text)) && date_text_days(text) matches Some(
            days,
        ) && days as i32 == last_step(
            day_bound_steps(conjuncts, column, upper),
            conjuncts.len() as int,
        )->Keep_0,
{
    let steps = day_bound_steps(conjuncts, column, upper);
    let index = lemma_last_kept(steps, conjuncts.len() as int);
    let conjunct = *conjuncts[index];
    match conjunct.kind {
        SqlExprKind::BinaryOp { left, op, right } => {
            let less = op == SqlBinaryOperator::Lt || op == SqlBinaryOperator::LtEq;
            if less == upper && is_column_named(*left, column) {
                (index, *right)
            } else {
                (index, *left)
            }
        },
        _ => (index, conjunct),
    }
}

/// Whether one of the conditions bounds a column from below by a day.
pub open spec fn day_from(conjuncts: Seq<&SqlExpr>, column: Seq<char>, day: i32) -> bool {
    exists|index: int, bound: SqlExpr|
        0 <= index < conjuncts.len() && #[trigger] bounds_below(*conjuncts[index], column, bound)
            && (literal_of(bound) matches Some(Literal::Utf8(text)) && date_text_days(text)
            matches Some(days) && days as i32 == day)
}

/// Whether one of the conditions bounds a column from above by a day.
pub open spec fn day_to(conjuncts: Seq<&SqlExpr>, column: Seq<char>, day: i32) -> bool {
    exists|index: int, bound: SqlExpr|
        0 <= index < conjuncts.len() && #[trigger] bounds_above(*conjuncts[index], column, bound)
            && (literal_of(bound) matches Some(Literal::Utf8(text)) && date_text_days(text)
            matches Some(days) && days as i32 == day)
}

/// A range of days begins with a day that bounds the column from below and ends with one that
/// bounds it from above.
pub proof fn law_day_range(conjuncts: Seq<&SqlExpr>, column: Seq<char>)
    ensures
        day_range(conjuncts, column) matches Step::Keep((from, to)) ==> day_from(
            conjuncts,
            column,
            from,
        ) && day_to(conjuncts, column, to),
{
    if day_range(conjuncts, column) is Keep {
        let below = lemma_day_bound(conjuncts, column, false);
        let above = lemma_day_bound(conjuncts, column, true);
        assert(bounds_below(*conjuncts[below.0], column, below.1));
        assert(bounds_above(*conjuncts[above.0], column, above.1));
    }
}

/// The ends of a range are the low and the high end of the first `BETWEEN` of the column that
/// is not negated.
pub proof fn law_between_ends(conjuncts: Seq<&SqlExpr>, column: Seq<char>) -> (index: int)
    requires
        first_step(between_steps(conjuncts, column), conjuncts.len() as int) is Keep,
    ensures
        0 <= index < conjuncts.len(),
        conjuncts[index].kind matches SqlExprKind::Between { expr, negated, low, high } && !negated
            && is_column_named(*expr, column) && first_step(
            between_steps(conjuncts, column),
            conjuncts.len() as int,
        ) == Step::Keep((*low, *high)),
        forall|earlier: int|
            0 <= earlier < index ==> !((#[trigger] conjuncts[earlier]).kind
                matches SqlExprKind::Between { expr, negated, .. } && !negated && is_column_named(
                *expr,
                column,
            )),
{
    let steps = between_steps(conjuncts, column);
    let index = lemma_first_kept(steps, conjuncts.len() as int);
    assert forall|earlier: int| 0 <= earlier < index implies !((
    #[trigger] conjuncts[earlier]).kind matches SqlExprKind::Between { expr, negated, .. }
        && !negated && is_column_named(*expr, column)) by {
        assert(steps(earlier) is Skip);
    }
    index
}

/// A text that a column is compared with stands in a condition with that operator, beside the
/// column.
pub proof fn law_compared_text(
    conjuncts: Seq<&SqlExpr>,
    operator: SqlBinaryOperator,
    column: Seq<char>,
) -> (index: int)
    requires
        first_step(compared_texts(conjuncts, operator, column), conjuncts.len() as int) is Keep,
    ensures
        0 <= index < conjuncts.len(),
        conjuncts[index].kind matches SqlExprKind::BinaryOp { left, op, right } && op == operator
            && ({
            let text = Some(
                Literal::Utf8(
                    first_step(
                        compared_texts(conjuncts, operator, column),
                        conjuncts.len() as int,
                    )->Keep_0,
                ),
            );
            (is_column_named(*left, column) && literal_of(*right) == text) || (is_column_named(
                *right,
                column,
            ) && literal_of(*left) == text)
        }),
{
    lemma_first_kept(compared_texts(conjuncts, operator, column), conjuncts.len() as int)
}

/// An integer that a column must be equal to stands in an equality beside the column.
pub proof fn law_equal_integer(conjuncts: Seq<&SqlExpr>, column: Seq<char>) -> (index: int)
    requires
        first_step(equal_integers(conjuncts, column), conjuncts.len() as int) is Keep,
    ensures
        0 <= index < conjuncts.len(),
        conjuncts[index].kind matches SqlExprKind::BinaryOp { left, op, right } && op
            == SqlBinaryOperator::Eq && ({
            let value = first_step(
                equal_integers(conjuncts, column),
                conjuncts.len() as int,
            )->Keep_0;
            (is_column_named(*left, column) && (literal_of(*right) matches Some(
                Literal::Int64(number),
            ) && number as i64 == value)) || (is_column_named(*right, column) && (literal_of(*left)
                matches Some(Literal::Int64(number)) && number as i64 == value))
        }),
{
    lemma_first_kept(equal_integers(conjuncts, column), conjuncts.len() as int)
}

/// The text of a pattern that a column must be like, or must not be like, stands in a `LIKE`
/// of that column that heeds case, with the wildcards that its shape has and no other.
pub proof fn law_pattern_text(
    conjuncts: Seq<&SqlExpr>,
    column: Seq<char>,
    not: bool,
    shape: PatternShape,
) -> (index: int)
    requires
        first_step(pattern_steps(conjuncts, column, not, shape), conjuncts.len() as int) is Keep,
    ensures
        0 <= index < conjuncts.len(),
        conjuncts[index].kind matches SqlExprKind::Like {
            expr,
            pattern,
            negated,
            case_insensitive,
            ..
        } && negated == not && !case_insensitive && is_column_named(*expr, column) && (literal_of(
            *pattern,
        ) matches Some(Literal::Utf8(written)) && ({
            let text = first_step(
                pattern_steps(conjuncts, column, not, shape),
                conjuncts.len() as int,
            )->Keep_0;
            &&& !text.contains('%') && !text.contains('_')
            &&& match shape {
                PatternShape::Prefix => written == text.push('%'),
                PatternShape::Suffix => written == seq!['%'] + text,
                PatternShape::Contains => written == (seq!['%'] + text).push('%'),
            }
        })),
{
    let steps = pattern_steps(conjuncts, column, not, shape);
    let index = lemma_first_kept(steps, conjuncts.len() as int);
    match conjuncts[index].kind {
        SqlExprKind::Like { expr, pattern, negated, case_insensitive, .. } => match literal_of(
            *pattern,
        ) {
            Some(Literal::Utf8(written)) => {
                let text = first_step(steps, conjuncts.len() as int)->Keep_0;
                match shape {
                    PatternShape::Prefix => assert(written =~= text.push('%')),
                    PatternShape::Suffix => assert(written =~= seq!['%'] + text),
                    PatternShape::Contains => assert(written =~= (seq!['%'] + text).push('%')),
                }
            },
            _ => {},
        },
        _ => {},
    }
    index
}

/// Whether an optional expression is the number, or is not there where there is none.
pub open spec fn writes_count(expr: Option<SqlExpr>, count: Option<usize>) -> bool {
    match (expr, count) {
        (None, None) => true,
        (Some(expr), Some(count)) => expr.kind matches SqlExprKind::Value(value) && value.kind
            matches SqlValueKind::Number(text) && usize_value(text@) == Some(count as int),
        _ => false,
    }
}

/// What `LIMIT` and `OFFSET` say of a plan.
pub open spec fn keeps_counts(query: QueryAst, limit: Option<usize>, offset: usize) -> bool {
    match query.limit_clause {
        None => limit is None && offset == 0,
        Some(LimitAst::LimitOffset { limit: most, offset: skipped, limit_by }) => {
            &&& limit_by == 0
            &&& writes_count(most, limit)
            &&& skipped is None ==> offset == 0
            &&& skipped is Some ==> writes_count(skipped, Some(offset))
        },
        Some(LimitAst::OffsetCommaLimit) => false,
    }
}

/// What `ORDER BY` says of a plan: a sort key for each key, in the same direction.
pub open spec fn keeps_order(query: QueryAst, order_by: Option<SortKey>) -> bool {
    match query.order_by {
        None => order_by is None,
        Some(clause) => clause.expressions matches Some(keys) && order_by matches Some(order)
            && order.expressions@.len() == keys@.len() && forall|place: int|
            0 <= place < keys@.len() ==> {
                let key = #[trigger] keys@[place];
                let sort = order.expressions@[place];
                &&& key.asc == Some(true) ==> !sort.descending
                &&& key.asc == Some(false) ==> sort.descending
                &&& key.asc is None ==> !sort.descending
                &&& key.nulls_first == Some(true) ==> sort.nulls_first
                &&& key.nulls_first == Some(false) ==> !sort.nulls_first
                &&& key.nulls_first is None ==> !sort.nulls_first
            },
    }
}

/// Whether a path is the name of a table of a `FROM`, its parts joined by dots.
pub open spec fn is_path_of(path: Seq<char>, source: TableSource) -> bool {
    source matches TableSource::Table { name, .. } && (name matches Some(parts) && path
        == joined_with(texts(parts@), "."@))
}

proof fn lemma_parts_keep_clauses(
    query: QueryAst,
    select: SelectAst,
    filter: Option<SqlExpr>,
    planned: SqlQuery,
    tables: crate::names::Tables,
    scope: crate::query_parser::ClauseScope,
)
    requires
        head_of(select, tables) is Ok,
        clauses_of(query, filter, select.having, head_of(select, tables)->Ok_0, scope) is Ok,
        has_parts(
            planned,
            head_of(select, tables)->Ok_0,
            clauses_of(query, filter, select.having, head_of(select, tables)->Ok_0, scope)->Ok_0,
            filter,
        ),
    ensures
        keeps_order(query, planned.order_by),
        keeps_counts(query, planned.limit, planned.offset),
        planned.distinct <==> select.distinct == DistinctKind::Distinct,
        planned.having is Some <==> select.having is Some,
        filter is None ==> planned.filter is None && planned.expression_filter is None,
        filter is Some ==> (planned.filter is Some <==> planned.expression_filter is None),
        planned.expression_filter is Some ==> planned.expression_filter == filter,
{
    let result: SqlResult<Option<SortKey>> = Ok(planned.order_by);
    assert(gives_order(result, order_of(query.order_by, scope.order)));
    law_order_keeps_directions(query.order_by, scope.order, result);
}

/// The plan of a query keeps the order, the directions, the limit and the offset of the query,
/// and drops duplicate rows exactly where the query says `DISTINCT`.
pub proof fn law_plan_keeps_clauses(query: QueryAst, planned: SqlQuery)
    requires
        plans_query(query, Ok(planned)),
    ensures
        keeps_order(query, planned.order_by),
        keeps_counts(query, planned.limit, planned.offset),
        query.body matches QueryBody::Select(select) && (planned.distinct <==> select.distinct
            == DistinctKind::Distinct) && (planned.having is Some <==> select.having is Some) && (
        planned.join is Some <==> select.from@.len() > 1 || (select.from@.len() == 1
            && select.from@[0].joins@.len() > 0)) && select.from@.len() > 0 && is_path_of(
            planned.path@,
            select.from@[0].relation,
        ),
{
    match query.body {
        QueryBody::Select(boxed) => {
            let select = *boxed;
            if select.from@.len() > 1 {
                lemma_comma_keeps_clauses(query, select, planned);
            } else if select.from@.len() > 0 && select.from@[0].joins@.len() > 0 {
                let join = select.from@[0].joins@[0];
                let left = table_of(select.from@[0].relation)->Ok_0;
                let right = table_of(join.relation)->Ok_0;
                let tables = output_tables(left, right, crate::joins::join_type_of(join));
                let names = crate::names::Tables::Join(tables);
                lemma_parts_keep_clauses(
                    query,
                    select,
                    select.selection,
                    planned,
                    names,
                    join_scope(tables, head_of(select, names)->Ok_0.list),
                );
            } else {
                let table = single_table(select)->Ok_0;
                let names = crate::names::Tables::Table(table.alias);
                lemma_parts_keep_clauses(
                    query,
                    select,
                    select.selection,
                    planned,
                    names,
                    table_scope(table.alias, head_of(select, names)->Ok_0.list),
                );
            }
        },
        _ => {},
    }
}

proof fn lemma_listed_first(from: Seq<crate::ast::FromTable>)
    requires
        crate::tables_from::listed_tables(from) is Ok,
    ensures
        crate::tables_from::listed_tables(from)->Ok_0.len() == from.len(),
        forall|place: int|
            0 <= place < from.len() ==> table_of((#[trigger] from[place]).relation) == Ok::<
                crate::tables_from::Table,
                Failure,
            >(crate::tables_from::listed_tables(from)->Ok_0[place]),
    decreases from.len(),
{
    if from.len() > 0 {
        let shorter = from.drop_last();
        lemma_listed_first(shorter);
        assert forall|place: int| 0 <= place < from.len() implies table_of(
            (#[trigger] from[place]).relation,
        ) == Ok::<crate::tables_from::Table, Failure>(
            crate::tables_from::listed_tables(from)->Ok_0[place],
        ) by {
            if place < shorter.len() {
                assert(shorter[place] == from[place]);
            }
        }
    }
}

proof fn lemma_comma_keeps_clauses(query: QueryAst, select: SelectAst, planned: SqlQuery)
    requires
        plans_comma(query, select, Ok(planned)),
    ensures
        keeps_order(query, planned.order_by),
        keeps_counts(query, planned.limit, planned.offset),
        planned.distinct <==> select.distinct == DistinctKind::Distinct,
        planned.having is Some <==> select.having is Some,
        planned.join is Some,
        is_path_of(planned.path@, select.from@[0].relation),
{
    let result: SqlResult<SqlQuery> = Ok(planned);
    let found = comma_tables(select)->Ok_0->0;
    let left = found[0];
    let right = found[1];
    let tables = seq![name_of(left), name_of(right)];
    let names = crate::names::Tables::Join(tables);
    let head = head_of(select, names)->Ok_0;
    let rest = choose|rest: Option<SqlExpr>|
        {
            &&& crate::joins::conjoins(
                rest,
                crate::joins::residuals(
                    crate::joins::owned_conjuncts(select.selection->0),
                    name_of(left),
                    name_of(right),
                ),
            )
            &&& #[trigger] plans_comma_rest(query, select, left, right, head, rest, result)
        };
    assert(plans_comma_rest(query, select, left, right, head, rest, result));
    lemma_parts_keep_clauses(query, select, rest, planned, names, join_scope(tables, head.list));
    lemma_listed_first(select.from@);
}

} // verus!
