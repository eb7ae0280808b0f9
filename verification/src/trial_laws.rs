//! In which order rules are tried, what sums and filters of subqueries come to, and how many
//! rows a sort must deliver.

use vstd::prelude::*;
use crate::ast::{SqlExpr, SqlExprKind};
use crate::conjuncts::is_column_named;
use crate::dense_sums::{exact_sum, sums_after, Contribution};
use crate::error::{SqlError, SqlResult};
use crate::literals::literal_of;
use crate::output_plan::{sorted_limit_of, sorted_rows};
use crate::output_utils::window;
use crate::projection::{projected_from, GroupBinding, Selected};
use crate::rule_context::{
    after_trial, in_trial_order, is_worth_trying, known_bytes, known_prefix, says_mismatch,
    tried_before, worth_trying, RuleTrial, SqlRuleCandidate, SqlRuleContext,
};
use crate::rules::{rule_rank, SqlRule};
use crate::subquery_literals::{first_list_for, literals_of};

verus! {

/// Rules are tried by their cost, the cheapest first; of those that cost the same, the one
/// that the registry lists first.
pub proof fn law_cheapest_rules_first(
    candidates: Seq<SqlRuleCandidate>,
    left: int,
    right: int,
)
    requires
        in_trial_order(candidates),
        0 <= left < right < candidates.len(),
    ensures
        candidates[left].estimated_cost <= candidates[right].estimated_cost,
        candidates[left].estimated_cost == candidates[right].estimated_cost ==> rule_rank(
            candidates[left].rule,
        ) <= rule_rank(candidates[right].rule),
{
    let earlier = candidates[left];
    let later = candidates[right];
    assert(!tried_before(later, earlier));
}

/// Exactly the rules that are called for are tried.
pub proof fn law_called_rules_are_tried(
    rules: Seq<SqlRule>,
    context: SqlRuleContext,
    rule: SqlRule,
)
    ensures
        worth_trying(rules, context).contains(rule) <==> rules.contains(rule) && is_worth_trying(
            rule,
            context,
        ),
    decreases rules.len(),
{
    if rules.len() > 0 {
        let shorter = rules.drop_last();
        let last = rules.last();
        law_called_rules_are_tried(shorter, context, rule);
        let before = worth_trying(shorter, context);
        let tried = worth_trying(rules, context);
        assert(rules[rules.len() - 1] == last);
        if shorter.contains(rule) {
            let at = choose|at: int| 0 <= at < shorter.len() && shorter[at] == rule;
            assert(rules[at] == rule);
        }
        if rules.contains(rule) && rule != last {
            let at = choose|at: int| 0 <= at < rules.len() && rules[at] == rule;
            assert(shorter[at] == rule);
        }
        if before.contains(rule) {
            let at = choose|at: int| 0 <= at < before.len() && before[at] == rule;
            assert(tried[at] == rule);
        }
        if is_worth_trying(last, context) {
            assert(tried[before.len() as int] == last);
        }
        if tried.contains(rule) && rule != last {
            let at = choose|at: int| 0 <= at < tried.len() && tried[at] == rule;
            assert(before[at] == rule);
        }
    }
}

/// After a rule that answers nothing else is tried. One that does not answer, or fails because
/// the statement is of another form, leaves it to the next; any other failure is final.
pub proof fn law_trials_go_on(outcome: SqlResult<bool>)
    ensures
        after_trial(outcome) == RuleTrial::Answered <==> outcome == Ok::<bool, SqlError>(true),
        outcome == Ok::<bool, SqlError>(false) ==> after_trial(outcome) == RuleTrial::Next,
        outcome matches Err(error) ==> (after_trial(outcome) == RuleTrial::Next <==> (error
            matches SqlError::UnsupportedSql(message) && says_mismatch(message@))),
        outcome matches Err(error) ==> !(error is UnsupportedSql) ==> after_trial(outcome)
            == RuleTrial::Failed,
{
}

/// The bytes that are known to be scanned are at least those of each table, and no more than
/// all of them together; a table of which nothing is known adds none.
pub proof fn law_known_bytes_add_up(estimates: Seq<Option<u64>>, more: Option<u64>)
    ensures
        0 <= known_bytes(estimates) <= u64::MAX,
        more is None ==> known_bytes(estimates.push(more)) == known_bytes(estimates),
        more matches Some(bytes) ==> known_bytes(estimates) + bytes <= u64::MAX ==> known_bytes(
            estimates.push(more),
        ) == known_bytes(estimates) + bytes,
        more matches Some(bytes) ==> known_bytes(estimates.push(more)) >= bytes,
    decreases estimates.len(),
{
    assert(estimates.push(more).drop_last() =~= estimates);
    if estimates.len() > 0 {
        law_known_bytes_add_up(estimates.drop_last(), estimates.last());
        assert(estimates.drop_last().push(estimates.last()) =~= estimates);
    }
}

/// A table is known by the prefix of its columns exactly where it is the benchmark table whose
/// columns have that prefix.
pub proof fn law_known_prefixes(table: Seq<char>)
    ensures
        table == "lineitem"@ <==> known_prefix(table) == Some("l_"@),
        table == "orders"@ <==> known_prefix(table) == Some("o_"@),
        table == "customer"@ <==> known_prefix(table) == Some("c_"@),
        table == "supplier"@ <==> known_prefix(table) == Some("s_"@),
        table == "partsupp"@ <==> known_prefix(table) == Some("ps_"@),
        table == "part"@ <==> known_prefix(table) == Some("p_"@),
        table == "nation"@ <==> known_prefix(table) == Some("n_"@),
        table == "region"@ <==> known_prefix(table) == Some("r_"@),
{
    reveal_strlit("lineitem");
    reveal_strlit("l_");
    reveal_strlit("orders");
    reveal_strlit("o_");
    reveal_strlit("customer");
    reveal_strlit("c_");
    reveal_strlit("supplier");
    reveal_strlit("s_");
    reveal_strlit("partsupp");
    reveal_strlit("ps_");
    reveal_strlit("part");
    reveal_strlit("p_");
    reveal_strlit("nation");
    reveal_strlit("n_");
    reveal_strlit("region");
    reveal_strlit("r_");
    assert("lineitem"@[0] == 'l' && "lineitem"@.len() == 8 && "orders"@[0] == 'o'
        && "orders"@.len() == 6);
    assert("customer"@[0] == 'c' && "customer"@.len() == 8 && "supplier"@[0] == 's'
        && "supplier"@.len() == 8);
    assert("partsupp"@[0] == 'p' && "partsupp"@.len() == 8 && "part"@[0] == 'p'
        && "part"@.len() == 4);
    assert("nation"@[0] == 'n' && "nation"@.len() == 6 && "region"@[0] == 'r'
        && "region"@.len() == 6);
    assert("l_"@[0] == 'l' && "l_"@.len() == 2 && "o_"@[0] == 'o' && "o_"@.len() == 2);
    assert("c_"@[0] == 'c' && "c_"@.len() == 2 && "s_"@[0] == 's' && "s_"@.len() == 2);
    assert("ps_"@[0] == 'p' && "ps_"@.len() == 3 && "p_"@[0] == 'p' && "p_"@.len() == 2);
    assert("n_"@[0] == 'n' && "n_"@.len() == 2 && "r_"@[0] == 'r' && "r_"@.len() == 2);
}

/// The sum of a key takes in every contribution to it and none to another key.
pub proof fn law_sums_take_in_their_key(
    contributions: Seq<Contribution>,
    more: Contribution,
    key: int,
)
    ensures
        exact_sum(Seq::empty(), key) == 0,
        more.0 == key ==> exact_sum(contributions.push(more), key) == exact_sum(
            contributions,
            key,
        ) + more.1,
        more.0 != key ==> exact_sum(contributions.push(more), key) == exact_sum(
            contributions,
            key,
        ),
{
    assert(contributions.push(more).drop_last() =~= contributions);
}

/// A contribution changes the sum of its own key only, which wraps around by the size of the
/// integers where it would leave them.
pub proof fn law_contributions_change_their_key(
    sums: Seq<i64>,
    contributions: Seq<Contribution>,
    more: Contribution,
    key: int,
)
    requires
        0 <= more.0 < sums.len(),
        0 <= key < sums.len(),
        i64::MIN <= more.1 <= i64::MAX,
        forall|place: int|
            0 <= place < contributions.len() ==> 0 <= (#[trigger] contributions[place]).0
                < sums.len(),
    ensures
        sums_after(sums, Seq::empty()) == sums,
        sums_after(sums, contributions).len() == sums.len(),
        key != more.0 ==> sums_after(sums, contributions.push(more))[key] == sums_after(
            sums,
            contributions,
        )[key],
        key == more.0 ==> ({
            let before = sums_after(sums, contributions)[key];
            let after = sums_after(sums, contributions.push(more))[key];
            after == before + more.1 || after == before + more.1 - 0x1_0000_0000_0000_0000 || after
                == before + more.1 + 0x1_0000_0000_0000_0000
        }),
{
    assert(contributions.push(more).drop_last() =~= contributions);
    lemma_as_many_sums(sums, contributions);
}

proof fn lemma_as_many_sums(sums: Seq<i64>, contributions: Seq<Contribution>)
    requires
        forall|place: int|
            0 <= place < contributions.len() ==> 0 <= (#[trigger] contributions[place]).0
                < sums.len(),
    ensures
        sums_after(sums, contributions).len() == sums.len(),
    decreases contributions.len(),
{
    if contributions.len() > 0 {
        let shorter = contributions.drop_last();
        assert forall|place: int| 0 <= place < shorter.len() implies 0 <= (
        #[trigger] shorter[place]).0 < sums.len() by {
            assert(shorter[place] == contributions[place]);
        }
        lemma_as_many_sums(sums, shorter);
        assert(contributions.last() == contributions[contributions.len() - 1]);
    }
}

/// The window that an offset and a limit leave of sorted rows needs no rows behind those that
/// the sort is asked for.
pub proof fn law_sorts_deliver_enough<T>(list: Seq<T>, limit: usize, offset: usize)
    ensures
        sorted_limit_of(None, offset) is None,
        sorted_limit_of(Some(limit), offset) matches Some(wanted) ==> wanted == limit + offset
            && window(list.take(if wanted <= list.len() {
            wanted as int
        } else {
            list.len() as int
        }), offset as int, limit as int) =~= window(list, offset as int, limit as int),
{
}

/// A sort up to a limit delivers the limit, or all rows where there are fewer.
pub proof fn law_sorted_row_counts(rows: usize, limit: Option<usize>)
    ensures
        sorted_rows(rows, limit) <= rows,
        limit is None ==> sorted_rows(rows, limit) == rows,
        limit matches Some(most) ==> sorted_rows(rows, limit) <= most && (sorted_rows(rows, limit)
            == most || sorted_rows(rows, limit) == rows),
{
}

/// The list of a column is that of the first conjunct that asks the column to be in one.
pub proof fn law_first_list_of_a_column(
    conjuncts: Seq<&SqlExpr>,
    column: Seq<char>,
) -> (place: int)
    ensures
        first_list_for(conjuncts, column) matches Some(found) ==> {
            &&& 0 <= place < conjuncts.len()
            &&& (conjuncts[place].kind matches SqlExprKind::InList { expr, list, negated }
                && !negated && list == found && is_column_named(*expr, column))
            &&& forall|earlier: int|
                0 <= earlier < place ==> !((#[trigger] conjuncts[earlier]).kind
                    matches SqlExprKind::InList { expr, list, negated } && !negated
                    && is_column_named(*expr, column))
        },
        first_list_for(conjuncts, column) is None ==> forall|other: int|
            0 <= other < conjuncts.len() ==> !((#[trigger] conjuncts[other]).kind
                matches SqlExprKind::InList { expr, list, negated } && !negated && is_column_named(
                *expr,
                column,
            )),
    decreases conjuncts.len(),
{
    if conjuncts.len() == 0 {
        0
    } else {
        let shorter = conjuncts.drop_last();
        let found = law_first_list_of_a_column(shorter, column);
        assert forall|other: int| 0 <= other < shorter.len() implies #[trigger] conjuncts[other]
            == shorter[other] by {}
        if first_list_for(shorter, column) is Some {
            found
        } else {
            conjuncts.len() - 1
        }
    }
}

/// The literals of a list are what its expressions are worth, in their places.
pub proof fn law_literals_in_places(list: Seq<SqlExpr>)
    requires
        literals_of(list) is Ok,
    ensures
        literals_of(list)->Ok_0.len() == list.len(),
        forall|place: int|
            0 <= place < list.len() ==> literal_of(#[trigger] list[place]) == Some(
                literals_of(list)->Ok_0[place],
            ),
    decreases list.len(),
{
    if list.len() > 0 {
        let shorter = list.drop_last();
        law_literals_in_places(shorter);
        assert forall|place: int| 0 <= place < list.len() implies literal_of(
            #[trigger] list[place],
        ) == Some(literals_of(list)->Ok_0[place]) by {
            if place < shorter.len() {
                assert(shorter[place] == list[place]);
            }
        }
    }
}

/// The list of a query keeps what was selected: its aggregates, their filters, its aliases and
/// its expressions. The star stands alone and puts out every column; without aggregates the
/// columns that are read are those that are selected, beside aggregates each is a key.
pub proof fn law_lists_keep_what_is_selected(
    selected: Selected,
    items: int,
    keys: Seq<Seq<char>>,
    bindings: Seq<GroupBinding>,
)
    requires
        projected_from(selected, items, keys, bindings) is Ok,
    ensures
        ({
            let list = projected_from(selected, items, keys, bindings)->Ok_0;
            &&& list.aggregates == selected.aggregates
            &&& list.filtered_aggregates == selected.filtered
            &&& list.aliases == selected.aliases
            &&& list.qualified_wildcards == selected.qualifiers
            &&& (selected.wildcard ==> items == 1)
            &&& (!selected.wildcard ==> list.expressions == selected.expressions)
            &&& (selected.aggregates.len() == 0 ==> (selected.wildcard <==> list.projection is None)
                && (list.projection matches Some(columns) ==> columns == selected.columns)
                && list.aggregate_expressions == selected.inputs)
            &&& (selected.aggregates.len() > 0 ==> {
                &&& list.projection is Some
                &&& list.aggregate_expressions.len() == selected.inputs.len() + bindings.len()
                &&& forall|place: int|
                    0 <= place < selected.inputs.len() ==> #[trigger]
                        list.aggregate_expressions[place] == selected.inputs[place]
                &&& forall|place: int|
                    0 <= place < bindings.len() ==> list.aggregate_expressions[selected.inputs.len()
                        + place] == (#[trigger] bindings[place]).expression
            })
        }),
{
}

} // verus!
