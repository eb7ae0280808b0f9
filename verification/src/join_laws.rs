//! What the keys and the filters of a join come to, said over the condition.

use vstd::prelude::*;
use crate::ast::{SqlBinaryOperator, SqlExpr, SqlExprKind};
use crate::conjuncts::conjuncts_of;
use crate::joins::{
    comma_failure, comma_pairs, common_pairs, conjoins, disjuncts_of, firsts, in_every, key_pair,
    key_pairs, owned_conjuncts, pairs_in, residuals, right_filter_of, right_scope, seconds,
    splits_selection, with_subqueries, CommaJoin,
};
use crate::predicates::holds_subquery;
use crate::query_laws::{
    law_filter_keeps_fitting_rows, lemma_pair_sets_equal, lemma_pairs_are_set_equal, sets_equal,
    RowValues,
};
use crate::text::texts;

verus! {

/// Whether a condition holds, given which of its simple parts do.
pub open spec fn holds(expr: SqlExpr, truth: spec_fn(SqlExpr) -> bool) -> bool
    decreases expr,
{
    match expr.kind {
        SqlExprKind::Nested(inner) => holds(*inner, truth),
        SqlExprKind::BinaryOp { left, op, right } => match op {
            SqlBinaryOperator::And => holds(*left, truth) && holds(*right, truth),
            SqlBinaryOperator::Or => holds(*left, truth) || holds(*right, truth),
            _ => truth(expr),
        },
        _ => truth(expr),
    }
}

/// Whether all of some conditions hold.
pub open spec fn all_hold(parts: Seq<SqlExpr>, truth: spec_fn(SqlExpr) -> bool) -> bool {
    forall|place: int| 0 <= place < parts.len() ==> holds(#[trigger] parts[place], truth)
}

/// Whether all of some conditions hold, which are given by reference.
pub open spec fn all_refs_hold(parts: Seq<&SqlExpr>, truth: spec_fn(SqlExpr) -> bool) -> bool {
    forall|place: int| 0 <= place < parts.len() ==> holds(*#[trigger] parts[place], truth)
}

proof fn lemma_all_hold_split(
    first: Seq<SqlExpr>,
    second: Seq<SqlExpr>,
    truth: spec_fn(SqlExpr) -> bool,
)
    ensures
        all_hold(first + second, truth) <==> all_hold(first, truth) && all_hold(second, truth),
{
    let both = first + second;
    if all_hold(both, truth) {
        assert forall|place: int| 0 <= place < first.len() implies holds(
            #[trigger] first[place],
            truth,
        ) by {
            assert(both[place] == first[place]);
        }
        assert forall|place: int| 0 <= place < second.len() implies holds(
            #[trigger] second[place],
            truth,
        ) by {
            assert(both[first.len() + place] == second[place]);
        }
    }
    if all_hold(first, truth) && all_hold(second, truth) {
        assert forall|place: int| 0 <= place < both.len() implies holds(
            #[trigger] both[place],
            truth,
        ) by {
            if place < first.len() {
                assert(both[place] == first[place]);
            } else {
                assert(both[place] == second[place - first.len()]);
            }
        }
    }
}

proof fn lemma_all_refs_hold_split(
    first: Seq<&SqlExpr>,
    second: Seq<&SqlExpr>,
    truth: spec_fn(SqlExpr) -> bool,
)
    ensures
        all_refs_hold(first + second, truth) <==> all_refs_hold(first, truth) && all_refs_hold(
            second,
            truth,
        ),
{
    let both = first + second;
    if all_refs_hold(both, truth) {
        assert forall|place: int| 0 <= place < first.len() implies holds(
            *#[trigger] first[place],
            truth,
        ) by {
            assert(both[place] == first[place]);
        }
        assert forall|place: int| 0 <= place < second.len() implies holds(
            *#[trigger] second[place],
            truth,
        ) by {
            assert(both[first.len() + place] == second[place]);
        }
    }
    if all_refs_hold(first, truth) && all_refs_hold(second, truth) {
        assert forall|place: int| 0 <= place < both.len() implies holds(
            *#[trigger] both[place],
            truth,
        ) by {
            if place < first.len() {
                assert(both[place] == first[place]);
            } else {
                assert(both[place] == second[place - first.len()]);
            }
        }
    }
}

/// A condition holds exactly where each of its conjuncts does.
pub proof fn law_conjuncts_hold_together(expr: SqlExpr, truth: spec_fn(SqlExpr) -> bool)
    ensures
        holds(expr, truth) <==> all_hold(owned_conjuncts(expr), truth),
        holds(expr, truth) <==> all_refs_hold(conjuncts_of(&expr), truth),
    decreases expr,
{
    match expr.kind {
        SqlExprKind::BinaryOp { left, op, right } => {
            if op == SqlBinaryOperator::And {
                law_conjuncts_hold_together(*left, truth);
                law_conjuncts_hold_together(*right, truth);
                lemma_all_hold_split(owned_conjuncts(*left), owned_conjuncts(*right), truth);
                lemma_all_refs_hold_split(conjuncts_of(&*left), conjuncts_of(&*right), truth);
            } else {
                assert(owned_conjuncts(expr)[0] == expr);
                assert(*conjuncts_of(&expr)[0] == expr);
            }
        },
        SqlExprKind::Nested(inner) => {
            law_conjuncts_hold_together(*inner, truth);
        },
        _ => {
            assert(owned_conjuncts(expr)[0] == expr);
            assert(*conjuncts_of(&expr)[0] == expr);
        },
    }
}

/// Where a condition holds, one of its disjuncts does, here that at `place`.
pub proof fn law_a_disjunct_holds(expr: SqlExpr, truth: spec_fn(SqlExpr) -> bool) -> (place: int)
    ensures
        holds(expr, truth) ==> 0 <= place < disjuncts_of(&expr).len() && holds(
            *disjuncts_of(&expr)[place],
            truth,
        ),
    decreases expr,
{
    match expr.kind {
        SqlExprKind::BinaryOp { left, op, right } => {
            if op == SqlBinaryOperator::Or {
                let first = disjuncts_of(&*left);
                let second = disjuncts_of(&*right);
                let all = disjuncts_of(&expr);
                let on_left = law_a_disjunct_holds(*left, truth);
                let on_right = law_a_disjunct_holds(*right, truth);
                if holds(*left, truth) {
                    assert(all[on_left] == first[on_left]);
                    on_left
                } else {
                    if holds(*right, truth) {
                        assert(all[first.len() + on_right] == second[on_right]);
                    }
                    first.len() + on_right
                }
            } else {
                assert(*disjuncts_of(&expr)[0] == expr);
                0
            }
        },
        SqlExprKind::Nested(inner) => law_a_disjunct_holds(*inner, truth),
        _ => {
            assert(*disjuncts_of(&expr)[0] == expr);
            0
        },
    }
}

/// Where one of its disjuncts holds, a condition does.
pub proof fn law_a_disjunct_suffices(expr: SqlExpr, truth: spec_fn(SqlExpr) -> bool, place: int)
    requires
        0 <= place < disjuncts_of(&expr).len(),
        holds(*disjuncts_of(&expr)[place], truth),
    ensures
        holds(expr, truth),
    decreases expr,
{
    match expr.kind {
        SqlExprKind::BinaryOp { left, op, right } => {
            if op == SqlBinaryOperator::Or {
                let first = disjuncts_of(&*left);
                let second = disjuncts_of(&*right);
                let all = disjuncts_of(&expr);
                if place < first.len() {
                    assert(all[place] == first[place]);
                    law_a_disjunct_suffices(*left, truth, place);
                } else {
                    assert(all[place] == second[place - first.len()]);
                    law_a_disjunct_suffices(*right, truth, place - first.len());
                }
            } else {
                assert(*disjuncts_of(&expr)[0] == expr);
            }
        },
        SqlExprKind::Nested(inner) => {
            law_a_disjunct_suffices(*inner, truth, place);
        },
        _ => {
            assert(*disjuncts_of(&expr)[0] == expr);
        },
    }
}

/// The conjunction of conditions holds exactly where each of them does; that of none always
/// does.
pub proof fn law_conjunction_holds(
    expr: Option<SqlExpr>,
    parts: Seq<SqlExpr>,
    truth: spec_fn(SqlExpr) -> bool,
)
    requires
        conjoins(expr, parts),
    ensures
        all_hold(parts, truth) <==> (expr matches Some(expr) ==> holds(expr, truth)),
    decreases parts.len(),
{
    if let Some(whole) = expr {
        if parts.len() == 1 {
            assert(parts[0] == parts.last());
        } else {
            let shorter = parts.drop_last();
            match whole.kind {
                SqlExprKind::BinaryOp { left, op, right } => {
                    law_conjunction_holds(Some(*left), shorter, truth);
                    assert(parts =~= shorter + seq![parts.last()]);
                    lemma_all_hold_split(shorter, seq![parts.last()], truth);
                    assert(all_hold(seq![parts.last()], truth) <==> holds(parts.last(), truth))
                    by {
                        assert(seq![parts.last()][0] == parts.last());
                    }
                },
                _ => {},
            }
        }
    }
}

/// Whether two columns are the keys of a join at some place.
pub open spec fn is_key_of(join: CommaJoin, left: Seq<char>, right: Seq<char>) -> bool {
    exists|place: int|
        0 <= place < join.left_keys@.len() && place < join.right_keys@.len() && (
        #[trigger] join.left_keys@[place])@ == left && join.right_keys@[place]@ == right
}

proof fn lemma_key_pairs_are_set_equal(
    conjuncts: Seq<SqlExpr>,
    left: Seq<char>,
    right: Seq<char>,
    place: int,
) -> (index: int)
    requires
        0 <= place < key_pairs(conjuncts, left, right).len(),
    ensures
        0 <= index < conjuncts.len(),
        key_pair(conjuncts[index], left, right) == Some(key_pairs(conjuncts, left, right)[place]),
    decreases conjuncts.len(),
{
    let shorter = conjuncts.drop_last();
    if place < key_pairs(shorter, left, right).len() {
        let index = lemma_key_pairs_are_set_equal(shorter, left, right, place);
        assert(shorter[index] == conjuncts[index]);
        index
    } else {
        conjuncts.len() - 1
    }
}

/// Whether the pair that a conjunct sets equal is among some pairs, or the conjunct is among
/// those that are left.
pub open spec fn is_pair_or_left(
    conjunct: SqlExpr,
    pairs: Seq<(Seq<char>, Seq<char>)>,
    rest: Seq<SqlExpr>,
    left: Seq<char>,
    right: Seq<char>,
) -> bool {
    match key_pair(conjunct, left, right) {
        Some(pair) => pairs.contains(pair),
        None => rest.contains(conjunct),
    }
}

proof fn lemma_pairs_and_rest(conjuncts: Seq<SqlExpr>, left: Seq<char>, right: Seq<char>)
    ensures
        forall|place: int|
            0 <= place < conjuncts.len() ==> is_pair_or_left(
                #[trigger] conjuncts[place],
                key_pairs(conjuncts, left, right),
                residuals(conjuncts, left, right),
                left,
                right,
            ),
        forall|place: int|
            0 <= place < residuals(conjuncts, left, right).len() ==> conjuncts.contains(
                #[trigger] residuals(conjuncts, left, right)[place],
            ),
    decreases conjuncts.len(),
{
    if conjuncts.len() > 0 {
        let shorter = conjuncts.drop_last();
        let last = conjuncts.last();
        lemma_pairs_and_rest(shorter, left, right);
        let pairs = key_pairs(conjuncts, left, right);
        let rest = residuals(conjuncts, left, right);
        let before = key_pairs(shorter, left, right);
        let kept = residuals(shorter, left, right);
        assert forall|place: int| 0 <= place < conjuncts.len() implies is_pair_or_left(
            #[trigger] conjuncts[place],
            pairs,
            rest,
            left,
            right,
        ) by {
            if place < shorter.len() {
                let conjunct = shorter[place];
                assert(conjunct == conjuncts[place]);
                assert(is_pair_or_left(conjunct, before, kept, left, right));
                match key_pair(conjunct, left, right) {
                    Some(pair) => {
                        let at = choose|at: int| 0 <= at < before.len() && before[at] == pair;
                        assert(pairs[at] == pair);
                    },
                    None => {
                        let at = choose|at: int| 0 <= at < kept.len() && kept[at] == conjunct;
                        assert(rest[at] == conjunct);
                    },
                }
            } else {
                match key_pair(last, left, right) {
                    Some(pair) => {
                        assert(pairs[before.len() as int] == pair);
                    },
                    None => {
                        assert(rest[kept.len() as int] == last);
                    },
                }
            }
        }
        assert forall|place: int| 0 <= place < rest.len() implies conjuncts.contains(
            #[trigger] rest[place],
        ) by {
            if place < kept.len() {
                assert(rest[place] == kept[place]);
                assert(shorter.contains(kept[place]));
                let at = choose|at: int| 0 <= at < shorter.len() && shorter[at] == kept[place];
                assert(conjuncts[at] == kept[place]);
            } else {
                assert(conjuncts[conjuncts.len() - 1] == last);
            }
        }
    }
}

proof fn lemma_common_in_every(
    pairs: Seq<(Seq<char>, Seq<char>)>,
    disjuncts: Seq<&SqlExpr>,
    left: Seq<char>,
    right: Seq<char>,
)
    ensures
        forall|place: int|
            0 <= place < common_pairs(pairs, disjuncts, left, right).len() ==> in_every(
                #[trigger] common_pairs(pairs, disjuncts, left, right)[place],
                disjuncts,
                left,
                right,
            ),
    decreases pairs.len(),
{
    if pairs.len() > 0 {
        let shorter = pairs.drop_last();
        lemma_common_in_every(shorter, disjuncts, left, right);
        let before = common_pairs(shorter, disjuncts, left, right);
        let common = common_pairs(pairs, disjuncts, left, right);
        assert forall|place: int| 0 <= place < common.len() implies in_every(
            #[trigger] common[place],
            disjuncts,
            left,
            right,
        ) by {
            if place < before.len() {
                assert(before[place] == common[place]);
            }
        }
    }
}

/// Whether an equality of columns holds exactly where `equal` says that they are.
pub open spec fn tells_equality(
    truth: spec_fn(SqlExpr) -> bool,
    equal: spec_fn(Seq<char>, Seq<char>) -> bool,
    left: Seq<char>,
    right: Seq<char>,
) -> bool {
    forall|conjunct: SqlExpr, first: Seq<char>, second: Seq<char>| #[trigger]
        sets_equal(conjunct, first, second, left, right) ==> (truth(conjunct) <==> equal(
            first,
            second,
        ))
}

/// Whether all the keys of a join are equal.
pub open spec fn keys_equal(
    join: CommaJoin,
    equal: spec_fn(Seq<char>, Seq<char>) -> bool,
) -> bool {
    forall|place: int|
        0 <= place < join.left_keys@.len() ==> equal(
            (#[trigger] join.left_keys@[place])@,
            join.right_keys@[place]@,
        )
}

/// Joining two tables by the keys found in a filter, and applying what is left of the filter,
/// keeps exactly the pairs of rows in which the filter holds.
pub proof fn law_comma_join_keeps_the_filter(
    join: CommaJoin,
    selection: SqlExpr,
    left: Seq<char>,
    right: Seq<char>,
    truth: spec_fn(SqlExpr) -> bool,
    equal: spec_fn(Seq<char>, Seq<char>) -> bool,
)
    requires
        comma_failure(Some(selection), left, right) is None,
        splits_selection(join, selection, left, right),
        tells_equality(truth, equal, left, right),
    ensures
        join.left_keys@.len() == join.right_keys@.len(),
        join.left_keys@.len() > 0,
        holds(selection, truth) <==> keys_equal(join, equal) && (join.residual matches Some(rest)
            ==> holds(rest, truth)),
{
    let conjuncts = owned_conjuncts(selection);
    let rest = residuals(conjuncts, left, right);
    let found = key_pairs(conjuncts, left, right);
    let pairs = comma_pairs(selection, left, right);
    law_conjuncts_hold_together(selection, truth);
    law_conjunction_holds(join.residual, rest, truth);
    lemma_pairs_and_rest(conjuncts, left, right);
    assert(texts(join.left_keys@).len() == join.left_keys@.len());
    assert(texts(join.right_keys@).len() == join.right_keys@.len());
    assert forall|place: int| 0 <= place < pairs.len() implies (
    #[trigger] join.left_keys@[place])@ == pairs[place].0 && join.right_keys@[place]@
        == pairs[place].1 by {
        assert(texts(join.left_keys@)[place] == firsts(pairs)[place]);
        assert(texts(join.right_keys@)[place] == seconds(pairs)[place]);
    }
    if holds(selection, truth) {
        assert(all_hold(rest, truth)) by {
            assert forall|place: int| 0 <= place < rest.len() implies holds(
                #[trigger] rest[place],
                truth,
            ) by {
                assert(conjuncts.contains(rest[place]));
                let at = choose|at: int| 0 <= at < conjuncts.len() && conjuncts[at] == rest[place];
                assert(holds(conjuncts[at], truth));
            }
        }
        assert(keys_equal(join, equal)) by {
            assert forall|place: int| 0 <= place < join.left_keys@.len() implies equal(
                (#[trigger] join.left_keys@[place])@,
                join.right_keys@[place]@,
            ) by {
                if found.len() > 0 {
                    let index = lemma_key_pairs_are_set_equal(conjuncts, left, right, place);
                    let conjunct = conjuncts[index];
                    lemma_pair_sets_equal(conjunct, left, right);
                    assert(sets_equal(conjunct, pairs[place].0, pairs[place].1, left, right));
                    assert(holds(conjunct, truth));
                } else {
                    let disjuncts = disjuncts_of(&selection);
                    let at = law_a_disjunct_holds(selection, truth);
                    let first = pairs_in(*disjuncts[0], left, right);
                    lemma_common_in_every(first, disjuncts, left, right);
                    assert(in_every(pairs[place], disjuncts, left, right));
                    let parts = conjuncts_of(disjuncts[at]);
                    let set = pairs_in(*disjuncts[at], left, right);
                    assert(set.contains(pairs[place]));
                    let spot = choose|spot: int| 0 <= spot < set.len() && set[spot]
                        == pairs[place];
                    let index = lemma_pairs_are_set_equal(parts, left, right, spot);
                    law_conjuncts_hold_together(*disjuncts[at], truth);
                    assert(holds(*parts[index], truth));
                    assert(sets_equal(*parts[index], pairs[place].0, pairs[place].1, left, right));
                }
            }
        }
    }
    if keys_equal(join, equal) && all_hold(rest, truth) {
        assert forall|place: int| 0 <= place < conjuncts.len() implies holds(
            #[trigger] conjuncts[place],
            truth,
        ) by {
            let conjunct = conjuncts[place];
            assert(is_pair_or_left(conjunct, found, rest, left, right));
            match key_pair(conjunct, left, right) {
                Some(pair) => {
                    let at = choose|at: int| 0 <= at < found.len() && found[at] == pair;
                    lemma_pair_sets_equal(conjunct, left, right);
                    assert(equal(join.left_keys@[at]@, join.right_keys@[at]@));
                    assert(sets_equal(conjunct, pair.0, pair.1, left, right));
                },
                None => {
                    let at = choose|at: int| 0 <= at < rest.len() && rest[at] == conjunct;
                    assert(holds(rest[at], truth));
                },
            }
        }
    }
}

/// The filter of the right table of a join keeps exactly the rows of it in which every part of
/// the condition that sets no keys equal holds.
pub proof fn law_right_filter_keeps_fitting_rows(
    parts: Seq<SqlExpr>,
    right: Seq<char>,
    row: RowValues,
)
    requires
        right_filter_of(parts, right) is Ok,
    ensures
        right_filter_of(parts, right)->Ok_0 is None <==> parts.len() == 0,
        (right_filter_of(parts, right)->Ok_0 matches Some(filter) ==> row.kept_by(filter))
            <==> forall|place: int|
            0 <= place < parts.len() ==> row.fits(#[trigger] parts[place], right_scope(right)),
    decreases parts.len(),
{
    if parts.len() > 0 {
        let shorter = parts.drop_last();
        let names = right_scope(right);
        law_right_filter_keeps_fitting_rows(shorter, right, row);
        law_filter_keeps_fitting_rows(parts.last(), names, row);
        assert((forall|place: int|
            0 <= place < parts.len() ==> row.fits(#[trigger] parts[place], names)) <==> (forall|
            place: int,
        |
            0 <= place < shorter.len() ==> row.fits(#[trigger] shorter[place], names)) && row.fits(
            parts.last(),
            names,
        )) by {
            assert forall|place: int| 0 <= place < shorter.len() implies #[trigger] parts[place]
                == shorter[place] by {}
            assert forall|place: int| 0 <= place < shorter.len() implies #[trigger] shorter[place]
                == parts[place] by {}
            assert(parts[parts.len() - 1] == parts.last());
        }
    }
}

/// A filter is split by its conjuncts: what is left without subqueries and what holds them
/// together come to the whole.
pub proof fn law_subqueries_split_off(
    residual: SqlExpr,
    plain: Option<SqlExpr>,
    nested: Option<SqlExpr>,
    truth: spec_fn(SqlExpr) -> bool,
)
    requires
        conjoins(plain, with_subqueries(owned_conjuncts(residual), false)),
        conjoins(nested, with_subqueries(owned_conjuncts(residual), true)),
    ensures
        holds(residual, truth) <==> (plain matches Some(plain) ==> holds(plain, truth)) && (
        nested matches Some(nested) ==> holds(nested, truth)),
        forall|place: int|
            0 <= place < with_subqueries(owned_conjuncts(residual), false).len()
                ==> !holds_subquery(
                #[trigger] with_subqueries(owned_conjuncts(residual), false)[place],
                false,
            ),
        forall|place: int|
            0 <= place < with_subqueries(owned_conjuncts(residual), true).len() ==> holds_subquery(
                #[trigger] with_subqueries(owned_conjuncts(residual), true)[place],
                false,
            ),
{
    let conjuncts = owned_conjuncts(residual);
    law_conjuncts_hold_together(residual, truth);
    law_conjunction_holds(plain, with_subqueries(conjuncts, false), truth);
    law_conjunction_holds(nested, with_subqueries(conjuncts, true), truth);
    lemma_split_by_subqueries(conjuncts, truth);
}

proof fn lemma_split_by_subqueries(conjuncts: Seq<SqlExpr>, truth: spec_fn(SqlExpr) -> bool)
    ensures
        all_hold(conjuncts, truth) <==> all_hold(with_subqueries(conjuncts, false), truth)
            && all_hold(with_subqueries(conjuncts, true), truth),
        forall|place: int|
            0 <= place < with_subqueries(conjuncts, false).len() ==> !holds_subquery(
                #[trigger] with_subqueries(conjuncts, false)[place],
                false,
            ),
        forall|place: int|
            0 <= place < with_subqueries(conjuncts, true).len() ==> holds_subquery(
                #[trigger] with_subqueries(conjuncts, true)[place],
                false,
            ),
    decreases conjuncts.len(),
{
    if conjuncts.len() > 0 {
        let shorter = conjuncts.drop_last();
        let last = seq![conjuncts.last()];
        lemma_split_by_subqueries(shorter, truth);
        assert(conjuncts =~= shorter + last);
        lemma_all_hold_split(shorter, last, truth);
        assert(last[0] == conjuncts.last());
        let holding = holds_subquery(conjuncts.last(), false);
        let grown = with_subqueries(shorter, holding);
        assert(with_subqueries(conjuncts, holding) =~= grown + last);
        lemma_all_hold_split(grown, last, truth);
        let longer = with_subqueries(conjuncts, holding);
        assert forall|place: int| 0 <= place < longer.len() implies holds_subquery(
            #[trigger] longer[place],
            false,
        ) == holding by {
            if place < grown.len() {
                assert(longer[place] == grown[place]);
            }
        }
        let other = with_subqueries(conjuncts, !holding);
        assert(other == with_subqueries(shorter, !holding));
        assert forall|place: int| 0 <= place < other.len() implies holds_subquery(
            #[trigger] other[place],
            false,
        ) == !holding by {
            assert(with_subqueries(shorter, !holding)[place] == other[place]);
        }
    }
}

} // verus!
