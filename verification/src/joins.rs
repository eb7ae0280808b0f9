//! Joins of two tables.

use vstd::prelude::*;
use crate::ast::{JoinKind, JoinOn, JoinedTable, SqlBinaryOperator, SqlExpr, SqlExprKind};
use crate::conjuncts::{collect_sql_and_conjuncts, conjuncts_of};
use crate::error::{fails_with, Failure, SqlError, SqlResult};
use crate::filter_parser::{filter_of, parse_filter, FilterNames, FilterScope};
use crate::filters::{Filter, FilterExpr};
use crate::names::{alias_with_prefix, column_prefix, slice_texts, Scope, Tables};
use crate::predicates::{expr_contains_materializable_subquery, holds_subquery};
use crate::projection_parser::pair_texts;
use crate::text::{joined, str_eq, string_copy, texts};

verus! {

/// How the rows of two tables are joined.
#[derive(Clone, Copy, Debug, PartialEq, Eq, Structural)]
pub enum JoinType {
    Inner,
    Left,
    Semi,
}

/// A column of one of two tables.
pub enum Side {
    Left(Seq<char>),
    Right(Seq<char>),
}

/// The column of one of two tables that an expression is: by the table it is qualified
/// with, else by the prefix of its name.
pub open spec fn side_of(expr: SqlExpr, left: Seq<char>, right: Seq<char>) -> Option<Side> {
    match expr.kind {
        SqlExprKind::Identifier(name) => match column_prefix(name@) {
            Some(prefix) => match alias_with_prefix(prefix, seq![left, right]) {
                Some(alias) => if alias == left {
                    Some(Side::Left(name@))
                } else {
                    Some(Side::Right(name@))
                },
                None => None,
            },
            None => None,
        },
        SqlExprKind::CompoundIdentifier(names) => if names@.len() != 2 {
            None
        } else if names@[0]@ == left {
            Some(Side::Left(names@[1]@))
        } else if names@[0]@ == right {
            Some(Side::Right(names@[1]@))
        } else {
            None
        },
        SqlExprKind::Nested(inner) => None,
        _ => None,
    }
}

/// The columns of the two tables that a conjunct sets equal, that of the left table
/// first.
pub open spec fn key_pair(conjunct: SqlExpr, left: Seq<char>, right: Seq<char>) -> Option<
    (Seq<char>, Seq<char>),
> {
    match conjunct.kind {
        SqlExprKind::BinaryOp { left: first, op, right: second } => if op
            != SqlBinaryOperator::Eq {
            None
        } else {
            match (side_of(*first, left, right), side_of(*second, left, right)) {
                (Some(Side::Left(left_key)), Some(Side::Right(right_key))) => Some(
                    (left_key, right_key),
                ),
                (Some(Side::Right(right_key)), Some(Side::Left(left_key))) => Some(
                    (left_key, right_key),
                ),
                _ => None,
            }
        },
        _ => None,
    }
}

/// A column of one of two tables, and whether that is the left one.
fn read_side(expr: &SqlExpr, left: &str, right: &str) -> (side: Option<(bool, String)>)
    ensures
        match side_of(*expr, left@, right@) {
            Some(Side::Left(column)) => side matches Some((is_left, found)) && is_left && found@
                == column,
            Some(Side::Right(column)) => side matches Some((is_left, found)) && !is_left && found@
                == column,
            None => side is None,
        },
{
    match &expr.kind {
        SqlExprKind::Identifier(name) => {
            let aliases: [&str; 2] = [left, right];
            match crate::names::alias_by_prefix(name.as_str(), aliases.as_slice()) {
                Some(alias) => {
                    assert(slice_texts(aliases@) =~= seq![left@, right@]);
                    Some((str_eq(alias, left), string_copy(name)))
                },
                None => {
                    assert(slice_texts(aliases@) =~= seq![left@, right@]);
                    None
                },
            }
        },
        SqlExprKind::CompoundIdentifier(names) => {
            if names.len() != 2 {
                None
            } else if str_eq(names[0].as_str(), left) {
                Some((true, string_copy(&names[1])))
            } else if str_eq(names[0].as_str(), right) {
                Some((false, string_copy(&names[1])))
            } else {
                None
            }
        },
        _ => None,
    }
}

/// The columns of the two tables that a conjunct sets equal.
pub fn comma_join_equality_keys(conjunct: &SqlExpr, left: &str, right: &str) -> (keys: Option<
    (String, String),
>)
    ensures
        match key_pair(*conjunct, left@, right@) {
            Some((left_key, right_key)) => keys matches Some((first, second)) && first@ == left_key
                && second@ == right_key,
            None => keys is None,
        },
{
    match &conjunct.kind {
        SqlExprKind::BinaryOp { left: first, op, right: second } => {
            if *op != SqlBinaryOperator::Eq {
                return None;
            }
            match (read_side(first, left, right), read_side(second, left, right)) {
                (Some((true, left_key)), Some((false, right_key))) => Some((left_key, right_key)),
                (Some((false, right_key)), Some((true, left_key))) => Some((left_key, right_key)),
                _ => None,
            }
        },
        _ => None,
    }
}

/// The pairs of columns that conjuncts set equal.
pub open spec fn key_pairs(conjuncts: Seq<SqlExpr>, left: Seq<char>, right: Seq<char>) -> Seq<
    (Seq<char>, Seq<char>),
>
    decreases conjuncts.len(),
{
    if conjuncts.len() == 0 {
        Seq::empty()
    } else {
        match key_pair(conjuncts.last(), left, right) {
            Some(pair) => key_pairs(conjuncts.drop_last(), left, right).push(pair),
            None => key_pairs(conjuncts.drop_last(), left, right),
        }
    }
}

/// The conjuncts that set no pair of columns equal.
pub open spec fn residuals(
    conjuncts: Seq<SqlExpr>,
    left: Seq<char>,
    right: Seq<char>,
) -> Seq<SqlExpr>
    decreases conjuncts.len(),
{
    if conjuncts.len() == 0 {
        Seq::empty()
    } else {
        match key_pair(conjuncts.last(), left, right) {
            Some(_) => residuals(conjuncts.drop_last(), left, right),
            None => residuals(conjuncts.drop_last(), left, right).push(conjuncts.last()),
        }
    }
}

/// The conjuncts of a filter.
pub open spec fn owned_conjuncts(expr: SqlExpr) -> Seq<SqlExpr>
    decreases expr,
{
    match expr.kind {
        SqlExprKind::BinaryOp { left, op, right } => if op == SqlBinaryOperator::And {
            owned_conjuncts(*left) + owned_conjuncts(*right)
        } else {
            seq![expr]
        },
        SqlExprKind::Nested(inner) => owned_conjuncts(*inner),
        _ => seq![expr],
    }
}

/// The conjuncts of a filter.
pub fn into_conjuncts(expr: SqlExpr) -> (conjuncts: Vec<SqlExpr>)
    ensures
        conjuncts@ == owned_conjuncts(expr),
    decreases expr,
{
    let ghost whole = expr;
    let SqlExpr { text, kind } = expr;
    match kind {
        SqlExprKind::BinaryOp { left, op, right } => {
            if op == SqlBinaryOperator::And {
                let mut conjuncts = into_conjuncts(*left);
                let mut more = into_conjuncts(*right);
                conjuncts.append(&mut more);
                return conjuncts;
            }
            let conjunct = SqlExpr { text, kind: SqlExprKind::BinaryOp { left, op, right } };
            let conjuncts: Vec<SqlExpr> = vec![conjunct];
            assert(conjuncts@ =~= seq![whole]);
            conjuncts
        },
        SqlExprKind::Nested(inner) => into_conjuncts(*inner),
        kind => {
            let conjuncts: Vec<SqlExpr> = vec![SqlExpr { text, kind }];
            assert(conjuncts@ =~= seq![whole]);
            conjuncts
        },
    }
}

/// Whether a filter is the conjunction of the given ones, first to last.
pub open spec fn is_conjunction(expr: SqlExpr, parts: Seq<SqlExpr>) -> bool
    decreases parts.len(),
{
    if parts.len() == 0 {
        false
    } else if parts.len() == 1 {
        expr == parts[0]
    } else {
        match expr.kind {
            SqlExprKind::BinaryOp { left, op, right } => op == SqlBinaryOperator::And && *right
                == parts.last() && expr.text@ == left.text@ + " AND "@ + right.text@
                && is_conjunction(*left, parts.drop_last()),
            _ => false,
        }
    }
}

/// Whether an optional filter is the conjunction of the given ones, none for none.
pub open spec fn conjoins(expr: Option<SqlExpr>, parts: Seq<SqlExpr>) -> bool {
    match expr {
        Some(expr) => is_conjunction(expr, parts),
        None => parts.len() == 0,
    }
}

/// The conjunction of filters, none for none.
pub fn combine_sql_and_conjuncts(parts: Vec<SqlExpr>) -> (expr: Option<SqlExpr>)
    ensures
        conjoins(expr, parts@),
{
    let ghost all = parts@;
    let mut combined: Option<SqlExpr> = None;
    for part in rest: parts
        invariant
            rest.seq() == all,
            conjoins(combined, all.take(rest.index())),
    {
        let ghost index = rest.index();
        proof {
            assert(part == all[index]);
            assert(all.take(index + 1).drop_last() =~= all.take(index));
            assert(all.take(index + 1).last() == part);
        }
        combined = match combined {
            None => Some(part),
            Some(left) => {
                let head = joined(left.text.as_str(), " AND ");
                let text = joined(head.as_str(), part.text.as_str());
                Some(
                    SqlExpr {
                        text,
                        kind: SqlExprKind::BinaryOp {
                            left: Box::new(left),
                            op: SqlBinaryOperator::And,
                            right: Box::new(part),
                        },
                    },
                )
            },
        };
    }
    assert(all.take(all.len() as int) =~= all);
    combined
}

/// Whether a filter is a single conjunct.
pub open spec fn is_single(expr: SqlExpr) -> bool {
    owned_conjuncts(expr) == seq![expr]
}

/// Single conjuncts come back from their conjunction, in their order.
pub proof fn law_conjunction_comes_apart(expr: SqlExpr, parts: Seq<SqlExpr>)
    requires
        is_conjunction(expr, parts),
        forall|index: int| 0 <= index < parts.len() ==> is_single(#[trigger] parts[index]),
    ensures
        owned_conjuncts(expr) =~= parts,
    decreases parts.len(),
{
    if parts.len() == 1 {
        assert(is_single(parts[0]));
    } else {
        match expr.kind {
            SqlExprKind::BinaryOp { left, op, right } => {
                let shorter = parts.drop_last();
                assert forall|index: int| 0 <= index < shorter.len() implies is_single(
                    #[trigger] shorter[index],
                ) by {
                    assert(is_single(parts[index]));
                }
                law_conjunction_comes_apart(*left, shorter);
                assert(is_single(parts[parts.len() - 1]));
                assert(parts =~= shorter + seq![parts.last()]);
            },
            _ => {},
        }
    }
}

proof fn lemma_single(expr: SqlExpr)
    requires
        owned_conjuncts(expr) == seq![expr],
    ensures
        forall|index: int|
            0 <= index < owned_conjuncts(expr).len() ==> is_single(
                #[trigger] owned_conjuncts(expr)[index],
            ),
{
    assert forall|index: int| 0 <= index < owned_conjuncts(expr).len() implies is_single(
        #[trigger] owned_conjuncts(expr)[index],
    ) by {
        assert(owned_conjuncts(expr)[index] == expr);
    }
}

/// What a filter comes apart into is made of single conjuncts.
pub proof fn law_conjuncts_are_single(expr: SqlExpr)
    ensures
        forall|index: int|
            0 <= index < owned_conjuncts(expr).len() ==> is_single(
                #[trigger] owned_conjuncts(expr)[index],
            ),
    decreases expr,
{
    match expr.kind {
        SqlExprKind::BinaryOp { left, op, right } => {
            if op == SqlBinaryOperator::And {
                law_conjuncts_are_single(*left);
                law_conjuncts_are_single(*right);
                assert forall|index: int| 0 <= index < owned_conjuncts(expr).len() implies is_single(
                    #[trigger] owned_conjuncts(expr)[index],
                ) by {
                    let count = owned_conjuncts(*left).len();
                    if index < count {
                        assert(owned_conjuncts(expr)[index] == owned_conjuncts(*left)[index]);
                    } else {
                        assert(owned_conjuncts(expr)[index] == owned_conjuncts(*right)[index
                            - count]);
                    }
                }
            } else {
                lemma_single(expr);
            }
        },
        SqlExprKind::Nested(inner) => {
            law_conjuncts_are_single(*inner);
            let conjuncts = owned_conjuncts(*inner);
            assert(owned_conjuncts(expr) == conjuncts);
            assert forall|index: int| 0 <= index < owned_conjuncts(expr).len() implies is_single(
                #[trigger] owned_conjuncts(expr)[index],
            ) by {
                assert(is_single(conjuncts[index]));
            }
        },
        _ => {
            lemma_single(expr);
        },
    }
}

/// The disjuncts of a filter.
pub open spec fn disjuncts_of<'a>(expr: &'a SqlExpr) -> Seq<&'a SqlExpr>
    decreases *expr,
{
    match &expr.kind {
        SqlExprKind::BinaryOp { left, op, right } => if *op == SqlBinaryOperator::Or {
            disjuncts_of(&**left) + disjuncts_of(&**right)
        } else {
            seq![expr]
        },
        SqlExprKind::Nested(inner) => disjuncts_of(&**inner),
        _ => seq![expr],
    }
}

/// The disjuncts of a filter.
fn collect_disjuncts<'a>(expr: &'a SqlExpr) -> (disjuncts: Vec<&'a SqlExpr>)
    ensures
        disjuncts@ == disjuncts_of(expr),
    decreases *expr,
{
    match &expr.kind {
        SqlExprKind::BinaryOp { left, op, right } => {
            if *op == SqlBinaryOperator::Or {
                let mut disjuncts = collect_disjuncts(left);
                let mut more = collect_disjuncts(right);
                disjuncts.append(&mut more);
                return disjuncts;
            }
        },
        SqlExprKind::Nested(inner) => {
            return collect_disjuncts(inner);
        },
        _ => {},
    }
    let disjuncts: Vec<&'a SqlExpr> = vec![expr];
    assert(disjuncts@ =~= seq![expr]);
    disjuncts
}

/// The pairs of columns that a filter sets equal, conjunct by conjunct.
pub open spec fn pairs_in(expr: SqlExpr, left: Seq<char>, right: Seq<char>) -> Seq<
    (Seq<char>, Seq<char>),
> {
    ref_pairs(conjuncts_of(&expr), left, right)
}

/// The pairs of columns that conjuncts set equal.
pub open spec fn ref_pairs(conjuncts: Seq<&SqlExpr>, left: Seq<char>, right: Seq<char>) -> Seq<
    (Seq<char>, Seq<char>),
>
    decreases conjuncts.len(),
{
    if conjuncts.len() == 0 {
        Seq::empty()
    } else {
        match key_pair(*conjuncts.last(), left, right) {
            Some(pair) => ref_pairs(conjuncts.drop_last(), left, right).push(pair),
            None => ref_pairs(conjuncts.drop_last(), left, right),
        }
    }
}

/// The pairs of columns that a filter sets equal.
fn read_pairs(expr: &SqlExpr, left: &str, right: &str) -> (pairs: Vec<(String, String)>)
    ensures
        pair_texts(pairs@) == pairs_in(*expr, left@, right@),
{
    let conjuncts = collect_sql_and_conjuncts(expr);
    let mut pairs: Vec<(String, String)> = Vec::new();
    let mut index: usize = 0;
    proof {
        assert(conjuncts@.take(0) =~= Seq::empty());
        assert(pair_texts(pairs@) =~= Seq::empty());
    }
    while index < conjuncts.len()
        invariant
            index <= conjuncts@.len(),
            pair_texts(pairs@) == ref_pairs(conjuncts@.take(index as int), left@, right@),
        decreases conjuncts@.len() - index,
    {
        proof {
            assert(conjuncts@.take(index + 1).drop_last() =~= conjuncts@.take(index as int));
            assert(conjuncts@.take(index + 1).last() == conjuncts@[index as int]);
        }
        match comma_join_equality_keys(conjuncts[index], left, right) {
            Some(pair) => {
                let ghost before = pairs@;
                pairs.push(pair);
                assert(pair_texts(pairs@) =~= pair_texts(before).push((pair.0@, pair.1@)));
            },
            None => {},
        }
        index += 1;
    }
    assert(conjuncts@.take(index as int) =~= conjuncts@);
    pairs
}

/// Whether a pair of columns is set equal by each of the disjuncts.
pub open spec fn in_every(
    pair: (Seq<char>, Seq<char>),
    disjuncts: Seq<&SqlExpr>,
    left: Seq<char>,
    right: Seq<char>,
) -> bool {
    forall|index: int|
        0 <= index < disjuncts.len() ==> pairs_in(
            *#[trigger] disjuncts[index],
            left,
            right,
        ).contains(
            pair,
        )
}

/// Those of the pairs that each of the disjuncts sets equal.
pub open spec fn common_pairs(
    pairs: Seq<(Seq<char>, Seq<char>)>,
    disjuncts: Seq<&SqlExpr>,
    left: Seq<char>,
    right: Seq<char>,
) -> Seq<(Seq<char>, Seq<char>)>
    decreases pairs.len(),
{
    if pairs.len() == 0 {
        Seq::empty()
    } else if in_every(pairs.last(), disjuncts, left, right) {
        common_pairs(pairs.drop_last(), disjuncts, left, right).push(pairs.last())
    } else {
        common_pairs(pairs.drop_last(), disjuncts, left, right)
    }
}

/// The pairs of columns that every disjunct of a filter sets equal, in the order of the
/// first.
pub open spec fn shared_pairs(expr: SqlExpr, left: Seq<char>, right: Seq<char>) -> Seq<
    (Seq<char>, Seq<char>),
> {
    let disjuncts = disjuncts_of(&expr);
    if disjuncts.len() < 2 {
        Seq::empty()
    } else {
        common_pairs(pairs_in(*disjuncts[0], left, right), disjuncts, left, right)
    }
}

/// Whether a pair is among others.
fn has_pair(pairs: &Vec<(String, String)>, pair: &(String, String)) -> (found: bool)
    ensures
        found == pair_texts(pairs@).contains((pair.0@, pair.1@)),
{
    let mut index: usize = 0;
    while index < pairs.len()
        invariant
            index <= pairs@.len(),
            forall|earlier: int|
                0 <= earlier < index ==> #[trigger] pair_texts(pairs@)[earlier] != (pair.0@, pair.1@),
        decreases pairs@.len() - index,
    {
        assert(pair_texts(pairs@)[index as int] == (
            pairs@[index as int].0@,
            pairs@[index as int].1@,
        ));
        if str_eq(pairs[index].0.as_str(), pair.0.as_str()) && str_eq(
            pairs[index].1.as_str(),
            pair.1.as_str(),
        ) {
            return true;
        }
        index += 1;
    }
    false
}

/// The pairs of columns that every disjunct of a filter sets equal.
pub fn common_or_comma_join_equality_keys(expr: &SqlExpr, left: &str, right: &str) -> (pairs: Vec<
    (String, String),
>)
    ensures
        pair_texts(pairs@) == shared_pairs(*expr, left@, right@),
{
    let disjuncts = collect_disjuncts(expr);
    let mut common: Vec<(String, String)> = Vec::new();
    if disjuncts.len() < 2 {
        assert(pair_texts(common@) =~= Seq::empty());
        return common;
    }
    let first = read_pairs(disjuncts[0], left, right);
    let ghost all = pair_texts(first@);
    let mut index: usize = 0;
    proof {
        assert(all.take(0) =~= Seq::empty());
        assert(pair_texts(common@) =~= Seq::empty());
    }
    while index < first.len()
        invariant
            index <= first@.len(),
            all == pair_texts(first@),
            disjuncts@ == disjuncts_of(expr),
            pair_texts(common@) == common_pairs(
                all.take(index as int),
                disjuncts@,
                left@,
                right@,
            ),
        decreases first@.len() - index,
    {
        let pair = (string_copy(&first[index].0), string_copy(&first[index].1));
        let ghost wanted = (pair.0@, pair.1@);
        proof {
            assert(all.take(index + 1).drop_last() =~= all.take(index as int));
            assert(all.take(index + 1).last() == wanted);
        }
        let mut everywhere = true;
        let mut place: usize = 0;
        while place < disjuncts.len()
            invariant
                place <= disjuncts@.len(),
                wanted == (pair.0@, pair.1@),
                everywhere == (forall|earlier: int|
                    0 <= earlier < place ==> pairs_in(
                        *#[trigger] disjuncts@[earlier],
                        left@,
                        right@,
                    ).contains(wanted)),
            decreases disjuncts@.len() - place,
        {
            let pairs = read_pairs(disjuncts[place], left, right);
            if !has_pair(&pairs, &pair) {
                everywhere = false;
                assert(!pairs_in(*disjuncts@[place as int], left@, right@).contains(wanted));
            }
            place += 1;
        }
        assert(everywhere == in_every(wanted, disjuncts@, left@, right@));
        if everywhere {
            let ghost before = common@;
            common.push(pair);
            assert(pair_texts(common@) =~= pair_texts(before).push(wanted));
        }
        index += 1;
    }
    assert(all.take(index as int) =~= all);
    common
}

/// The first columns of pairs.
pub open spec fn firsts(pairs: Seq<(Seq<char>, Seq<char>)>) -> Seq<Seq<char>> {
    pairs.map_values(|pair: (Seq<char>, Seq<char>)| pair.0)
}

/// The second columns of pairs.
pub open spec fn seconds(pairs: Seq<(Seq<char>, Seq<char>)>) -> Seq<Seq<char>> {
    pairs.map_values(|pair: (Seq<char>, Seq<char>)| pair.1)
}

/// Takes pairs of columns apart.
fn unzip_pairs(pairs: Vec<(String, String)>) -> (keys: (Vec<String>, Vec<String>))
    ensures
        texts(keys.0@) == firsts(pair_texts(pairs@)),
        texts(keys.1@) == seconds(pair_texts(pairs@)),
        keys.0@.len() == pairs@.len(),
        keys.1@.len() == pairs@.len(),
{
    let ghost all = pairs@;
    let mut left_keys: Vec<String> = Vec::new();
    let mut right_keys: Vec<String> = Vec::new();
    for pair in rest: pairs
        invariant
            rest.seq() == all,
            left_keys@.len() == rest.index(),
            right_keys@.len() == rest.index(),
            forall|index: int|
                0 <= index < left_keys@.len() ==> (#[trigger] left_keys@[index])@ == all[index].0@,
            forall|index: int|
                0 <= index < right_keys@.len() ==> (#[trigger] right_keys@[index])@ == all[index].1@,
    {
        assert(pair == all[rest.index()]);
        left_keys.push(pair.0);
        right_keys.push(pair.1);
    }
    assert(texts(left_keys@) =~= firsts(pair_texts(all)));
    assert(texts(right_keys@) =~= seconds(pair_texts(all)));
    (left_keys, right_keys)
}

/// The pairs of columns that two tables are joined by: those that conjuncts set equal,
/// else those that every disjunct does.
pub open spec fn comma_pairs(selection: SqlExpr, left: Seq<char>, right: Seq<char>) -> Seq<
    (Seq<char>, Seq<char>),
> {
    let pairs = key_pairs(owned_conjuncts(selection), left, right);
    if pairs.len() > 0 {
        pairs
    } else {
        shared_pairs(selection, left, right)
    }
}

/// Why two tables cannot be joined by a filter.
pub open spec fn comma_failure(
    selection: Option<SqlExpr>,
    left: Seq<char>,
    right: Seq<char>,
) -> Option<Failure> {
    match selection {
        None => Some(
            Failure::Unsupported("comma join requires an equality predicate in WHERE"@),
        ),
        Some(selection) => if comma_pairs(selection, left, right).len() == 0 {
            Some(
                Failure::Unsupported(
                    "comma join requires at least one equality predicate between the two tables"@,
                ),
            )
        } else {
            None
        },
    }
}

/// How a filter joins two tables.
pub struct CommaJoin {
    pub left_keys: Vec<String>,
    pub right_keys: Vec<String>,
    pub residual: Option<SqlExpr>,
}

/// Whether a join is by the pairs of columns of a filter, and leaves the rest of it.
pub open spec fn splits_selection(
    join: CommaJoin,
    selection: SqlExpr,
    left: Seq<char>,
    right: Seq<char>,
) -> bool {
    let pairs = comma_pairs(selection, left, right);
    &&& texts(join.left_keys@) == firsts(pairs)
    &&& texts(join.right_keys@) == seconds(pairs)
    &&& conjoins(join.residual, residuals(owned_conjuncts(selection), left, right))
}

/// Splits a filter into the pairs of columns that two tables are joined by and the rest.
pub fn split_comma_join_selection(selection: Option<SqlExpr>, left: &str, right: &str) -> (result:
    SqlResult<CommaJoin>)
    ensures
        match comma_failure(selection, left@, right@) {
            Some(failure) => fails_with(result, failure),
            None => result matches Ok(join) && splits_selection(
                join,
                selection->0,
                left@,
                right@,
            ),
        },
{
    let selection = match selection {
        Some(selection) => selection,
        None => {
            return Err(
                SqlError::unsupported("comma join requires an equality predicate in WHERE"),
            );
        },
    };
    let shared = common_or_comma_join_equality_keys(&selection, left, right);
    let ghost whole = selection;
    let conjuncts = into_conjuncts(selection);
    let ghost all = conjuncts@;
    let mut pairs: Vec<(String, String)> = Vec::new();
    let mut rest_of: Vec<SqlExpr> = Vec::new();
    proof {
        assert(all.take(0) =~= Seq::empty());
        assert(pair_texts(pairs@) =~= Seq::empty());
    }
    for conjunct in rest: conjuncts
        invariant
            rest.seq() == all,
            pair_texts(pairs@) == key_pairs(all.take(rest.index()), left@, right@),
            rest_of@ == residuals(all.take(rest.index()), left@, right@),
    {
        let ghost index = rest.index();
        proof {
            assert(conjunct == all[index]);
            assert(all.take(index + 1).drop_last() =~= all.take(index));
            assert(all.take(index + 1).last() == conjunct);
        }
        match comma_join_equality_keys(&conjunct, left, right) {
            Some(pair) => {
                let ghost before = pairs@;
                pairs.push(pair);
                assert(pair_texts(pairs@) =~= pair_texts(before).push((pair.0@, pair.1@)));
            },
            None => {
                rest_of.push(conjunct);
            },
        }
    }
    proof {
        assert(all.take(all.len() as int) =~= all);
        assert(pair_texts(pairs@).len() == pairs@.len());
        assert(pair_texts(shared@).len() == shared@.len());
    }
    if pairs.len() == 0 {
        pairs = shared;
    }
    if pairs.len() == 0 {
        return Err(
            SqlError::unsupported(
                "comma join requires at least one equality predicate between the two tables",
            ),
        );
    }
    let (left_keys, right_keys) = unzip_pairs(pairs);
    Ok(CommaJoin { left_keys, right_keys, residual: combine_sql_and_conjuncts(rest_of) })
}

/// The conjuncts that hold a subquery, or those that hold none.
pub open spec fn with_subqueries(conjuncts: Seq<SqlExpr>, wanted: bool) -> Seq<SqlExpr>
    decreases conjuncts.len(),
{
    if conjuncts.len() == 0 {
        Seq::empty()
    } else if holds_subquery(conjuncts.last(), false) == wanted {
        with_subqueries(conjuncts.drop_last(), wanted).push(conjuncts.last())
    } else {
        with_subqueries(conjuncts.drop_last(), wanted)
    }
}

/// Splits a filter into what holds no subquery and what does.
pub fn split_subquery_residual(residual: Option<SqlExpr>) -> (split: (
    Option<SqlExpr>,
    Option<SqlExpr>,
))
    ensures
        match residual {
            Some(expr) => conjoins(split.0, with_subqueries(owned_conjuncts(expr), false))
                && conjoins(split.1, with_subqueries(owned_conjuncts(expr), true)),
            None => split.0 is None && split.1 is None,
        },
{
    let residual = match residual {
        Some(residual) => residual,
        None => {
            return (None, None);
        },
    };
    let conjuncts = into_conjuncts(residual);
    let ghost all = conjuncts@;
    let mut plain: Vec<SqlExpr> = Vec::new();
    let mut queried: Vec<SqlExpr> = Vec::new();
    assert(all.take(0) =~= Seq::empty());
    for conjunct in rest: conjuncts
        invariant
            rest.seq() == all,
            plain@ == with_subqueries(all.take(rest.index()), false),
            queried@ == with_subqueries(all.take(rest.index()), true),
    {
        let ghost index = rest.index();
        proof {
            assert(conjunct == all[index]);
            assert(all.take(index + 1).drop_last() =~= all.take(index));
            assert(all.take(index + 1).last() == conjunct);
        }
        if expr_contains_materializable_subquery(&conjunct) {
            queried.push(conjunct);
        } else {
            plain.push(conjunct);
        }
    }
    assert(all.take(all.len() as int) =~= all);
    (combine_sql_and_conjuncts(plain), combine_sql_and_conjuncts(queried))
}

/// The type of a join and the condition it is on, `None` where it is of another kind.
pub open spec fn join_condition(join: JoinedTable) -> Option<(JoinType, SqlExpr)> {
    match join.operator {
        JoinKind::Inner(JoinOn::On(condition)) => Some((JoinType::Inner, condition)),
        JoinKind::Left(JoinOn::On(condition)) => Some((JoinType::Left, condition)),
        JoinKind::Semi(JoinOn::On(condition)) => Some((JoinType::Semi, condition)),
        _ => None,
    }
}

/// The type of a join.
pub open spec fn join_type_of(join: JoinedTable) -> JoinType {
    match join_condition(join) {
        Some((join_type, _)) => join_type,
        None => JoinType::Inner,
    }
}

/// How a `JOIN` joins two tables.
pub struct JoinPlan {
    pub join_type: JoinType,
    pub left_keys: Vec<String>,
    pub right_keys: Vec<String>,
    pub right_filter: Option<FilterExpr>,
}

/// The filters of the right table, all of them.
pub open spec fn right_filter_of(parts: Seq<SqlExpr>, right: Seq<char>) -> Result<
    Option<Filter>,
    Failure,
>
    decreases parts.len(),
{
    if parts.len() == 0 {
        Ok(None)
    } else {
        match right_filter_of(parts.drop_last(), right) {
            Err(failure) => Err(failure),
            Ok(earlier) => match filter_of(parts.last(), right_scope(right)) {
                Err(failure) => Err(failure),
                Ok(filter) => Ok(
                    Some(
                        match earlier {
                            Some(first) => Filter::And(Box::new(first), Box::new(filter)),
                            None => filter,
                        },
                    ),
                ),
            },
        }
    }
}

/// What the names of a filter of the right table are looked up in.
pub open spec fn right_scope(right: Seq<char>) -> FilterScope {
    FilterScope { aliases: Seq::empty(), tables: Tables::Table(Some(right)), aggregates: false }
}

/// The conjuncts that are no pairs of columns, by reference.
pub open spec fn ref_residuals(conjuncts: Seq<&SqlExpr>, left: Seq<char>, right: Seq<char>) -> Seq<
    SqlExpr,
>
    decreases conjuncts.len(),
{
    if conjuncts.len() == 0 {
        Seq::empty()
    } else {
        match key_pair(*conjuncts.last(), left, right) {
            Some(_) => ref_residuals(conjuncts.drop_last(), left, right),
            None => ref_residuals(conjuncts.drop_last(), left, right).push(*conjuncts.last()),
        }
    }
}

/// Why a `JOIN` is refused.
pub open spec fn join_failure(
    join: JoinedTable,
    left: Seq<char>,
    right: Seq<char>,
) -> Option<Failure> {
    match join_condition(join) {
        None => Some(Failure::Unsupported("unsupported JOIN type or condition"@)),
        Some((_, condition)) => if pairs_in(condition, left, right).len() == 0 {
            Some(
                Failure::Unsupported("JOIN requires at least one equality between the two tables"@),
            )
        } else {
            match right_filter_of(
                ref_residuals(conjuncts_of(&condition), left, right),
                right,
            ) {
                Err(failure) => Some(failure),
                Ok(_) => None,
            }
        },
    }
}

/// Whether a plan is that of a `JOIN`.
pub open spec fn plans_join(
    plan: JoinPlan,
    join: JoinedTable,
    left: Seq<char>,
    right: Seq<char>,
) -> bool {
    match join_condition(join) {
        None => false,
        Some((join_type, condition)) => {
            let pairs = pairs_in(condition, left, right);
            &&& plan.join_type == join_type
            &&& texts(plan.left_keys@) == firsts(pairs)
            &&& texts(plan.right_keys@) == seconds(pairs)
            &&& right_filter_of(
                ref_residuals(conjuncts_of(&condition), left, right),
                right,
            ) == Ok::<
                Option<Filter>,
                Failure,
            >(
                match plan.right_filter {
                    Some(filter) => Some(filter.model()),
                    None => None,
                },
            )
        },
    }
}

proof fn lemma_right_filter_fails(parts: Seq<SqlExpr>, right: Seq<char>, count: int)
    requires
        0 <= count <= parts.len(),
        right_filter_of(parts.take(count), right) is Err,
    ensures
        right_filter_of(parts, right) == right_filter_of(parts.take(count), right),
    decreases parts.len() - count,
{
    if count < parts.len() {
        assert(parts.take(count + 1).drop_last() =~= parts.take(count));
        lemma_right_filter_fails(parts, right, count + 1);
    } else {
        assert(parts.take(count) =~= parts);
    }
}

proof fn lemma_residuals_grow(
    conjuncts: Seq<&SqlExpr>,
    left: Seq<char>,
    right: Seq<char>,
    count: int,
)
    requires
        0 <= count <= conjuncts.len(),
    ensures
        ref_residuals(conjuncts.take(count), left, right).len() <= ref_residuals(
            conjuncts,
            left,
            right,
        ).len(),
        ref_residuals(conjuncts, left, right).take(
            ref_residuals(conjuncts.take(count), left, right).len() as int,
        ) =~= ref_residuals(conjuncts.take(count), left, right),
    decreases conjuncts.len() - count,
{
    if count < conjuncts.len() {
        assert(conjuncts.take(count + 1).drop_last() =~= conjuncts.take(count));
        lemma_residuals_grow(conjuncts, left, right, count + 1);
        let here = ref_residuals(conjuncts.take(count), left, right);
        let next = ref_residuals(conjuncts.take(count + 1), left, right);
        let all = ref_residuals(conjuncts, left, right);
        assert(next.take(here.len() as int) =~= here);
        assert(all.take(next.len() as int).take(here.len() as int) =~= all.take(here.len() as int));
    } else {
        assert(conjuncts.take(count) =~= conjuncts);
    }
}

/// How a `JOIN` joins two tables: by the pairs of columns that its condition sets equal.
/// What else the condition says filters the right table.
pub fn parse_join_condition(join: &JoinedTable, left: &str, right: &str) -> (result: SqlResult<
    JoinPlan,
>)
    ensures
        match join_failure(*join, left@, right@) {
            Some(failure) => fails_with(result, failure),
            None => result matches Ok(plan) && plans_join(plan, *join, left@, right@),
        },
{
    let (join_type, condition) = match &join.operator {
        JoinKind::Inner(JoinOn::On(condition)) => (JoinType::Inner, condition),
        JoinKind::Left(JoinOn::On(condition)) => (JoinType::Left, condition),
        JoinKind::Semi(JoinOn::On(condition)) => (JoinType::Semi, condition),
        _ => {
            return Err(SqlError::unsupported("unsupported JOIN type or condition"));
        },
    };
    let pairs = read_pairs(condition, left, right);
    assert(pair_texts(pairs@).len() == pairs@.len());
    if pairs.len() == 0 {
        return Err(
            SqlError::unsupported("JOIN requires at least one equality between the two tables"),
        );
    }
    let no_aliases: Vec<(String, String)> = Vec::new();
    let names = FilterNames {
        aliases: no_aliases.as_slice(),
        scope: Scope::Table(Some(right)),
        aggregates: false,
    };
    assert(names@.aliases =~= Seq::empty());
    let conjuncts = collect_sql_and_conjuncts(condition);
    let ghost parts = ref_residuals(conjuncts@, left@, right@);
    let mut right_filter: Option<FilterExpr> = None;
    let mut index: usize = 0;
    assert(conjuncts@.take(0) =~= Seq::empty());
    while index < conjuncts.len()
        invariant
            index <= conjuncts@.len(),
            names@ == right_scope(right@),
            conjuncts@ == conjuncts_of(condition),
            parts == ref_residuals(conjuncts@, left@, right@),
            join_condition(*join) == Some((join_type, *condition)),
            pairs_in(*condition, left@, right@).len() > 0,
            right_filter_of(ref_residuals(conjuncts@.take(index as int), left@, right@), right@)
                == Ok::<Option<Filter>, Failure>(
                match right_filter {
                    Some(filter) => Some(filter.model()),
                    None => None,
                },
            ),
        decreases conjuncts@.len() - index,
    {
        let ghost here = ref_residuals(conjuncts@.take(index as int), left@, right@);
        proof {
            assert(conjuncts@.take(index + 1).drop_last() =~= conjuncts@.take(index as int));
            assert(conjuncts@.take(index + 1).last() == conjuncts@[index as int]);
        }
        if comma_join_equality_keys(conjuncts[index], left, right).is_none() {
            proof {
                let next = here.push(*conjuncts@[index as int]);
                assert(next.drop_last() =~= here);
            }
            match parse_filter(conjuncts[index], names) {
                Ok(filter) => {
                    right_filter = match right_filter {
                        Some(first) => Some(FilterExpr::And(Box::new(first), Box::new(filter))),
                        None => Some(filter),
                    };
                },
                Err(error) => {
                    proof {
                        let next = here.push(*conjuncts@[index as int]);
                        lemma_residuals_grow(conjuncts@, left@, right@, index + 1);
                        assert(parts.take(next.len() as int) =~= next);
                        lemma_right_filter_fails(parts, right@, next.len() as int);
                    }
                    return Err(error);
                },
            }
        }
        index += 1;
    }
    assert(conjuncts@.take(index as int) =~= conjuncts@);
    let (left_keys, right_keys) = unzip_pairs(pairs);
    Ok(JoinPlan { join_type, left_keys, right_keys, right_filter })
}

} // verus!
