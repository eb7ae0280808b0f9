//! Products of columns, of one less a column and of one more than a column.

use vstd::prelude::*;
use vstd::slice::slice_subrange;
use crate::ast::SqlBinaryOperator;
use crate::literals::{Literal, LiteralValue};
use crate::scalar::{Scalar, ScalarSqlExpression};
use crate::text::{
    chars_of, digits_value, is_digit, parse_usize, string_copy, string_from, unsigned_digits,
};

verus! {

/// What a factor takes a column for.
#[derive(Clone, Copy, Debug, PartialEq, Eq, Structural)]
pub enum ProductTermTransform {
    Identity,
    OneMinus,
    OnePlus,
}

impl ProductTermTransform {
    /// The factor for a column, where `scale` stands for one.
    pub open spec fn factor(self, raw: int, scale: int) -> int {
        match self {
            ProductTermTransform::Identity => raw,
            ProductTermTransform::OneMinus => scale - raw,
            ProductTermTransform::OnePlus => scale + raw,
        }
    }

    /// The factor for a column in units, where `scale` units are one.
    pub fn apply_raw_i64(self, raw: i64, scale: i64) -> (factor: i64)
        requires
            i64::MIN <= self.factor(raw as int, scale as int) <= i64::MAX,
        ensures
            factor == self.factor(raw as int, scale as int),
    {
        match self {
            ProductTermTransform::Identity => raw,
            ProductTermTransform::OneMinus => scale - raw,
            ProductTermTransform::OnePlus => scale + raw,
        }
    }
}

/// A factor of a product.
#[derive(Debug)]
pub struct ProductExpressionTerm {
    pub column: String,
    pub transform: ProductTermTransform,
}

/// A product of two or three factors.
#[derive(Debug)]
pub struct ProductExpressionShape {
    pub terms: Vec<ProductExpressionTerm>,
}

/// A factor, as a value.
pub struct ProductTerm {
    pub column: Seq<char>,
    pub transform: ProductTermTransform,
}

/// Factors, as values.
pub open spec fn term_models(terms: Seq<ProductExpressionTerm>) -> Seq<ProductTerm> {
    terms.map_values(
        |term: ProductExpressionTerm|
            ProductTerm { column: term.column@, transform: term.transform },
    )
}

/// Whether the place of a number text holds a zero.
pub open spec fn zero_at(text: Seq<char>, place: int) -> bool {
    text[place] == '0'
}

/// Whether digits write a number.
pub open spec fn number_is(digits: Seq<char>, value: int) -> bool {
    &&& digits.len() > 0
    &&& forall|index: int| 0 <= index < digits.len() ==> is_digit(#[trigger] digits[index])
    &&& value == digits_value(digits)
}

/// Whether the end of a number text, behind its digits, is an exponent of the given value.
/// Without an exponent it is zero.
pub open spec fn exponent_is(tail: Seq<char>, value: int) -> bool {
    if tail.len() == 0 {
        value == 0
    } else if tail[0] != 'e' && tail[0] != 'E' {
        false
    } else if tail.len() > 1 && tail[1] == '-' {
        number_is(tail.skip(2), -value)
    } else {
        number_is(unsigned_digits(tail.skip(1)), value)
    }
}

/// Whether a text is zeros with a one at `place` among them, up to `end`, with a point at
/// `point` or, where that is `end`, none, and an exponent that moves the one in front of
/// the point.
pub open spec fn one_at(text: Seq<char>, end: int, point: int, place: int) -> bool {
    &&& 0 <= place < end <= text.len()
    &&& 0 <= point <= end
    &&& text[place] == '1'
    &&& point < end ==> text[point] == '.'
    &&& forall|index: int|
        0 <= index < end && index != place && index != point ==> #[trigger] zero_at(text, index)
    &&& exponent_is(
        text.skip(end),
        if place < point {
            place + 1 - point
        } else {
            place - point
        },
    )
}

/// Whether a text writes one.
pub open spec fn writes_one(text: Seq<char>) -> bool {
    exists|end: int, point: int, place: int| #[trigger] one_at(text, end, point, place)
}

/// Whether a literal is one.
pub open spec fn is_one(literal: Literal) -> bool {
    match literal {
        Literal::Int64(value) => value == 1,
        Literal::Float64(text) => writes_one(text),
        _ => false,
    }
}

/// Whether the end of a number text is an exponent that is `distance` above or below zero.
fn exponent_matches(tail: &[char], below: bool, distance: usize) -> (matching: bool)
    ensures
        matching == exponent_is(
            tail@,
            if below {
                -(distance as int)
            } else {
                distance as int
            },
        ),
{
    if tail.len() == 0 {
        return distance == 0;
    }
    if tail[0] != 'e' && tail[0] != 'E' {
        return false;
    }
    let negative = tail.len() > 1 && tail[1] == '-';
    let start: usize = if negative {
        2
    } else {
        1
    };
    let digits = string_from(slice_subrange(tail, start, tail.len()));
    assert(digits@ =~= tail@.skip(start as int));
    if negative && tail.len() > 2 && tail[2] == '+' {
        assert(!is_digit(tail@.skip(2)[0]));
        return false;
    }
    proof {
        if negative && digits@.len() > 0 {
            assert(digits@[0] == tail@[2]);
        }
    }
    match parse_usize(digits.as_str()) {
        None => false,
        Some(value) => value == distance && (distance == 0 || negative == below),
    }
}

/// Where the digits of a number text end that may write one, with its point, or that end
/// where it has none, and its one. `None` where it has not one digit one among zeros, or
/// more than one point.
fn find_one(characters: &Vec<char>) -> (found: Option<(usize, usize, usize)>)
    ensures
        match found {
            Some((end, point, place)) => {
                &&& place < end <= characters@.len()
                &&& point <= end
                &&& characters@[place as int] == '1'
                &&& point < end ==> characters@[point as int] == '.'
                &&& forall|index: int|
                    0 <= index < end && index != place && index != point ==> #[trigger] zero_at(
                        characters@,
                        index,
                    )
                &&& forall|other: int, dot: int, one: int| #[trigger]
                    one_at(characters@, other, dot, one) ==> other == end && dot == point && one
                        == place
            },
            None => !writes_one(characters@),
        },
{
    let ghost text = characters@;
    let mut point: Option<usize> = None;
    let mut place: Option<usize> = None;
    let mut end: usize = 0;
    while end < characters.len() && (characters[end] == '0' || characters[end] == '1'
        || characters[end] == '.')
        invariant
            text == characters@,
            end <= text.len(),
            forall|index: int|
                0 <= index < end ==> (#[trigger] text[index] == '0' || text[index] == '1'
                    || text[index] == '.'),
            match point {
                Some(point) => point < end && text[point as int] == '.',
                None => true,
            },
            match place {
                Some(place) => place < end && text[place as int] == '1',
                None => true,
            },
            forall|index: int|
                0 <= index < end && Some(index as usize) != place && Some(index as usize) != point
                    ==> #[trigger] zero_at(text, index),
        decreases text.len() - end,
    {
        let ghost before = end as int;
        if characters[end] == '1' {
            match place {
                Some(earlier) => {
                    proof {
                        assert forall|other: int, dot: int, one: int| !#[trigger]
                            one_at(text, other, dot, one) by {
                            if one_at(text, other, dot, one) {
                                lemma_digits_reach(text, other, dot, one, before + 1);
                                if one != before {
                                    assert(zero_at(text, before) || dot == before);
                                } else {
                                    assert(zero_at(text, earlier as int) || dot == earlier);
                                }
                            }
                        }
                    }
                    return None;
                },
                None => {},
            }
            place = Some(end);
        } else if characters[end] == '.' {
            match point {
                Some(earlier) => {
                    proof {
                        assert forall|other: int, dot: int, one: int| !#[trigger]
                            one_at(text, other, dot, one) by {
                            if one_at(text, other, dot, one) {
                                lemma_digits_reach(text, other, dot, one, before + 1);
                                if dot != before {
                                    assert(zero_at(text, before) || one == before);
                                } else {
                                    assert(zero_at(text, earlier as int) || one == earlier);
                                }
                            }
                        }
                    }
                    return None;
                },
                None => {},
            }
            point = Some(end);
        } else {
            assert(zero_at(text, before));
        }
        end += 1;
    }
    proof {
        assert forall|other: int, dot: int, one: int| #[trigger]
            one_at(text, other, dot, one) implies other == end && place == Some(one as usize)
            && one < end && (if point is Some {
            point == Some(dot as usize)
        } else {
            dot == end
        }) by {
            lemma_digits_reach(text, other, dot, one, end as int);
            if other > end {
                assert(zero_at(text, end as int) || end == dot || end == one);
            }
            assert(!zero_at(text, one));
            if point is Some {
                assert(!zero_at(text, point->0 as int));
            } else if dot < end {
                assert(!zero_at(text, dot));
            }
        }
    }
    match place {
        None => None,
        Some(place) => {
            let dot: usize = match point {
                Some(point) => point,
                None => end,
            };
            Some((end, dot, place))
        },
    }
}

/// The digits of a number text that writes one go on as long as there are digits or a
/// point.
proof fn lemma_digits_reach(text: Seq<char>, end: int, point: int, place: int, reached: int)
    requires
        one_at(text, end, point, place),
        0 <= reached <= text.len(),
        forall|index: int|
            0 <= index < reached ==> (#[trigger] text[index] == '0' || text[index] == '1'
                || text[index] == '.'),
    ensures
        end >= reached,
{
    if end < reached {
        assert(text.skip(end)[0] == text[end]);
    }
}

/// Whether a text writes one.
fn text_is_one(text: &str) -> (one: bool)
    ensures
        one == writes_one(text@),
{
    let characters = chars_of(text);
    match find_one(&characters) {
        None => false,
        Some((end, point, place)) => {
            let tail = slice_subrange(characters.as_slice(), end, characters.len());
            assert(tail@ =~= text@.skip(end as int));
            let one = if place < point {
                exponent_matches(tail, true, point - place - 1)
            } else {
                exponent_matches(tail, false, place - point)
            };
            proof {
                if one {
                    assert(one_at(text@, end as int, point as int, place as int));
                }
            }
            one
        },
    }
}

/// Whether an expression is the literal one.
pub open spec fn scalar_is_one(expr: Scalar) -> bool {
    match expr {
        Scalar::Literal(literal) => is_one(literal),
        _ => false,
    }
}

/// Whether a literal is one.
fn literal_is_one(value: &LiteralValue) -> (one: bool)
    ensures
        one == is_one(value@),
{
    match value {
        LiteralValue::Int64(number) => *number == 1,
        LiteralValue::Float64(text) => text_is_one(text.as_str()),
        _ => false,
    }
}

/// Whether an expression is the literal one.
fn scalar_literal_is_one(expr: &ScalarSqlExpression) -> (one: bool)
    ensures
        one == scalar_is_one(expr.model()),
{
    match expr {
        ScalarSqlExpression::Literal(value) => literal_is_one(value),
        _ => false,
    }
}

/// The factor that an expression is: a column, one less a column or one more than a
/// column.
pub open spec fn term_of(expr: Scalar) -> Option<ProductTerm> {
    match expr {
        Scalar::Column(column) => Some(
            ProductTerm { column, transform: ProductTermTransform::Identity },
        ),
        Scalar::Binary { left, op, right } => match *right {
            Scalar::Column(column) => if !scalar_is_one(*left) {
                None
            } else if op == SqlBinaryOperator::Minus {
                Some(ProductTerm { column, transform: ProductTermTransform::OneMinus })
            } else if op == SqlBinaryOperator::Plus {
                Some(ProductTerm { column, transform: ProductTermTransform::OnePlus })
            } else {
                None
            },
            _ => None,
        },
        _ => None,
    }
}

/// The factor that an expression is.
fn product_term(expr: &ScalarSqlExpression) -> (term: Option<ProductExpressionTerm>)
    ensures
        match term_of(expr.model()) {
            Some(expected) => term matches Some(term) && term.column@ == expected.column
                && term.transform == expected.transform,
            None => term is None,
        },
{
    reveal_with_fuel(ScalarSqlExpression::model, 3);
    match expr {
        ScalarSqlExpression::Column(column) => Some(
            ProductExpressionTerm {
                column: string_copy(column),
                transform: ProductTermTransform::Identity,
            },
        ),
        ScalarSqlExpression::Binary { left, op, right } => {
            if !scalar_literal_is_one(left) {
                return None;
            }
            let transform = match op {
                SqlBinaryOperator::Minus => ProductTermTransform::OneMinus,
                SqlBinaryOperator::Plus => ProductTermTransform::OnePlus,
                _ => {
                    return None;
                },
            };
            match &**right {
                ScalarSqlExpression::Column(column) => Some(
                    ProductExpressionTerm { column: string_copy(column), transform },
                ),
                _ => None,
            }
        },
        _ => None,
    }
}

/// The factors of a product, left to right; `None` where one is no factor.
pub open spec fn terms_of(expr: Scalar) -> Option<Seq<ProductTerm>>
    decreases expr,
{
    match expr {
        Scalar::Binary { left, op, right } => if op == SqlBinaryOperator::Multiply {
            match (terms_of(*left), terms_of(*right)) {
                (Some(first), Some(second)) => Some(first + second),
                _ => None,
            }
        } else {
            match term_of(expr) {
                Some(term) => Some(seq![term]),
                None => None,
            }
        },
        _ => match term_of(expr) {
            Some(term) => Some(seq![term]),
            None => None,
        },
    }
}

/// The factors of a product, left to right.
fn collect_product_terms(expr: &ScalarSqlExpression) -> (terms: Option<Vec<ProductExpressionTerm>>)
    ensures
        match terms_of(expr.model()) {
            Some(expected) => terms matches Some(terms) && term_models(terms@) == expected,
            None => terms is None,
        },
    decreases *expr,
{
    match expr {
        ScalarSqlExpression::Binary { left, op, right } => {
            if *op == SqlBinaryOperator::Multiply {
                let mut terms = match collect_product_terms(left) {
                    Some(terms) => terms,
                    None => {
                        return None;
                    },
                };
                let mut more = match collect_product_terms(right) {
                    Some(more) => more,
                    None => {
                        return None;
                    },
                };
                let ghost first = terms@;
                let ghost second = more@;
                terms.append(&mut more);
                assert(term_models(terms@) =~= term_models(first) + term_models(second));
                return Some(terms);
            }
        },
        _ => {},
    }
    match product_term(expr) {
        Some(term) => {
            let terms = vec![term];
            assert(term_models(terms@) =~= seq![term_of(expr.model())->0]);
            Some(terms)
        },
        None => None,
    }
}

/// Whether an expression is a product of two or three factors.
pub open spec fn product_of(expr: Scalar) -> Option<Seq<ProductTerm>> {
    match terms_of(expr) {
        Some(terms) => if 2 <= terms.len() <= 3 {
            Some(terms)
        } else {
            None
        },
        None => None,
    }
}

/// The product of two or three factors that an expression is.
pub fn product_expression_shape(expr: &ScalarSqlExpression) -> (shape: Option<
    ProductExpressionShape,
>)
    ensures
        match product_of(expr.model()) {
            Some(terms) => shape matches Some(shape) && term_models(shape.terms@) == terms,
            None => shape is None,
        },
{
    match collect_product_terms(expr) {
        Some(terms) => {
            assert(term_models(terms@).len() == terms@.len());
            if 2 <= terms.len() && terms.len() <= 3 {
                Some(ProductExpressionShape { terms })
            } else {
                None
            }
        },
        None => None,
    }
}

/// What an expression is worth for given columns, where it is made of columns, ones and
/// the operators of products.
pub open spec fn worth(expr: Scalar, columns: spec_fn(Seq<char>) -> int) -> int
    decreases expr,
{
    match expr {
        Scalar::Column(column) => columns(column),
        Scalar::Literal(_) => 1,
        Scalar::Binary { left, op, right } => if op == SqlBinaryOperator::Multiply {
            worth(*left, columns) * worth(*right, columns)
        } else if op == SqlBinaryOperator::Minus {
            worth(*left, columns) - worth(*right, columns)
        } else {
            worth(*left, columns) + worth(*right, columns)
        },
        _ => 0,
    }
}

/// The product of factors for given columns.
pub open spec fn product(terms: Seq<ProductTerm>, columns: spec_fn(Seq<char>) -> int) -> int
    decreases terms.len(),
{
    if terms.len() == 0 {
        1
    } else {
        product(terms.drop_last(), columns) * terms.last().transform.factor(
            columns(terms.last().column),
            1,
        )
    }
}

proof fn lemma_product_splits(
    first: Seq<ProductTerm>,
    second: Seq<ProductTerm>,
    columns: spec_fn(Seq<char>) -> int,
)
    ensures
        product(first + second, columns) == product(first, columns) * product(second, columns),
    decreases second.len(),
{
    if second.len() == 0 {
        assert(first + second =~= first);
    } else {
        lemma_product_splits(first, second.drop_last(), columns);
        assert((first + second).drop_last() =~= first + second.drop_last());
        let head = product(first, columns);
        let tail = product(second.drop_last(), columns);
        let last = second.last().transform.factor(columns(second.last().column), 1);
        assert((head * tail) * last == head * (tail * last)) by (nonlinear_arith);
    }
}

/// The factors of an expression multiply to what the expression is worth.
pub proof fn law_factors_make_the_product(expr: Scalar, columns: spec_fn(Seq<char>) -> int)
    requires
        terms_of(expr) is Some,
    ensures
        product(terms_of(expr)->0, columns) == worth(expr, columns),
    decreases expr,
{
    match expr {
        Scalar::Binary { left, op, right } => {
            if op == SqlBinaryOperator::Multiply {
                law_factors_make_the_product(*left, columns);
                law_factors_make_the_product(*right, columns);
                lemma_product_splits(terms_of(*left)->0, terms_of(*right)->0, columns);
            } else {
                lemma_single_factor(term_of(expr)->0, columns);
                assert(worth(*left, columns) == 1);
                assert(worth(*right, columns) == columns(term_of(expr)->0.column));
            }
        },
        _ => {
            lemma_single_factor(term_of(expr)->0, columns);
        },
    }
}

proof fn lemma_single_factor(term: ProductTerm, columns: spec_fn(Seq<char>) -> int)
    ensures
        product(seq![term], columns) == term.transform.factor(columns(term.column), 1),
{
    let terms = seq![term];
    assert(terms.drop_last() =~= Seq::empty());
    assert(product(Seq::<ProductTerm>::empty(), columns) == 1);
    assert(terms.last() == term);
}

} // verus!
