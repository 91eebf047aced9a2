//! What is pending while the phrase inside a phrase is read: the grammar
//! told as a walk from left to right that never has to come back.

use crate::grammar::additive;
use crate::grammar::literal;
use crate::grammar::multiplicative;
use crate::grammar::parsed;
use crate::grammar::primary;
use crate::grammar::product;
use crate::grammar::product_rest;
use crate::grammar::sum;
use crate::grammar::sum_rest;
use crate::grammar::unexpected;
use crate::grammar::Expr;
use crate::grammar::Failure;
use crate::grammar::Operator;
use crate::grammar::Tier;
use crate::lexer::scan;
use crate::lexer::scan_advances;
use crate::lexer::Scan;
use crate::lexer::Symbol;
use vstd::prelude::*;

verus! {

/// What has been read of a phrase when the reading turns to a phrase
/// inside it.
pub enum Pending {
    /// A sign; the primary term under it follows.
    Sign { negate: bool },
    /// The left operand and the operator of a product; the primary term on
    /// the right follows.
    Factor { left: Expr, operator: Operator },
    /// The left operand and the operator of a sum; the product on the right
    /// follows.
    Term { left: Expr, operator: Operator },
    /// An opening parenthesis; the sum in the parentheses follows.
    Paren,
}

/// The innermost of the pending phrases.
pub open spec fn innermost(pending: Seq<Pending>) -> Option<Pending> {
    if pending.len() == 0 {
        None
    } else {
        Some(pending.last())
    }
}

/// How far a phrase of `tier` is from being a sum.
pub open spec fn rank(tier: Tier) -> nat {
    match tier {
        Tier::Primary => 2,
        Tier::Product => 1,
        Tier::Sum => 0,
    }
}

/// `expr` under a sign.
pub open spec fn signed(negate: bool, expr: Expr) -> Expr {
    if negate {
        Expr::Negate(Box::new(expr))
    } else {
        expr
    }
}

/// The outcome of reading the whole text, given that a phrase of `tier`
/// that reads as `expr` ends at `at` and that `pending` is what was read
/// around it.
pub open spec fn finish(text: Seq<u8>, pending: Seq<Pending>, tier: Tier, expr: Expr, at: nat) -> Result<
    Expr,
    Failure,
>
    decreases pending.len(), rank(tier),
{
    match tier {
        Tier::Primary => match innermost(pending) {
            Some(Pending::Sign { negate }) => finish(
                text,
                pending.drop_last(),
                Tier::Primary,
                signed(negate, expr),
                at,
            ),
            Some(Pending::Factor { left, operator }) => match product_rest(
                text,
                at,
                Expr::Binary(operator, Box::new(left), Box::new(expr)),
            ) {
                Ok((whole, length)) => finish(
                    text,
                    pending.drop_last(),
                    Tier::Product,
                    whole,
                    at + length,
                ),
                Err(failure) => Err(failure),
            },
            _ => match product_rest(text, at, expr) {
                Ok((whole, length)) => finish(text, pending, Tier::Product, whole, at + length),
                Err(failure) => Err(failure),
            },
        },
        Tier::Product => match innermost(pending) {
            Some(Pending::Term { left, operator }) => match sum_rest(
                text,
                at,
                Expr::Binary(operator, Box::new(left), Box::new(expr)),
            ) {
                Ok((whole, length)) => finish(text, pending.drop_last(), Tier::Sum, whole, at + length),
                Err(failure) => Err(failure),
            },
            _ => match sum_rest(text, at, expr) {
                Ok((whole, length)) => finish(text, pending, Tier::Sum, whole, at + length),
                Err(failure) => Err(failure),
            },
        },
        Tier::Sum => match innermost(pending) {
            Some(Pending::Paren) => match scan(text, at) {
                Scan::Found(close) if close.kind == Symbol::Close => finish(
                    text,
                    pending.drop_last(),
                    Tier::Primary,
                    expr,
                    close.end,
                ),
                other => Err(unexpected(other, at)),
            },
            _ => match scan(text, at) {
                Scan::End => Ok(expr),
                other => Err(unexpected(other, at)),
            },
        },
    }
}

/// The outcome of reading the whole text, given that a primary term starts
/// at `at`.
pub open spec fn expect(text: Seq<u8>, pending: Seq<Pending>, at: nat) -> Result<Expr, Failure> {
    match primary(text, at) {
        Ok((expr, length)) => finish(text, pending, Tier::Primary, expr, at + length),
        Err(failure) => Err(failure),
    }
}

/// The outcome of reading the whole text, given that a product that reads
/// as `left` so far may go on at `at`.
pub open spec fn after_factor(text: Seq<u8>, pending: Seq<Pending>, left: Expr, at: nat) -> Result<
    Expr,
    Failure,
> {
    match product_rest(text, at, left) {
        Ok((whole, length)) => finish(text, pending, Tier::Product, whole, at + length),
        Err(failure) => Err(failure),
    }
}

/// The outcome of reading the whole text, given that a sum that reads as
/// `left` so far may go on at `at`.
pub open spec fn after_term(text: Seq<u8>, pending: Seq<Pending>, left: Expr, at: nat) -> Result<
    Expr,
    Failure,
> {
    match sum_rest(text, at, left) {
        Ok((whole, length)) => finish(text, pending, Tier::Sum, whole, at + length),
        Err(failure) => Err(failure),
    }
}

/// A product told in its steps: a primary term, and what continues it.
pub open spec fn product_in_steps(text: Seq<u8>, from: nat) -> Result<(Expr, nat), Failure> {
    match primary(text, from) {
        Ok((first, a)) => match product_rest(text, from + a, first) {
            Ok((left, b)) => Ok((left, a + b)),
            Err(failure) => Err(failure),
        },
        Err(failure) => Err(failure),
    }
}

/// A sum told in its steps: a product, and what continues it.
pub open spec fn sum_in_steps(text: Seq<u8>, from: nat) -> Result<(Expr, nat), Failure> {
    match product_in_steps(text, from) {
        Ok((left, b)) => match sum_rest(text, from + b, left) {
            Ok((whole, c)) => Ok((whole, b + c)),
            Err(failure) => Err(failure),
        },
        Err(failure) => Err(failure),
    }
}

/// A product is its steps.
pub proof fn product_is_its_steps(text: Seq<u8>, from: nat)
    ensures
        product(text, from) == product_in_steps(text, from),
{
}

/// A sum is its steps.
pub proof fn sum_is_its_steps(text: Seq<u8>, from: nat)
    ensures
        sum(text, from) == sum_in_steps(text, from),
{
    product_is_its_steps(text, from);
}

/// Where neither a sign nor an operator is pending, a primary term starts
/// a sum, and the outcome is that of the sum.
pub proof fn primary_starts_sum(text: Seq<u8>, pending: Seq<Pending>, from: nat)
    requires
        innermost(pending) is None || innermost(pending) == Some(Pending::Paren),
    ensures
        expect(text, pending, from) == match sum(text, from) {
            Ok((whole, length)) => finish(text, pending, Tier::Sum, whole, from + length),
            Err(failure) => Err(failure),
        },
{
    sum_is_its_steps(text, from);
    match primary(text, from) {
        Ok((first, a)) => {
            match product_rest(text, from + a, first) {
                Ok((left, b)) => {
                    assert(product_in_steps(text, from) == Ok::<_, Failure>((left, a + b)));
                    assert(finish(text, pending, Tier::Primary, first, from + a) == finish(
                        text,
                        pending,
                        Tier::Product,
                        left,
                        from + a + b,
                    ));
                    match sum_rest(text, from + a + b, left) {
                        Ok((whole, c)) => {
                            assert(sum_in_steps(text, from) == Ok::<_, Failure>(
                                (whole, a + b + c),
                            ));
                            assert(finish(text, pending, Tier::Product, left, from + a + b)
                                == finish(text, pending, Tier::Sum, whole, from + a + b + c));
                        },
                        Err(failure) => {
                            assert(sum_in_steps(text, from) == Err::<(Expr, nat), _>(failure));
                        },
                    }
                },
                Err(failure) => {
                    assert(product_in_steps(text, from) == Err::<(Expr, nat), _>(failure));
                },
            }
        },
        Err(failure) => {},
    }
}

/// Reading a text is reading a primary term with nothing pending.
pub proof fn reading_starts_with_nothing_pending(text: Seq<u8>)
    ensures
        parsed(text) == expect(text, Seq::<Pending>::empty(), 0),
{
    primary_starts_sum(text, Seq::<Pending>::empty(), 0);
}

/// A number is a primary term.
pub proof fn number_is_expected(text: Seq<u8>, pending: Seq<Pending>, at: nat)
    requires
        at <= text.len(),
        scan(text, at) matches Scan::Found(token) && token.kind == Symbol::Number,
    ensures
        expect(text, pending, at) == finish(
            text,
            pending,
            Tier::Primary,
            Expr::Literal(literal(text, scan(text, at)->Found_0)),
            scan(text, at)->Found_0.end,
        ),
{
    scan_advances(text, at);
}

/// A sign is pending while the primary term under it is read.
pub proof fn sign_is_pending(text: Seq<u8>, pending: Seq<Pending>, at: nat)
    requires
        at <= text.len(),
        scan(text, at) matches Scan::Found(token) && (token.kind == Symbol::Minus || token.kind
            == Symbol::Plus),
    ensures
        expect(text, pending, at) == expect(
            text,
            pending.push(Pending::Sign { negate: scan(text, at)->Found_0.kind == Symbol::Minus }),
            scan(text, at)->Found_0.end,
        ),
{
    scan_advances(text, at);
    let token = scan(text, at)->Found_0;
    let inner = pending.push(Pending::Sign { negate: token.kind == Symbol::Minus });
    assert(inner.drop_last() =~= pending);
}

/// A parenthesis is pending while the sum inside it is read.
pub proof fn parenthesis_is_pending(text: Seq<u8>, pending: Seq<Pending>, at: nat)
    requires
        at <= text.len(),
        scan(text, at) matches Scan::Found(token) && token.kind == Symbol::Open,
    ensures
        expect(text, pending, at) == expect(
            text,
            pending.push(Pending::Paren),
            scan(text, at)->Found_0.end,
        ),
{
    scan_advances(text, at);
    let token = scan(text, at)->Found_0;
    let inner = pending.push(Pending::Paren);
    assert(inner.drop_last() =~= pending);
    primary_starts_sum(text, inner, token.end);
    match sum(text, token.end) {
        Ok((whole, length)) => {
            let inside = token.end + length;
            match scan(text, inside) {
                Scan::Found(close) if close.kind == Symbol::Close => {
                    if inside <= text.len() {
                        scan_advances(text, inside);
                    }
                    assert(primary(text, at) == Ok::<_, Failure>((whole, (close.end - at) as nat)));
                },
                other => {},
            }
        },
        Err(failure) => {},
    }
}

/// Anything else is no primary term.
pub proof fn nothing_else_is_expected(text: Seq<u8>, pending: Seq<Pending>, at: nat)
    requires
        !(scan(text, at) matches Scan::Found(token) && (token.kind == Symbol::Number || token.kind
            == Symbol::Minus || token.kind == Symbol::Plus || token.kind == Symbol::Open)),
    ensures
        expect(text, pending, at) == Err::<Expr, _>(unexpected(scan(text, at), at)),
{
}

/// The left operand and the operator of a product are pending while the
/// primary term on the right is read.
pub proof fn factor_is_pending(text: Seq<u8>, pending: Seq<Pending>, left: Expr, at: nat)
    requires
        at <= text.len(),
        scan(text, at) matches Scan::Found(token) && multiplicative(token.kind) is Some,
    ensures
        after_factor(text, pending, left, at) == expect(
            text,
            pending.push(
                Pending::Factor { left, operator: multiplicative(scan(text, at)->Found_0.kind)->0 },
            ),
            scan(text, at)->Found_0.end,
        ),
{
    scan_advances(text, at);
    let token = scan(text, at)->Found_0;
    let operator = multiplicative(token.kind)->0;
    let inner = pending.push(Pending::Factor { left, operator });
    assert(inner.drop_last() =~= pending);
    match primary(text, token.end) {
        Ok((right, a)) => {
            let both = Expr::Binary(operator, Box::new(left), Box::new(right));
            match product_rest(text, token.end + a, both) {
                Ok((whole, b)) => {
                    assert(product_rest(text, at, left) == Ok::<_, Failure>(
                        (whole, b + ((token.end - at) as nat + a)),
                    ));
                },
                Err(failure) => {},
            }
        },
        Err(failure) => {},
    }
}

/// Where no operator of the higher tier follows, the product is complete.
pub proof fn product_is_complete(text: Seq<u8>, pending: Seq<Pending>, left: Expr, at: nat)
    requires
        !(scan(text, at) matches Scan::Found(token) && multiplicative(token.kind) is Some),
    ensures
        after_factor(text, pending, left, at) == finish(text, pending, Tier::Product, left, at),
{
}

/// The left operand and the operator of a sum are pending while the product
/// on the right is read.
pub proof fn term_is_pending(text: Seq<u8>, pending: Seq<Pending>, left: Expr, at: nat)
    requires
        at <= text.len(),
        scan(text, at) matches Scan::Found(token) && additive(token.kind) is Some,
    ensures
        after_term(text, pending, left, at) == expect(
            text,
            pending.push(Pending::Term { left, operator: additive(scan(text, at)->Found_0.kind)->0 }),
            scan(text, at)->Found_0.end,
        ),
{
    scan_advances(text, at);
    let token = scan(text, at)->Found_0;
    let operator = additive(token.kind)->0;
    let start = token.end;
    let inner = pending.push(Pending::Term { left, operator });
    assert(inner.drop_last() =~= pending);
    product_is_its_steps(text, start);
    match primary(text, start) {
        Ok((first, a)) => {
            match product_rest(text, start + a, first) {
                Ok((right, b)) => {
                    assert(product_in_steps(text, start) == Ok::<_, Failure>((right, a + b)));
                    assert(finish(text, inner, Tier::Primary, first, start + a) == finish(
                        text,
                        inner,
                        Tier::Product,
                        right,
                        start + a + b,
                    ));
                    let both = Expr::Binary(operator, Box::new(left), Box::new(right));
                    match sum_rest(text, start + a + b, both) {
                        Ok((whole, c)) => {
                            assert(sum_rest(text, at, left) == Ok::<_, Failure>(
                                (whole, c + ((start - at) as nat + (a + b))),
                            ));
                        },
                        Err(failure) => {
                            assert(sum_rest(text, at, left) == Err::<(Expr, nat), _>(failure));
                        },
                    }
                },
                Err(failure) => {
                    assert(product_in_steps(text, start) == Err::<(Expr, nat), _>(failure));
                    assert(sum_rest(text, at, left) == Err::<(Expr, nat), _>(failure));
                },
            }
        },
        Err(failure) => {
            assert(sum_rest(text, at, left) == Err::<(Expr, nat), _>(failure));
        },
    }
}

/// Where no operator of the lower tier follows, the sum is complete.
pub proof fn sum_is_complete(text: Seq<u8>, pending: Seq<Pending>, left: Expr, at: nat)
    requires
        !(scan(text, at) matches Scan::Found(token) && additive(token.kind) is Some),
    ensures
        after_term(text, pending, left, at) == finish(text, pending, Tier::Sum, left, at),
{
}

} // verus!
