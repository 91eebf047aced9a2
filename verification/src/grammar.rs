//! The grammar of expressions, and the value of an expression.

use crate::converter::operand;
use crate::lexer::as_chars;
use crate::lexer::scan;
use crate::lexer::scan_advances;
use crate::lexer::Lexeme;
use crate::lexer::Scan;
use crate::lexer::Symbol;
use crate::number::Term;
use crate::table::Rule;
use crate::value::Quantity;
use vstd::prelude::*;

verus! {

/// The binary operators of the expression language.
pub enum Operator {
    Add,
    Sub,
    Mul,
    Div,
    Rem,
}

/// The tiers of the grammar, from the loosest to the tightest.
pub enum Tier {
    Sum,
    Product,
    Primary,
}

/// An expression, as the grammar reads it.
pub enum Expr {
    /// A number literal with the unit attached to it, if any.
    Literal(Quantity),
    /// A primary term under a minus sign.
    Negate(Box<Expr>),
    Binary(Operator, Box<Expr>, Box<Expr>),
}

/// Why a text is no expression.
pub enum Failure {
    /// The byte at `location` starts no token.
    InvalidToken { location: nat },
    /// The text ends where the grammar wants more; `location` is the end of
    /// the last token.
    UnrecognizedEof { location: nat },
    /// The grammar has no use for this token where it stands.
    UnrecognizedToken { token: Lexeme },
}

/// An expression read from a text together with the number of bytes read,
/// or the reason why none could be read.
pub type Phrase = Result<(Expr, nat), Failure>;

/// The value that a number token stands for.
pub open spec fn literal(text: Seq<u8>, token: Lexeme) -> Quantity {
    Quantity {
        number: Term::Decimal(text.subrange(token.start as int, token.split as int)),
        unit: if token.split == token.end {
            None
        } else {
            Some(as_chars(text.subrange(token.split as int, token.end as int)))
        },
    }
}

/// The failure to report when `next`, found by a scan from `from`, is not
/// what the grammar wants there.
pub open spec fn unexpected(next: Scan, from: nat) -> Failure {
    match next {
        Scan::Found(token) => Failure::UnrecognizedToken { token },
        Scan::End => Failure::UnrecognizedEof { location: from },
        Scan::Invalid(location) => Failure::InvalidToken { location },
    }
}

/// `phrase` with `by` more bytes counted as read.
pub open spec fn longer(phrase: Phrase, by: nat) -> Phrase {
    match phrase {
        Ok((expr, length)) => Ok((expr, length + by)),
        Err(failure) => Err(failure),
    }
}

/// The operator of the lower tier that a token stands for.
pub open spec fn additive(kind: Symbol) -> Option<Operator> {
    match kind {
        Symbol::Plus => Some(Operator::Add),
        Symbol::Minus => Some(Operator::Sub),
        _ => None,
    }
}

/// The operator of the higher tier that a token stands for.
pub open spec fn multiplicative(kind: Symbol) -> Option<Operator> {
    match kind {
        Symbol::Times => Some(Operator::Mul),
        Symbol::Divide => Some(Operator::Div),
        Symbol::Modulo => Some(Operator::Rem),
        _ => None,
    }
}

/// Number of bytes of `text` from `from` on.
pub open spec fn left_over(text: Seq<u8>, from: nat) -> nat {
    if from <= text.len() {
        (text.len() - from) as nat
    } else {
        0
    }
}

/// A primary term at `from`: a number, a primary term under a sign, or a sum
/// in parentheses.
pub open spec fn primary(text: Seq<u8>, from: nat) -> Phrase
    decreases left_over(text, from), 0nat,
{
    match scan(text, from) {
        Scan::Found(token) => {
            proof {
                if from <= text.len() {
                    scan_advances(text, from);
                }
            }
            let taken = (token.end - from) as nat;
            match token.kind {
                Symbol::Number => Ok((Expr::Literal(literal(text, token)), taken)),
                Symbol::Minus => match primary(text, token.end) {
                    Ok((inner, length)) => Ok((Expr::Negate(Box::new(inner)), taken + length)),
                    Err(failure) => Err(failure),
                },
                Symbol::Plus => longer(primary(text, token.end), taken),
                Symbol::Open => match sum(text, token.end) {
                    Ok((inner, length)) => {
                        let inside = token.end + length;
                        match scan(text, inside) {
                            Scan::Found(close) if close.kind == Symbol::Close => Ok(
                                (inner, (close.end - from) as nat),
                            ),
                            other => Err(unexpected(other, inside)),
                        }
                    },
                    Err(failure) => Err(failure),
                },
                _ => Err(Failure::UnrecognizedToken { token }),
            }
        },
        other => Err(unexpected(other, from)),
    }
}

/// What follows a product whose value so far is `left`: operators of the
/// higher tier, each with a primary term, taken from left to right.
pub open spec fn product_rest(text: Seq<u8>, from: nat, left: Expr) -> Phrase
    decreases left_over(text, from), 0nat,
{
    match scan(text, from) {
        Scan::Found(token) if multiplicative(token.kind) is Some => {
            proof {
                if from <= text.len() {
                    scan_advances(text, from);
                }
            }
            let taken = (token.end - from) as nat;
            match primary(text, token.end) {
                Ok((right, length)) => longer(
                    product_rest(
                        text,
                        token.end + length,
                        Expr::Binary(multiplicative(token.kind)->0, Box::new(left), Box::new(right)),
                    ),
                    taken + length,
                ),
                Err(failure) => Err(failure),
            }
        },
        _ => Ok((left, 0)),
    }
}

/// A product at `from`.
pub open spec fn product(text: Seq<u8>, from: nat) -> Phrase
    decreases left_over(text, from), 1nat,
{
    match primary(text, from) {
        Ok((left, length)) => longer(product_rest(text, from + length, left), length),
        Err(failure) => Err(failure),
    }
}

/// What follows a sum whose value so far is `left`: operators of the lower
/// tier, each with a product, taken from left to right.
pub open spec fn sum_rest(text: Seq<u8>, from: nat, left: Expr) -> Phrase
    decreases left_over(text, from), 0nat,
{
    match scan(text, from) {
        Scan::Found(token) if additive(token.kind) is Some => {
            proof {
                if from <= text.len() {
                    scan_advances(text, from);
                }
            }
            let taken = (token.end - from) as nat;
            match product(text, token.end) {
                Ok((right, length)) => longer(
                    sum_rest(
                        text,
                        token.end + length,
                        Expr::Binary(additive(token.kind)->0, Box::new(left), Box::new(right)),
                    ),
                    taken + length,
                ),
                Err(failure) => Err(failure),
            }
        },
        _ => Ok((left, 0)),
    }
}

/// A sum at `from`.
pub open spec fn sum(text: Seq<u8>, from: nat) -> Phrase
    decreases left_over(text, from), 2nat,
{
    match product(text, from) {
        Ok((left, length)) => longer(sum_rest(text, from + length, left), length),
        Err(failure) => Err(failure),
    }
}

/// The expression that `text` spells: a sum that takes up the whole text.
pub open spec fn parsed(text: Seq<u8>) -> Result<Expr, Failure> {
    match sum(text, 0) {
        Ok((expr, length)) => match scan(text, length) {
            Scan::End => Ok(expr),
            other => Err(unexpected(other, length)),
        },
        Err(failure) => Err(failure),
    }
}

/// What `operator` yields for two quantities under `table`.
pub open spec fn combined(table: Seq<Rule>, operator: Operator, left: Quantity, right: Quantity) -> Quantity {
    let right = operand(table, left, right);
    match operator {
        Operator::Add => left.plus(right),
        Operator::Sub => left.minus(right),
        Operator::Mul => left.times(right),
        Operator::Div => left.over(right),
        Operator::Rem => left.modulo(right),
    }
}

/// The value of an expression under `table`.
pub open spec fn value_of(table: Seq<Rule>, expr: Expr) -> Quantity
    decreases expr,
{
    match expr {
        Expr::Literal(quantity) => quantity,
        Expr::Negate(inner) => value_of(table, *inner).negated(),
        Expr::Binary(operator, left, right) => combined(
            table,
            operator,
            value_of(table, *left),
            value_of(table, *right),
        ),
    }
}

/// Whatever the operator and the right operand, the result has the unit of
/// the left operand.
pub proof fn operation_keeps_left_unit(
    table: Seq<Rule>,
    operator: Operator,
    left: Quantity,
    right: Quantity,
)
    ensures
        combined(table, operator, left, right).unit == left.unit,
{
}

/// Whether what a failure points at lies in `text`.
pub open spec fn points_into(text: Seq<u8>, failure: Failure) -> bool {
    match failure {
        Failure::InvalidToken { location } => location < text.len(),
        Failure::UnrecognizedEof { location } => location <= text.len(),
        Failure::UnrecognizedToken { token } => token.start < token.end <= text.len(),
    }
}

/// Whether a phrase read at `from` lies in `text`, or the failure to read it
/// points into `text`.
pub open spec fn lies_within(text: Seq<u8>, from: nat, phrase: Phrase) -> bool {
    match phrase {
        Ok((_, length)) => from + length <= text.len(),
        Err(failure) => points_into(text, failure),
    }
}

/// The failure for something unexpected points into the text.
pub proof fn unexpected_points_into(text: Seq<u8>, from: nat)
    requires
        from <= text.len(),
    ensures
        points_into(text, unexpected(scan(text, from), from)),
{
    scan_advances(text, from);
}

/// A primary term lies within the text and is not empty.
pub proof fn primary_lies_within(text: Seq<u8>, from: nat)
    requires
        from <= text.len(),
    ensures
        lies_within(text, from, primary(text, from)),
        primary(text, from) matches Ok((_, length)) ==> length > 0,
    decreases left_over(text, from), 0nat,
{
    scan_advances(text, from);
    unexpected_points_into(text, from);
    if let Scan::Found(token) = scan(text, from) {
        match token.kind {
            Symbol::Minus => {
                primary_lies_within(text, token.end);
            },
            Symbol::Plus => {
                primary_lies_within(text, token.end);
            },
            Symbol::Open => {
                sum_lies_within(text, token.end);
                if let Ok((_, length)) = sum(text, token.end) {
                    scan_advances(text, token.end + length);
                    unexpected_points_into(text, token.end + length);
                }
            },
            _ => {},
        }
    }
}

/// What continues a product lies within the text.
pub proof fn product_rest_lies_within(text: Seq<u8>, from: nat, left: Expr)
    requires
        from <= text.len(),
    ensures
        lies_within(text, from, product_rest(text, from, left)),
    decreases left_over(text, from), 0nat,
{
    scan_advances(text, from);
    if let Scan::Found(token) = scan(text, from) {
        if multiplicative(token.kind) is Some {
            primary_lies_within(text, token.end);
            if let Ok((right, length)) = primary(text, token.end) {
                product_rest_lies_within(
                    text,
                    token.end + length,
                    Expr::Binary(multiplicative(token.kind)->0, Box::new(left), Box::new(right)),
                );
            }
        }
    }
}

/// A product lies within the text and is not empty.
pub proof fn product_lies_within(text: Seq<u8>, from: nat)
    requires
        from <= text.len(),
    ensures
        lies_within(text, from, product(text, from)),
        product(text, from) matches Ok((_, length)) ==> length > 0,
    decreases left_over(text, from), 1nat,
{
    primary_lies_within(text, from);
    if let Ok((left, length)) = primary(text, from) {
        product_rest_lies_within(text, from + length, left);
    }
}

/// What continues a sum lies within the text.
pub proof fn sum_rest_lies_within(text: Seq<u8>, from: nat, left: Expr)
    requires
        from <= text.len(),
    ensures
        lies_within(text, from, sum_rest(text, from, left)),
    decreases left_over(text, from), 0nat,
{
    scan_advances(text, from);
    if let Scan::Found(token) = scan(text, from) {
        if additive(token.kind) is Some {
            product_lies_within(text, token.end);
            if let Ok((right, length)) = product(text, token.end) {
                sum_rest_lies_within(
                    text,
                    token.end + length,
                    Expr::Binary(additive(token.kind)->0, Box::new(left), Box::new(right)),
                );
            }
        }
    }
}

/// A sum lies within the text and is not empty.
pub proof fn sum_lies_within(text: Seq<u8>, from: nat)
    requires
        from <= text.len(),
    ensures
        lies_within(text, from, sum(text, from)),
        sum(text, from) matches Ok((_, length)) ==> length > 0,
    decreases left_over(text, from), 2nat,
{
    product_lies_within(text, from);
    if let Ok((left, length)) = product(text, from) {
        sum_rest_lies_within(text, from + length, left);
    }
}

/// Where a text is no expression, the failure points into the text: at a
/// byte of it, at a token of it, or at the end of its last token.
pub proof fn failure_points_into_text(text: Seq<u8>)
    ensures
        parsed(text) matches Err(failure) ==> points_into(text, failure),
{
    sum_lies_within(text, 0);
    if let Ok((_, length)) = sum(text, 0) {
        unexpected_points_into(text, length);
    }
}

} // verus!
