//! Evaluating an expression in one pass over the input, from left to right,
//! with a stack of what is pending.

use crate::converter::Converter;
use crate::grammar::combined;
use crate::grammar::literal;
use crate::grammar::parsed;
use crate::grammar::unexpected;
use crate::grammar::value_of;
use crate::grammar::Expr;
use crate::grammar::Failure;
use crate::grammar::Operator;
use crate::grammar::Tier;
use crate::lexer::as_chars;
use crate::lexer::next_token;
use crate::lexer::scan_advances;
use crate::lexer::Scanned;
use crate::lexer::Symbol;
use crate::lexer::Token;
use crate::number::Number;
use crate::pending::after_factor;
use crate::pending::after_term;
use crate::pending::expect;
use crate::pending::factor_is_pending;
use crate::pending::finish;
use crate::pending::nothing_else_is_expected;
use crate::pending::number_is_expected;
use crate::pending::parenthesis_is_pending;
use crate::pending::product_is_complete;
use crate::pending::reading_starts_with_nothing_pending;
use crate::pending::sign_is_pending;
use crate::pending::signed;
use crate::pending::sum_is_complete;
use crate::pending::term_is_pending;
use crate::pending::Pending;
use crate::table::Rule;
use crate::unit::Unit;
use crate::value::Value;
use std::ops::Neg;
use vstd::prelude::*;
use vstd::string::StringSliceAdditionalSpecFns;

verus! {

/// `String::push` appends the character to the end of the string.
pub assume_specification[ String::push ](text: &mut String, ch: char)
    ensures
        final(text)@ == old(text)@.push(ch),
;

/// Why an input is no expression. Offsets count bytes of the input.
#[derive(Clone, Copy, Debug, PartialEq, Eq, Structural)]
pub enum ParseError {
    /// The byte at `location` starts no token.
    InvalidToken { location: usize },
    /// The input ends where the grammar wants more; `location` is the end of
    /// the last token.
    UnrecognizedEof { location: usize },
    /// The grammar has no use for this token where it stands.
    UnrecognizedToken { token: Token },
}

impl View for ParseError {
    type V = Failure;

    open spec fn view(&self) -> Failure {
        match self {
            ParseError::InvalidToken { location } => Failure::InvalidToken { location: *location as nat },
            ParseError::UnrecognizedEof { location } => Failure::UnrecognizedEof {
                location: *location as nat,
            },
            ParseError::UnrecognizedToken { token } => Failure::UnrecognizedToken { token: token@ },
        }
    }
}

/// The error for a scan that found something the grammar has no use for.
fn refuse(next: Scanned, from: usize) -> (error: ParseError)
    ensures
        error@ == unexpected(next@, from as nat),
{
    match next {
        Scanned::Found(token) => ParseError::UnrecognizedToken { token },
        Scanned::End => ParseError::UnrecognizedEof { location: from },
        Scanned::Invalid(location) => ParseError::InvalidToken { location },
    }
}

/// Applies `operator` to two values under the converter's table.
fn apply(table: &Converter, operator: Operator, left: Value, right: Value) -> (value: Value)
    ensures
        value@ == combined(table@, operator, left@, right@),
{
    match operator {
        Operator::Add => table.add(left, right),
        Operator::Sub => table.sub(left, right),
        Operator::Mul => table.mul(left, right),
        Operator::Div => table.div(left, right),
        Operator::Rem => table.rem(left, right),
    }
}

/// The value of a number token.
fn read_literal(bytes: &[u8], token: Token) -> (value: Value)
    requires
        token.start <= token.split <= token.end <= bytes@.len(),
    ensures
        value@ == literal(bytes@, token@),
{
    let mut digits: Vec<u8> = Vec::new();
    let mut index = token.start;
    while index < token.split
        invariant
            token.start <= index <= token.split <= bytes@.len(),
            digits@ == bytes@.subrange(token.start as int, index as int),
        decreases token.split - index,
    {
        digits.push(bytes[index]);
        index += 1;
        assert(digits@ =~= bytes@.subrange(token.start as int, index as int));
    }
    let unit = if token.split == token.end {
        None
    } else {
        let mut name = String::new();
        let mut index = token.split;
        while index < token.end
            invariant
                token.split <= index <= token.end <= bytes@.len(),
                name@ == as_chars(bytes@.subrange(token.split as int, index as int)),
            decreases token.end - index,
        {
            name.push(bytes[index] as char);
            index += 1;
            assert(name@ =~= as_chars(bytes@.subrange(token.split as int, index as int)));
        }
        Some(Unit(name))
    };
    Value { number: Number::Decimal(digits), unit }
}

/// What the evaluator keeps of a phrase while it reads the phrase inside
/// it; see [`Pending`].
enum Frame {
    Sign(bool),
    Factor(Value, Operator),
    Term(Value, Operator),
    Paren,
}

/// How far the evaluator is with the phrase that it reads.
enum Stage {
    /// A primary term is to follow.
    Expect,
    /// A primary term has been read.
    Primary(Value),
    /// A product has been read that may go on.
    Factor(Value),
    /// A product has been read whole.
    Product(Value),
    /// A sum has been read that may go on.
    Term(Value),
    /// A sum has been read whole.
    Sum(Value),
}

/// Whether `frame` holds the value of what is pending.
spec fn keeps(table: Seq<Rule>, frame: Frame, pending: Pending) -> bool {
    match frame {
        Frame::Sign(negate) => pending == (Pending::Sign { negate }),
        Frame::Factor(value, operator) => pending matches Pending::Factor { left, operator: same }
            && same == operator && value@ == value_of(table, left),
        Frame::Term(value, operator) => pending matches Pending::Term { left, operator: same }
            && same == operator && value@ == value_of(table, left),
        Frame::Paren => pending == Pending::Paren,
    }
}

/// Whether the frames hold the values of all that is pending.
spec fn keep(table: Seq<Rule>, frames: Seq<Frame>, pending: Seq<Pending>) -> bool {
    &&& frames.len() == pending.len()
    &&& forall|i: int| 0 <= i < frames.len() ==> keeps(table, #[trigger] frames[i], pending[i])
}

/// The outcome of the reading as it stands at `stage`.
spec fn outlook(text: Seq<u8>, pending: Seq<Pending>, stage: Stage, expr: Expr, at: nat) -> Result<
    Expr,
    Failure,
> {
    match stage {
        Stage::Expect => expect(text, pending, at),
        Stage::Primary(_) => finish(text, pending, Tier::Primary, expr, at),
        Stage::Factor(_) => after_factor(text, pending, expr, at),
        Stage::Product(_) => finish(text, pending, Tier::Product, expr, at),
        Stage::Term(_) => after_term(text, pending, expr, at),
        Stage::Sum(_) => finish(text, pending, Tier::Sum, expr, at),
    }
}

/// Whether the value that the stage holds is the value of `expr`.
spec fn carries(table: Seq<Rule>, stage: Stage, expr: Expr) -> bool {
    match stage {
        Stage::Expect => true,
        Stage::Primary(value) | Stage::Factor(value) | Stage::Product(value) | Stage::Term(value)
        | Stage::Sum(value) => value@ == value_of(table, expr),
    }
}

/// How many stages lie between `stage` and a sum that has been read whole.
spec fn stages_left(stage: Stage) -> nat {
    match stage {
        Stage::Expect => 5,
        Stage::Primary(_) => 4,
        Stage::Factor(_) => 3,
        Stage::Product(_) => 2,
        Stage::Term(_) => 1,
        Stage::Sum(_) => 0,
    }
}

/// Evaluates the expression that `input` spells, under the converter's
/// table. An input that is no expression yields the error that says where
/// it stops being one, and no value.
#[verifier::rlimit(50)]
pub fn evaluate(table: &Converter, input: &str) -> (outcome: Result<Value, ParseError>)
    ensures
        match parsed(input.spec_bytes()) {
            Ok(expr) => outcome matches Ok(value) && value@ == value_of(table@, expr),
            Err(failure) => outcome matches Err(error) && error@ == failure,
        },
{
    let bytes = input.as_bytes();
    let ghost text = bytes@;
    let mut frames: Vec<Frame> = Vec::new();
    let mut stage = Stage::Expect;
    let mut at: usize = 0;
    let ghost mut pending = Seq::<Pending>::empty();
    let ghost mut expr: Expr = arbitrary();
    proof {
        reading_starts_with_nothing_pending(text);
    }
    loop
        invariant
            text == bytes@,
            text == input.spec_bytes(),
            at <= text.len(),
            keep(table@, frames@, pending),
            carries(table@, stage, expr),
            outlook(text, pending, stage, expr, at as nat) == parsed(text),
        decreases text.len() - at, frames@.len(), stages_left(stage),
    {
        proof {
            scan_advances(text, at as nat);
        }
        stage = match stage {
            Stage::Expect => {
                let next = next_token(bytes, at);
                match next {
                    Scanned::Found(token) => match token.kind {
                        Symbol::Number => {
                            proof {
                                number_is_expected(text, pending, at as nat);
                                expr = Expr::Literal(literal(text, token@));
                            }
                            at = token.end;
                            Stage::Primary(read_literal(bytes, token))
                        },
                        Symbol::Minus | Symbol::Plus => {
                            let negate = match token.kind {
                                Symbol::Minus => true,
                                _ => false,
                            };
                            proof {
                                sign_is_pending(text, pending, at as nat);
                                pending = pending.push(Pending::Sign { negate });
                            }
                            frames.push(Frame::Sign(negate));
                            at = token.end;
                            Stage::Expect
                        },
                        Symbol::Open => {
                            proof {
                                parenthesis_is_pending(text, pending, at as nat);
                                pending = pending.push(Pending::Paren);
                            }
                            frames.push(Frame::Paren);
                            at = token.end;
                            Stage::Expect
                        },
                        _ => {
                            proof {
                                nothing_else_is_expected(text, pending, at as nat);
                            }
                            return Err(refuse(next, at));
                        },
                    },
                    _ => {
                        proof {
                            nothing_else_is_expected(text, pending, at as nat);
                        }
                        return Err(refuse(next, at));
                    },
                }
            },
            Stage::Primary(value) => {
                let ghost outer = pending.drop_last();
                let ghost held = frames@;
                match frames.pop() {
                    Some(Frame::Sign(negate)) => {
                        proof {
                            expr = signed(negate, expr);
                            pending = outer;
                        }
                        if negate {
                            Stage::Primary(value.neg())
                        } else {
                            Stage::Primary(value)
                        }
                    },
                    Some(Frame::Factor(left, operator)) => {
                        proof {
                            expr = Expr::Binary(
                                operator,
                                Box::new(pending.last()->Factor_left),
                                Box::new(expr),
                            );
                            pending = outer;
                        }
                        Stage::Factor(apply(table, operator, left, value))
                    },
                    Some(frame) => {
                        frames.push(frame);
                        assert(frames@ =~= held);
                        Stage::Factor(value)
                    },
                    None => Stage::Factor(value),
                }
            },
            Stage::Factor(value) => {
                let next = next_token(bytes, at);
                let operator = match next {
                    Scanned::Found(token) => match token.kind {
                        Symbol::Times => Some((token, Operator::Mul)),
                        Symbol::Divide => Some((token, Operator::Div)),
                        Symbol::Modulo => Some((token, Operator::Rem)),
                        _ => None,
                    },
                    _ => None,
                };
                match operator {
                    Some((token, operator)) => {
                        proof {
                            factor_is_pending(text, pending, expr, at as nat);
                            pending = pending.push(Pending::Factor { left: expr, operator });
                        }
                        frames.push(Frame::Factor(value, operator));
                        at = token.end;
                        Stage::Expect
                    },
                    None => {
                        proof {
                            product_is_complete(text, pending, expr, at as nat);
                        }
                        Stage::Product(value)
                    },
                }
            },
            Stage::Product(value) => {
                let ghost outer = pending.drop_last();
                let ghost held = frames@;
                match frames.pop() {
                    Some(Frame::Term(left, operator)) => {
                        proof {
                            expr = Expr::Binary(
                                operator,
                                Box::new(pending.last()->Term_left),
                                Box::new(expr),
                            );
                            pending = outer;
                        }
                        Stage::Term(apply(table, operator, left, value))
                    },
                    Some(frame) => {
                        frames.push(frame);
                        assert(frames@ =~= held);
                        Stage::Term(value)
                    },
                    None => Stage::Term(value),
                }
            },
            Stage::Term(value) => {
                let next = next_token(bytes, at);
                let operator = match next {
                    Scanned::Found(token) => match token.kind {
                        Symbol::Plus => Some((token, Operator::Add)),
                        Symbol::Minus => Some((token, Operator::Sub)),
                        _ => None,
                    },
                    _ => None,
                };
                match operator {
                    Some((token, operator)) => {
                        proof {
                            term_is_pending(text, pending, expr, at as nat);
                            pending = pending.push(Pending::Term { left: expr, operator });
                        }
                        frames.push(Frame::Term(value, operator));
                        at = token.end;
                        Stage::Expect
                    },
                    None => {
                        proof {
                            sum_is_complete(text, pending, expr, at as nat);
                        }
                        Stage::Sum(value)
                    },
                }
            },
            Stage::Sum(value) => {
                let ghost outer = pending.drop_last();
                let next = next_token(bytes, at);
                match frames.pop() {
                    Some(Frame::Paren) => match next {
                        Scanned::Found(close) if close.kind == Symbol::Close => {
                            proof {
                                pending = outer;
                            }
                            at = close.end;
                            Stage::Primary(value)
                        },
                        _ => {
                            return Err(refuse(next, at));
                        },
                    },
                    _ => match next {
                        Scanned::End => {
                            return Ok(value);
                        },
                        _ => {
                            return Err(refuse(next, at));
                        },
                    },
                }
            },
        };
    }
}

/// The parser of expressions.
#[derive(Clone, Copy, Debug)]
pub struct ExpressionParser;

impl ExpressionParser {
    pub fn new() -> (parser: ExpressionParser) {
        ExpressionParser
    }

    /// Same as [`evaluate`].
    pub fn parse(&self, table: &Converter, input: &str) -> (outcome: Result<Value, ParseError>)
        ensures
            match parsed(input.spec_bytes()) {
                Ok(expr) => outcome matches Ok(value) && value@ == value_of(table@, expr),
                Err(failure) => outcome matches Err(error) && error@ == failure,
            },
    {
        evaluate(table, input)
    }
}

} // verus!
