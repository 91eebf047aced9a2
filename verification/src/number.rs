//! Numbers, held as the arithmetic that yields them.

use std::sync::Arc;
use vstd::prelude::*;

verus! {

/// The arithmetic that yields a number: binary64 operations over leaves that
/// are given exactly. This is the mathematical model of [`Number`].
pub enum Term {
    /// The binary64 value with this bit pattern.
    Bits(u64),
    /// The binary64 value nearest to this decimal text.
    Decimal(Seq<u8>),
    Neg(Box<Term>),
    Add(Box<Term>, Box<Term>),
    Sub(Box<Term>, Box<Term>),
    Mul(Box<Term>, Box<Term>),
    Div(Box<Term>, Box<Term>),
    Rem(Box<Term>, Box<Term>),
    Pow(Box<Term>, Box<Term>),
}

/// A number, held as the arithmetic that yields it. Every operation of this
/// library on numbers builds a larger `Number`; carrying the arithmetic out in
/// binary64 is left to the caller. Operands are shared: a number that occurs
/// twice in the arithmetic is stored once.
#[derive(Debug)]
pub enum Number {
    /// The binary64 value with this bit pattern.
    Bits(u64),
    /// The binary64 value nearest to this decimal text.
    Decimal(Vec<u8>),
    Neg(Arc<Number>),
    Add(Arc<Number>, Arc<Number>),
    Sub(Arc<Number>, Arc<Number>),
    Mul(Arc<Number>, Arc<Number>),
    Div(Arc<Number>, Arc<Number>),
    Rem(Arc<Number>, Arc<Number>),
    Pow(Arc<Number>, Arc<Number>),
}

/// Bit pattern of the binary64 value 1.
pub const ONE: u64 = 0x3FF0_0000_0000_0000;

/// Bit pattern of the binary64 value 100.
pub const HUNDRED: u64 = 0x4059_0000_0000_0000;

impl Number {
    /// The arithmetic this number stands for.
    pub open spec fn term(&self) -> Term
        decreases self,
    {
        match self {
            Number::Bits(bits) => Term::Bits(*bits),
            Number::Decimal(text) => Term::Decimal(text@),
            Number::Neg(x) => Term::Neg(Box::new(x.term())),
            Number::Add(x, y) => Term::Add(Box::new(x.term()), Box::new(y.term())),
            Number::Sub(x, y) => Term::Sub(Box::new(x.term()), Box::new(y.term())),
            Number::Mul(x, y) => Term::Mul(Box::new(x.term()), Box::new(y.term())),
            Number::Div(x, y) => Term::Div(Box::new(x.term()), Box::new(y.term())),
            Number::Rem(x, y) => Term::Rem(Box::new(x.term()), Box::new(y.term())),
            Number::Pow(x, y) => Term::Pow(Box::new(x.term()), Box::new(y.term())),
        }
    }
}

impl View for Number {
    type V = Term;

    open spec fn view(&self) -> Term {
        self.term()
    }
}

impl Term {
    /// The reciprocal `1 / self`.
    pub open spec fn reciprocal(self) -> Term {
        Term::Div(Box::new(Term::Bits(ONE)), Box::new(self))
    }

    /// The fraction `self / 100`.
    pub open spec fn hundredth(self) -> Term {
        Term::Div(Box::new(self), Box::new(Term::Bits(HUNDRED)))
    }

    /// The product `self * other`.
    pub open spec fn times(self, other: Term) -> Term {
        Term::Mul(Box::new(self), Box::new(other))
    }
}

impl Number {
    /// The reciprocal `1 / self`.
    pub fn reciprocal(self) -> (quotient: Number)
        ensures
            quotient@ == self@.reciprocal(),
    {
        proof {
            reveal_with_fuel(Number::term, 2);
        }
        Number::Div(Arc::new(Number::Bits(ONE)), Arc::new(self))
    }

    /// The fraction `self / 100`.
    pub fn hundredth(self) -> (quotient: Number)
        ensures
            quotient@ == self@.hundredth(),
    {
        proof {
            reveal_with_fuel(Number::term, 2);
        }
        Number::Div(Arc::new(self), Arc::new(Number::Bits(HUNDRED)))
    }

    /// The product `self * other`.
    pub fn times(self, other: Number) -> (product: Number)
        ensures
            product@ == self@.times(other@),
    {
        Number::Mul(Arc::new(self), Arc::new(other))
    }
}

/// `<Arc<T> as Clone>::clone`: another pointer to the same allocation, and
/// so to the same number.
#[verifier::external_body]
fn share(number: &Arc<Number>) -> (other: Arc<Number>)
    ensures
        other == *number,
{
    Arc::clone(number)
}

impl Clone for Number {
    /// The copy shares the operands of `self`; only a leaf is copied.
    fn clone(&self) -> (copy: Number)
        ensures
            copy@ == self@,
    {
        match self {
            Number::Bits(bits) => Number::Bits(*bits),
            Number::Decimal(text) => Number::Decimal(text.clone()),
            Number::Neg(x) => Number::Neg(share(x)),
            Number::Add(x, y) => Number::Add(share(x), share(y)),
            Number::Sub(x, y) => Number::Sub(share(x), share(y)),
            Number::Mul(x, y) => Number::Mul(share(x), share(y)),
            Number::Div(x, y) => Number::Div(share(x), share(y)),
            Number::Rem(x, y) => Number::Rem(share(x), share(y)),
            Number::Pow(x, y) => Number::Pow(share(x), share(y)),
        }
    }
}

} // verus!
