//! Values: a number with an optional unit, and the operators on values.

use crate::number::Number;
use crate::number::Term;
use crate::unit::Unit;
use std::ops::Add;
use std::ops::Div;
use std::ops::Mul;
use std::ops::Neg;
use std::ops::Rem;
use std::ops::Sub;
use std::sync::Arc;
use vstd::prelude::*;
use vstd::std_specs::ops::AddSpec;
use vstd::std_specs::ops::AddSpecImpl;
use vstd::std_specs::ops::DivSpec;
use vstd::std_specs::ops::MulSpec;
use vstd::std_specs::ops::NegSpec;
use vstd::std_specs::ops::RemSpec;
use vstd::std_specs::ops::SubSpec;
use vstd::std_specs::ops::DivSpecImpl;
use vstd::std_specs::ops::MulSpecImpl;
use vstd::std_specs::ops::NegSpecImpl;
use vstd::std_specs::ops::RemSpecImpl;
use vstd::std_specs::ops::SubSpecImpl;

verus! {

/// The mathematical model of a [`Value`]: the arithmetic of its number and
/// the name of its unit, if it has one.
pub struct Quantity {
    pub number: Term,
    pub unit: Option<Seq<char>>,
}

/// A number with an optional unit.
#[derive(Debug)]
pub struct Value {
    pub number: Number,
    pub unit: Option<Unit>,
}

impl View for Value {
    type V = Quantity;

    open spec fn view(&self) -> Quantity {
        Quantity {
            number: self.number@,
            unit: match self.unit {
                Some(unit) => Some(unit@),
                None => None,
            },
        }
    }
}

impl Quantity {
    /// The quantity with the same unit whose number is negated.
    pub open spec fn negated(self) -> Quantity {
        Quantity { number: Term::Neg(Box::new(self.number)), unit: self.unit }
    }

    /// The sum of the two numbers, under the unit of `self`.
    pub open spec fn plus(self, rhs: Quantity) -> Quantity {
        Quantity { number: Term::Add(Box::new(self.number), Box::new(rhs.number)), unit: self.unit }
    }

    /// The difference of the two numbers, under the unit of `self`.
    pub open spec fn minus(self, rhs: Quantity) -> Quantity {
        Quantity { number: Term::Sub(Box::new(self.number), Box::new(rhs.number)), unit: self.unit }
    }

    /// The product of the two numbers, under the unit of `self`.
    pub open spec fn times(self, rhs: Quantity) -> Quantity {
        Quantity { number: Term::Mul(Box::new(self.number), Box::new(rhs.number)), unit: self.unit }
    }

    /// The quotient of the two numbers, under the unit of `self`.
    pub open spec fn over(self, rhs: Quantity) -> Quantity {
        Quantity { number: Term::Div(Box::new(self.number), Box::new(rhs.number)), unit: self.unit }
    }

    /// The remainder of the two numbers, under the unit of `self`.
    pub open spec fn modulo(self, rhs: Quantity) -> Quantity {
        Quantity { number: Term::Rem(Box::new(self.number), Box::new(rhs.number)), unit: self.unit }
    }

    /// The number of `self` raised to `exponent`, under the unit of `self`.
    pub open spec fn raised(self, exponent: Term) -> Quantity {
        Quantity { number: Term::Pow(Box::new(self.number), Box::new(exponent)), unit: self.unit }
    }
}

impl Value {
    pub fn new(number: Number, unit: Unit) -> (value: Value)
        ensures
            value@ == (Quantity { number: number@, unit: Some(unit@) }),
    {
        Value { number, unit: Some(unit) }
    }

    pub fn simple(number: Number, unit_str: String) -> (value: Value)
        ensures
            value@ == (Quantity { number: number@, unit: Some(unit_str@) }),
    {
        Value { number, unit: Some(Unit(unit_str)) }
    }

    pub fn unitless(number: Number) -> (value: Value)
        ensures
            value@ == (Quantity { number: number@, unit: None }),
    {
        Value { number, unit: None }
    }

    /// Raises the number to `pow`; the unit stays.
    pub fn power(self, pow: Number) -> (value: Value)
        ensures
            value@ == self@.raised(pow@),
    {
        Value { number: Number::Pow(Arc::new(self.number), Arc::new(pow)), unit: self.unit }
    }

    /// The text that follows the number when the value is written out: the
    /// unit's name, or nothing for a unitless value.
    pub fn suffix(&self) -> (text: String)
        ensures
            text@ == match self@.unit {
                Some(name) => name,
                None => Seq::<char>::empty(),
            },
    {
        match &self.unit {
            Some(unit) => unit.0.clone(),
            None => String::new(),
        }
    }
}

impl Clone for Value {
    fn clone(&self) -> (copy: Value)
        ensures
            copy@ == self@,
    {
        let unit = match &self.unit {
            Some(unit) => Some(unit.clone()),
            None => None,
        };
        Value { number: self.number.clone(), unit }
    }
}

impl Neg for Value {
    type Output = Value;

    fn neg(self) -> (value: Value) {
        Value { number: Number::Neg(Arc::new(self.number)), unit: self.unit }
    }
}

impl NegSpecImpl for Value {
    open spec fn obeys_neg_spec() -> bool {
        true
    }

    open spec fn neg_req(self) -> bool {
        true
    }

    open spec fn neg_spec(self) -> Value {
        Value { number: Number::Neg(Arc::new(self.number)), unit: self.unit }
    }
}

impl Add for Value {
    type Output = Value;

    fn add(self, rhs: Value) -> (value: Value) {
        Value { number: Number::Add(Arc::new(self.number), Arc::new(rhs.number)), unit: self.unit }
    }
}

impl AddSpecImpl for Value {
    open spec fn obeys_add_spec() -> bool {
        true
    }

    open spec fn add_req(self, rhs: Value) -> bool {
        true
    }

    open spec fn add_spec(self, rhs: Value) -> Value {
        Value { number: Number::Add(Arc::new(self.number), Arc::new(rhs.number)), unit: self.unit }
    }
}

impl Sub for Value {
    type Output = Value;

    fn sub(self, rhs: Value) -> (value: Value) {
        Value { number: Number::Sub(Arc::new(self.number), Arc::new(rhs.number)), unit: self.unit }
    }
}

impl SubSpecImpl for Value {
    open spec fn obeys_sub_spec() -> bool {
        true
    }

    open spec fn sub_req(self, rhs: Value) -> bool {
        true
    }

    open spec fn sub_spec(self, rhs: Value) -> Value {
        Value { number: Number::Sub(Arc::new(self.number), Arc::new(rhs.number)), unit: self.unit }
    }
}

impl Mul for Value {
    type Output = Value;

    fn mul(self, rhs: Value) -> (value: Value) {
        Value { number: Number::Mul(Arc::new(self.number), Arc::new(rhs.number)), unit: self.unit }
    }
}

impl MulSpecImpl for Value {
    open spec fn obeys_mul_spec() -> bool {
        true
    }

    open spec fn mul_req(self, rhs: Value) -> bool {
        true
    }

    open spec fn mul_spec(self, rhs: Value) -> Value {
        Value { number: Number::Mul(Arc::new(self.number), Arc::new(rhs.number)), unit: self.unit }
    }
}

impl Div for Value {
    type Output = Value;

    fn div(self, rhs: Value) -> (value: Value) {
        Value { number: Number::Div(Arc::new(self.number), Arc::new(rhs.number)), unit: self.unit }
    }
}

impl DivSpecImpl for Value {
    open spec fn obeys_div_spec() -> bool {
        true
    }

    open spec fn div_req(self, rhs: Value) -> bool {
        true
    }

    open spec fn div_spec(self, rhs: Value) -> Value {
        Value { number: Number::Div(Arc::new(self.number), Arc::new(rhs.number)), unit: self.unit }
    }
}

impl Rem for Value {
    type Output = Value;

    fn rem(self, rhs: Value) -> (value: Value) {
        Value { number: Number::Rem(Arc::new(self.number), Arc::new(rhs.number)), unit: self.unit }
    }
}

impl RemSpecImpl for Value {
    open spec fn obeys_rem_spec() -> bool {
        true
    }

    open spec fn rem_req(self, rhs: Value) -> bool {
        true
    }

    open spec fn rem_spec(self, rhs: Value) -> Value {
        Value { number: Number::Rem(Arc::new(self.number), Arc::new(rhs.number)), unit: self.unit }
    }
}

/// What the operators on values compute, read on the model: each acts on the
/// numbers alone and keeps the unit of its left operand.
pub proof fn operators_keep_left_unit(left: Value, right: Value)
    ensures
        NegSpec::neg_spec(left)@ == left@.negated(),
        AddSpec::add_spec(left, right)@ == left@.plus(right@),
        SubSpec::sub_spec(left, right)@ == left@.minus(right@),
        MulSpec::mul_spec(left, right)@ == left@.times(right@),
        DivSpec::div_spec(left, right)@ == left@.over(right@),
        RemSpec::rem_spec(left, right)@ == left@.modulo(right@),
        AddSpec::add_spec(left, right)@.unit == left@.unit,
        SubSpec::sub_spec(left, right)@.unit == left@.unit,
        MulSpec::mul_spec(left, right)@.unit == left@.unit,
        DivSpec::div_spec(left, right)@.unit == left@.unit,
        RemSpec::rem_spec(left, right)@.unit == left@.unit,
{
}

} // verus!
