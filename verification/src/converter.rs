//! Conversion between units, and arithmetic that reconciles the units of its
//! operands.

use crate::expansion::composed;
use crate::expansion::composed_extends;
use crate::expansion::composed_with;
use crate::expansion::composed_with_extends;
use crate::expansion::expanded;
use crate::expansion::expansion_inverts_declared;
use crate::expansion::expansion_is_symmetric;
use crate::expansion::expansion_keeps_declared;
use crate::expansion::extends_keeps_entries;
use crate::expansion::extends_twice;
use crate::expansion::inverted;
use crate::expansion::inverted_extends;
use crate::expansion::present;
use crate::number::Term;
use crate::table::Conversions;
use crate::table::Rule;
use crate::table::distinct;
use crate::table::lookup;
use crate::unit::Unit;
use crate::unit::percent_name;
use crate::unit::same_optional_unit;
use crate::unit::same_unit;
use crate::value::Quantity;
use crate::value::Value;
use vstd::prelude::*;

verus! {

/// `value` expressed in the unit `target`, as far as `table` allows:
/// a unitless value stays as it is; a percentage becomes the fraction it
/// stands for and stays a percentage, whatever the target; a value already in
/// the target unit stays as it is; otherwise the number is multiplied by the
/// ratio that `table` holds for the pair, and where it holds none the value
/// stays as it is.
pub open spec fn converted(table: Seq<Rule>, value: Quantity, target: Seq<char>) -> Quantity {
    match value.unit {
        None => value,
        Some(name) => if name == percent_name() {
            Quantity { number: value.number.hundredth(), unit: Some(percent_name()) }
        } else if same_unit(name, target) {
            value
        } else {
            match lookup(table, name, target) {
                Some(ratio) => Quantity { number: value.number.times(ratio), unit: Some(target) },
                None => value,
            }
        },
    }
}

/// The unit that the right operand is converted to: that of the left
/// operand, or the unit with the empty name where the left has none.
pub open spec fn target_unit(left: Quantity) -> Seq<char> {
    match left.unit {
        Some(name) => name,
        None => Seq::<char>::empty(),
    }
}

/// Whether `value` is a percentage.
pub open spec fn is_percentage(value: Quantity) -> bool {
    value.unit matches Some(name) && same_unit(name, percent_name())
}

/// The right operand as the arithmetic uses it. Where the units of the two
/// operands differ, `right` is first converted to the unit of `left`. A
/// percentage then stands for that fraction of the left operand.
pub open spec fn operand(table: Seq<Rule>, left: Quantity, right: Quantity) -> Quantity {
    let right = if same_optional_unit(left.unit, right.unit) {
        right
    } else {
        converted(table, right, target_unit(left))
    };
    if is_percentage(right) {
        Quantity { number: left.number.times(right.number), unit: right.unit }
    } else {
        right
    }
}

/// Converting a unitless value returns it unchanged, whatever the target.
pub proof fn unitless_value_is_unchanged(table: Seq<Rule>, value: Quantity, target: Seq<char>)
    requires
        value.unit is None,
    ensures
        converted(table, value, target) == value,
{
}

/// Converting between two units for which the table holds no entry returns
/// the value unchanged.
pub proof fn missing_pair_is_unchanged(table: Seq<Rule>, value: Quantity, target: Seq<char>)
    requires
        value.unit matches Some(name) && name != percent_name() && !present(table, name, target),
    ensures
        converted(table, value, target) == value,
{
}

/// Converting a percentage yields the fraction it stands for, still as a
/// percentage, whatever the target.
pub proof fn percentage_becomes_fraction(table: Seq<Rule>, number: Term, target: Seq<char>)
    ensures
        converted(table, Quantity { number, unit: Some(percent_name()) }, target) == (Quantity {
            number: number.hundredth(),
            unit: Some(percent_name()),
        }),
{
}

/// Under an expanded table, a value converted to a unit that the table
/// reaches can be converted back: the unit is the first one again and the
/// number has been multiplied by the ratio of the pair and then by the ratio
/// of the swapped pair.
pub proof fn conversion_goes_there_and_back(
    rules: Seq<Rule>,
    number: Term,
    from: Seq<char>,
    to: Seq<char>,
)
    requires
        from != percent_name(),
        to != percent_name(),
        !same_unit(from, to),
        present(expanded(rules), from, to),
    ensures
        present(expanded(rules), to, from),
        converted(
            expanded(rules),
            converted(expanded(rules), Quantity { number, unit: Some(from) }, to),
            from,
        ) == (Quantity {
            number: number.times(lookup(expanded(rules), from, to)->0).times(
                lookup(expanded(rules), to, from)->0,
            ),
            unit: Some(from),
        }),
{
    expansion_is_symmetric(rules, from, to);
}

/// Where only one direction of a pair is declared, converting there and
/// back multiplies by the declared ratio and then by its inverse.
pub proof fn declared_conversion_goes_there_and_back(
    rules: Seq<Rule>,
    number: Term,
    from: Seq<char>,
    to: Seq<char>,
)
    requires
        from != percent_name(),
        to != percent_name(),
        !same_unit(from, to),
        present(rules, from, to),
        !present(rules, to, from),
    ensures
        converted(
            expanded(rules),
            converted(expanded(rules), Quantity { number, unit: Some(from) }, to),
            from,
        ) == (Quantity {
            number: number.times(lookup(rules, from, to)->0).times(
                lookup(rules, from, to)->0.reciprocal(),
            ),
            unit: Some(from),
        }),
{
    expansion_keeps_declared(rules, from, to);
    expansion_inverts_declared(rules, from, to);
}

/// Holds the conversion table and reconciles units in arithmetic.
#[derive(Debug)]
pub struct Converter {
    conversions: Conversions,
}

impl View for Converter {
    type V = Seq<Rule>;

    closed spec fn view(&self) -> Seq<Rule> {
        self.conversions@
    }
}

impl Converter {
    /// Builds the converter for the declared conversions.
    pub fn new(conversions: Conversions) -> (converter: Converter)
        ensures
            converter@ == expanded(conversions@),
            distinct(converter@),
    {
        let mut conversions = conversions;
        Self::expand_conversions(&mut conversions);
        proof {
            use_type_invariant(&conversions);
        }
        Converter { conversions }
    }

    /// The table this converter works with.
    pub fn conversions(&self) -> (table: &Conversions)
        ensures
            table@ == self@,
    {
        &self.conversions
    }

    /// Addition.
    pub fn add(&self, left: Value, right: Value) -> (sum: Value)
        ensures
            sum@ == left@.plus(operand(self@, left@, right@)),
            sum@.unit == left@.unit,
    {
        let right = self.reconcile(&left, right);
        left + right
    }

    /// Subtraction.
    pub fn sub(&self, left: Value, right: Value) -> (difference: Value)
        ensures
            difference@ == left@.minus(operand(self@, left@, right@)),
            difference@.unit == left@.unit,
    {
        let right = self.reconcile(&left, right);
        left - right
    }

    /// Multiplication.
    pub fn mul(&self, left: Value, right: Value) -> (product: Value)
        ensures
            product@ == left@.times(operand(self@, left@, right@)),
            product@.unit == left@.unit,
    {
        let right = self.reconcile(&left, right);
        left * right
    }

    /// Division.
    pub fn div(&self, left: Value, right: Value) -> (quotient: Value)
        ensures
            quotient@ == left@.over(operand(self@, left@, right@)),
            quotient@.unit == left@.unit,
    {
        let right = self.reconcile(&left, right);
        left / right
    }

    /// Modulo.
    pub fn rem(&self, left: Value, right: Value) -> (remainder: Value)
        ensures
            remainder@ == left@.modulo(operand(self@, left@, right@)),
            remainder@.unit == left@.unit,
    {
        let right = self.reconcile(&left, right);
        left % right
    }

    /// Brings `right` to the unit of `left` and resolves a percentage.
    fn reconcile(&self, left: &Value, right: Value) -> (adjusted: Value)
        ensures
            adjusted@ == operand(self@, left@, right@),
    {
        let right = if left.unit != right.unit {
            let target = match &left.unit {
                Some(unit) => unit.clone(),
                None => Unit::default(),
            };
            self.convert(right, &target)
        } else {
            right
        };
        self.percent(left, right)
    }

    /// A percentage on the right stands for that fraction of the left.
    fn percent(&self, left: &Value, right: Value) -> (adjusted: Value)
        ensures
            adjusted@ == if is_percentage(right@) {
                Quantity { number: left@.number.times(right@.number), unit: right@.unit }
            } else {
                right@
            },
    {
        let sign = Some(Unit::new("%"));
        proof {
            reveal_strlit("%");
            assert("%"@ =~= percent_name());
        }
        if right.unit == sign {
            Value { number: left.number.clone().times(right.number), unit: right.unit }
        } else {
            right
        }
    }

    /// Expresses `from` in `to_unit`, as far as the table allows.
    pub fn convert(&self, from: Value, to_unit: &Unit) -> (value: Value)
        ensures
            value@ == converted(self@, from@, to_unit@),
    {
        let Value { number, unit } = from;
        match unit {
            None => Value { number, unit: None },
            Some(from_unit) => {
                if from_unit.is_percent() {
                    proof {
                        reveal_strlit("%");
                        assert("%"@ =~= percent_name());
                    }
                    return Value { number: number.hundredth(), unit: Some(Unit::new("%")) };
                }
                if from_unit == *to_unit {
                    return Value { number, unit: Some(from_unit) };
                }
                match self.conversions.get(&from_unit, to_unit) {
                    Some(ratio) => Value {
                        number: number.times(ratio.clone()),
                        unit: Some(to_unit.clone()),
                    },
                    None => Value { number, unit: Some(from_unit) },
                }
            },
        }
    }

    fn expand_conversions(conversions: &mut Conversions)
        ensures
            final(conversions)@ == expanded(old(conversions)@),
    {
        let ghost declared = conversions@;
        let count = conversions.len();
        let mut index: usize = 0;
        while index < count
            invariant
                count == declared.len(),
                index <= count,
                conversions@ == inverted(declared, index as nat),
            decreases count - index,
        {
            proof {
                inverted_extends(declared, index as nat);
                extends_keeps_entries(conversions@, declared, index as int);
            }
            let entry = conversions.entry(index);
            if !conversions.contains_key(&entry.to, &entry.from) {
                let from = entry.to.clone();
                let to = entry.from.clone();
                let ratio = entry.ratio.clone().reciprocal();
                conversions.insert(from, to, ratio);
            }
            index += 1;
        }
        let ghost base = conversions@;
        let size = conversions.len();
        let mut left_index: usize = 0;
        while left_index < size
            invariant
                size == base.len(),
                left_index <= size,
                conversions@ == composed(base, left_index as nat),
            decreases size - left_index,
        {
            let ghost sofar = conversions@;
            let mut right_index: usize = 0;
            while right_index < size
                invariant
                    size == base.len(),
                    left_index < size,
                    right_index <= size,
                    sofar == composed(base, left_index as nat),
                    conversions@ == composed_with(
                        base,
                        sofar,
                        base[left_index as int],
                        right_index as nat,
                    ),
                decreases size - right_index,
            {
                proof {
                    composed_extends(base, left_index as nat);
                    composed_with_extends(base, sofar, base[left_index as int], right_index as nat);
                    extends_twice(conversions@, sofar, base);
                    extends_keeps_entries(conversions@, base, left_index as int);
                    extends_keeps_entries(conversions@, base, right_index as int);
                }
                let left = conversions.entry(left_index);
                let right = conversions.entry(right_index);
                if left.to == right.from && !conversions.contains_key(&left.from, &right.to) && !(
                left.from == right.to) {
                    let from = left.from.clone();
                    let to = right.to.clone();
                    let ratio = left.ratio.clone().times(right.ratio.clone());
                    conversions.insert(from, to, ratio);
                }
                right_index += 1;
            }
            left_index += 1;
        }
    }
}

} // verus!
