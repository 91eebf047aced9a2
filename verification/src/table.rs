//! The mapping from ordered pairs of units to ratios.

use crate::number::Number;
use crate::number::Term;
use crate::unit::same_unit;
use crate::unit::Unit;
use vstd::prelude::*;

verus! {

/// The mathematical model of a [`Conversion`]: one quantity of `from` is
/// `ratio` quantities of `to`.
pub struct Rule {
    pub from: Seq<char>,
    pub to: Seq<char>,
    pub ratio: Term,
}

/// One entry of a conversion table: `to = from * ratio`.
#[derive(Debug)]
pub struct Conversion {
    pub from: Unit,
    pub to: Unit,
    pub ratio: Number,
}

impl View for Conversion {
    type V = Rule;

    open spec fn view(&self) -> Rule {
        Rule { from: self.from@, to: self.to@, ratio: self.ratio@ }
    }
}

impl Clone for Conversion {
    fn clone(&self) -> (copy: Conversion)
        ensures
            copy@ == self@,
    {
        Conversion { from: self.from.clone(), to: self.to.clone(), ratio: self.ratio.clone() }
    }
}

/// Whether `rule` is the entry for the ordered pair (`from`, `to`).
pub open spec fn governs(rule: Rule, from: Seq<char>, to: Seq<char>) -> bool {
    same_unit(rule.from, from) && same_unit(rule.to, to)
}

/// Index of the first entry of `rules` for the pair (`from`, `to`).
pub open spec fn position(rules: Seq<Rule>, from: Seq<char>, to: Seq<char>) -> Option<int>
    decreases rules.len(),
{
    if rules.len() == 0 {
        None
    } else {
        match position(rules.drop_last(), from, to) {
            Some(i) => Some(i),
            None => if governs(rules.last(), from, to) {
                Some(rules.len() - 1)
            } else {
                None
            },
        }
    }
}

/// The ratio that `rules` holds for the pair (`from`, `to`), if any.
pub open spec fn lookup(rules: Seq<Rule>, from: Seq<char>, to: Seq<char>) -> Option<Term> {
    match position(rules, from, to) {
        Some(i) => Some(rules[i].ratio),
        None => None,
    }
}

/// No two entries of `rules` are for the same pair of units.
pub open spec fn distinct(rules: Seq<Rule>) -> bool {
    forall|i: int, j: int|
        0 <= i < j < rules.len() ==> !governs(#[trigger] rules[i], rules[j].from, (#[trigger] rules[j]).to)
}

/// `rules` after `rule` has been put into it: an entry for the same pair keeps
/// its place and its names and takes the new ratio; otherwise `rule` is
/// appended.
pub open spec fn inserted(rules: Seq<Rule>, rule: Rule) -> Seq<Rule> {
    match position(rules, rule.from, rule.to) {
        Some(i) => rules.update(i, Rule { from: rules[i].from, to: rules[i].to, ratio: rule.ratio }),
        None => rules.push(rule),
    }
}

/// `position` finds the first entry for the pair, and finds one whenever
/// there is one.
pub proof fn position_is_first(rules: Seq<Rule>, from: Seq<char>, to: Seq<char>)
    ensures
        match position(rules, from, to) {
            Some(i) => {
                &&& 0 <= i < rules.len()
                &&& governs(rules[i], from, to)
                &&& forall|j: int| 0 <= j < i ==> !governs(#[trigger] rules[j], from, to)
            },
            None => forall|j: int| 0 <= j < rules.len() ==> !governs(#[trigger] rules[j], from, to),
        },
    decreases rules.len(),
{
    if rules.len() > 0 {
        position_is_first(rules.drop_last(), from, to);
        assert(forall|j: int| 0 <= j < rules.len() - 1 ==> rules.drop_last()[j] == rules[j]);
    }
}

/// The first entry for the pair is what `position` returns.
pub proof fn position_of_first(rules: Seq<Rule>, from: Seq<char>, to: Seq<char>, i: int)
    requires
        0 <= i < rules.len(),
        governs(rules[i], from, to),
        forall|j: int| 0 <= j < i ==> !governs(#[trigger] rules[j], from, to),
    ensures
        position(rules, from, to) == Some(i),
{
    position_is_first(rules, from, to);
}

/// Pairs that name the same units find the same entry.
pub proof fn position_respects_case(
    rules: Seq<Rule>,
    from: Seq<char>,
    to: Seq<char>,
    other_from: Seq<char>,
    other_to: Seq<char>,
)
    requires
        same_unit(from, other_from),
        same_unit(to, other_to),
    ensures
        position(rules, from, to) == position(rules, other_from, other_to),
    decreases rules.len(),
{
    if rules.len() > 0 {
        position_respects_case(rules.drop_last(), from, to, other_from, other_to);
    }
}

/// Inserting keeps the entries distinct, makes the pair resolve to the new
/// ratio, and leaves every other pair as it was.
pub proof fn inserted_is_an_update(rules: Seq<Rule>, rule: Rule, from: Seq<char>, to: Seq<char>)
    requires
        distinct(rules),
    ensures
        distinct(inserted(rules, rule)),
        lookup(inserted(rules, rule), from, to) == if governs(rule, from, to) {
            Some(rule.ratio)
        } else {
            lookup(rules, from, to)
        },
{
    let after = inserted(rules, rule);
    position_is_first(rules, rule.from, rule.to);
    position_is_first(rules, from, to);
    position_is_first(after, from, to);
    match position(rules, rule.from, rule.to) {
        Some(i) => {
            assert forall|a: int, b: int| 0 <= a < b < after.len() implies !governs(
                #[trigger] after[a],
                after[b].from,
                (#[trigger] after[b]).to,
            ) by {
                assert(!governs(rules[a], rules[b].from, rules[b].to));
            }
            assert forall|j: int| 0 <= j < rules.len() implies governs(
                #[trigger] after[j],
                from,
                to,
            ) == governs(rules[j], from, to) by {}
            if governs(rule, from, to) {
                assert(governs(after[i], from, to));
                assert forall|j: int| 0 <= j < after.len() && j != i implies !governs(
                    #[trigger] after[j],
                    from,
                    to,
                ) by {
                    if j < i {
                        assert(!governs(rules[j], rules[i].from, rules[i].to));
                    } else {
                        assert(!governs(rules[i], rules[j].from, rules[j].to));
                    }
                }
                position_of_first(after, from, to, i);
            } else {
                match position(rules, from, to) {
                    Some(k) => {
                        assert(governs(after[k], from, to));
                        position_of_first(after, from, to, k);
                        assert(k != i);
                    },
                    None => {},
                }
            }
        },
        None => {
            assert(after.drop_last() =~= rules);
            assert forall|a: int, b: int| 0 <= a < b < after.len() implies !governs(
                #[trigger] after[a],
                after[b].from,
                (#[trigger] after[b]).to,
            ) by {
                if b < rules.len() {
                    assert(!governs(rules[a], rules[b].from, rules[b].to));
                } else {
                    assert(!governs(rules[a], rule.from, rule.to));
                }
            }
            if governs(rule, from, to) {
                position_respects_case(rules, from, to, rule.from, rule.to);
            }
        },
    }
}

/// A mapping from ordered pairs of units to ratios, in insertion order. Pairs
/// are told apart as units are: without regard to letter case.
#[derive(Debug)]
pub struct Conversions {
    rules: Vec<Conversion>,
}

impl View for Conversions {
    type V = Seq<Rule>;

    closed spec fn view(&self) -> Seq<Rule> {
        self.rules@.map_values(|entry: Conversion| entry@)
    }
}

impl Conversions {
    /// Every table holds each pair at most once.
    #[verifier::type_invariant]
    pub open spec fn keys_are_distinct(&self) -> bool {
        distinct(self@)
    }

    pub fn new() -> (table: Conversions)
        ensures
            table@ == Seq::<Rule>::empty(),
    {
        let rules: Vec<Conversion> = Vec::new();
        assert(rules@.map_values(|entry: Conversion| entry@) =~= Seq::<Rule>::empty());
        Conversions { rules }
    }

    pub fn len(&self) -> (count: usize)
        ensures
            count == self@.len(),
    {
        self.rules.len()
    }

    /// The entry at `index`, counted in insertion order.
    pub fn entry(&self, index: usize) -> (entry: &Conversion)
        requires
            index < self@.len(),
        ensures
            entry@ == self@[index as int],
    {
        &self.rules[index]
    }

    /// Index of the entry for the pair (`from`, `to`).
    pub fn find(&self, from: &Unit, to: &Unit) -> (found: Option<usize>)
        ensures
            match found {
                Some(i) => position(self@, from@, to@) == Some(i as int),
                None => position(self@, from@, to@) is None,
            },
    {
        let count = self.rules.len();
        let mut index: usize = 0;
        while index < count
            invariant
                count == self@.len(),
                index <= count,
                forall|j: int| 0 <= j < index ==> !governs(#[trigger] self@[j], from@, to@),
            decreases count - index,
        {
            let entry = &self.rules[index];
            if entry.from == *from && entry.to == *to {
                proof {
                    position_of_first(self@, from@, to@, index as int);
                }
                return Some(index);
            }
            index += 1;
        }
        proof {
            position_is_first(self@, from@, to@);
        }
        None
    }

    pub fn contains_key(&self, from: &Unit, to: &Unit) -> (present: bool)
        ensures
            present == lookup(self@, from@, to@).is_some(),
    {
        self.find(from, to).is_some()
    }

    /// The ratio held for the pair (`from`, `to`).
    pub fn get(&self, from: &Unit, to: &Unit) -> (ratio: Option<&Number>)
        ensures
            match ratio {
                Some(number) => lookup(self@, from@, to@) == Some(number@),
                None => lookup(self@, from@, to@) is None,
            },
    {
        match self.find(from, to) {
            Some(index) => {
                proof {
                    position_is_first(self@, from@, to@);
                }
                Some(&self.rules[index].ratio)
            },
            None => None,
        }
    }

    /// Puts the ratio for the pair (`from`, `to`) into the table and returns
    /// the ratio that the pair had before.
    pub fn insert(&mut self, from: Unit, to: Unit, ratio: Number) -> (previous: Option<Number>)
        ensures
            final(self)@ == inserted(old(self)@, Rule { from: from@, to: to@, ratio: ratio@ }),
            distinct(final(self)@),
            match previous {
                Some(number) => lookup(old(self)@, from@, to@) == Some(number@),
                None => lookup(old(self)@, from@, to@) is None,
            },
    {
        proof {
            use_type_invariant(&*self);
            inserted_is_an_update(self@, Rule { from: from@, to: to@, ratio: ratio@ }, from@, to@);
            position_is_first(self@, from@, to@);
        }
        let ghost rule = Rule { from: from@, to: to@, ratio: ratio@ };
        let ghost before = self@;
        let found = self.find(&from, &to);
        let mut rules: Vec<Conversion> = Vec::new();
        assert(rules@.map_values(|entry: Conversion| entry@) =~= Seq::<Rule>::empty());
        std::mem::swap(&mut self.rules, &mut rules);
        assert(rules@.map_values(|entry: Conversion| entry@) == before);
        let previous = match found {
            Some(index) => {
                let kept = &rules[index];
                let previous = kept.ratio.clone();
                let entry = Conversion { from: kept.from.clone(), to: kept.to.clone(), ratio };
                rules.set(index, entry);
                Some(previous)
            },
            None => {
                rules.push(Conversion { from, to, ratio });
                None
            },
        };
        assert(rules@.map_values(|entry: Conversion| entry@) =~= inserted(before, rule));
        self.rules = rules;
        previous
    }
}

} // verus!
