//! Units of measure, which are compared without regard to letter case.

use std::hash::Hash;
use std::hash::Hasher;
use vstd::prelude::*;
use vstd::std_specs::cmp::PartialEqSpecImpl;

verus! {

/// The lower-cased form of a name, as `str::to_lowercase` computes it.
pub uninterp spec fn lowercase_of(name: Seq<char>) -> Seq<char>;

/// Calls `str::to_lowercase`. The result is a function of the characters of
/// `name` alone; nothing more is claimed about it here.
#[verifier::external_body]
fn lowercase(name: &str) -> (folded: String)
    ensures
        folded@ == lowercase_of(name@),
{
    name.to_lowercase()
}

/// `<String as Hash>::hash` feeds the string to the hasher. Nothing is
/// claimed about the hasher's state afterwards.
pub assume_specification<H: Hasher>[ <String as Hash>::hash ](text: &String, state: &mut H);

/// Two names denote the same unit when they agree up to letter case.
pub open spec fn same_unit(a: Seq<char>, b: Seq<char>) -> bool {
    lowercase_of(a) == lowercase_of(b)
}

/// Unit equality lifted to optional units: "no unit" equals only itself.
pub open spec fn same_optional_unit(a: Option<Seq<char>>, b: Option<Seq<char>>) -> bool {
    match (a, b) {
        (None, None) => true,
        (Some(x), Some(y)) => same_unit(x, y),
        _ => false,
    }
}

/// The name of the percent unit.
pub open spec fn percent_name() -> Seq<char> {
    seq!['%']
}

/// A unit of measure. The name is kept as written; equality and hashing
/// ignore letter case.
#[derive(Debug)]
pub struct Unit(pub String);

impl View for Unit {
    type V = Seq<char>;

    open spec fn view(&self) -> Seq<char> {
        self.0@
    }
}

impl Unit {
    pub fn new(unit_str: &'static str) -> (unit: Unit)
        ensures
            unit@ == unit_str@,
    {
        Unit(unit_str.to_owned())
    }

    /// The normalized name under which this unit is compared and hashed.
    pub fn key(&self) -> (folded: String)
        ensures
            folded@ == lowercase_of(self@),
    {
        lowercase(self.0.as_str())
    }

    /// Whether this unit is named exactly `%`.
    pub fn is_percent(&self) -> (yes: bool)
        ensures
            yes == (self@ == percent_name()),
    {
        let sign = "%".to_owned();
        proof {
            reveal_strlit("%");
            assert(sign@ =~= percent_name());
        }
        self.0 == sign
    }
}

impl Clone for Unit {
    fn clone(&self) -> (copy: Unit)
        ensures
            copy == *self,
    {
        Unit(self.0.clone())
    }
}

impl Default for Unit {
    fn default() -> (unit: Unit)
        ensures
            unit@ == Seq::<char>::empty(),
    {
        Unit(String::new())
    }
}

impl PartialEq for Unit {
    fn eq(&self, other: &Unit) -> (same: bool) {
        self.key() == other.key()
    }
}

impl PartialEqSpecImpl for Unit {
    open spec fn obeys_eq_spec() -> bool {
        true
    }

    open spec fn eq_spec(&self, other: &Unit) -> bool {
        same_unit(self@, other@)
    }
}

impl Eq for Unit {

}

impl Hash for Unit {
    fn hash<H: Hasher>(&self, state: &mut H) {
        self.key().hash(state)
    }
}

/// Unit equality is an equivalence relation.
pub proof fn same_unit_is_equivalence(a: Seq<char>, b: Seq<char>, c: Seq<char>)
    ensures
        same_unit(a, a),
        same_unit(a, b) ==> same_unit(b, a),
        same_unit(a, b) && same_unit(b, c) ==> same_unit(a, c),
{
}

} // verus!
