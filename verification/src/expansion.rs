//! How the table of a converter is derived from the declared one, and what
//! holds of the derived table.

use crate::table::distinct;
use crate::table::governs;
use crate::table::lookup;
use crate::table::position;
use crate::table::position_is_first;
use crate::table::position_of_first;
use crate::table::position_respects_case;
use crate::table::Rule;
use crate::unit::same_unit;
use vstd::prelude::*;

verus! {

/// The entry that undoes `rule`: the units swapped, the ratio inverted.
pub open spec fn inverse(rule: Rule) -> Rule {
    Rule { from: rule.to, to: rule.from, ratio: rule.ratio.reciprocal() }
}

/// The entry that goes through `left` and then `right`.
pub open spec fn product(left: Rule, right: Rule) -> Rule {
    Rule { from: left.from, to: right.to, ratio: left.ratio.times(right.ratio) }
}

/// `rules` followed by the inverse of each of its first `n` entries whose
/// swapped pair is not present yet.
pub open spec fn inverted(rules: Seq<Rule>, n: nat) -> Seq<Rule>
    decreases n,
{
    if n == 0 {
        rules
    } else {
        let sofar = inverted(rules, (n - 1) as nat);
        let rule = rules[n - 1];
        if lookup(sofar, rule.to, rule.from) is None {
            sofar.push(inverse(rule))
        } else {
            sofar
        }
    }
}

/// The table after the inversion pass.
pub open spec fn symmetric(rules: Seq<Rule>) -> Seq<Rule> {
    inverted(rules, rules.len())
}

/// Whether going through `left` and then `right` yields an entry that
/// `table` lacks: the two meet in a unit, their ends differ, and `table` has
/// nothing for the pair of the ends.
pub open spec fn composes(table: Seq<Rule>, left: Rule, right: Rule) -> bool {
    &&& same_unit(left.to, right.from)
    &&& lookup(table, left.from, right.to) is None
    &&& !same_unit(left.from, right.to)
}

/// `sofar` followed by what `left` yields with each of the first `n` entries
/// of `base`.
pub open spec fn composed_with(base: Seq<Rule>, sofar: Seq<Rule>, left: Rule, n: nat) -> Seq<Rule>
    decreases n,
{
    if n == 0 {
        sofar
    } else {
        let table = composed_with(base, sofar, left, (n - 1) as nat);
        let right = base[n - 1];
        if composes(table, left, right) {
            table.push(product(left, right))
        } else {
            table
        }
    }
}

/// `base` followed by what each of its first `n` entries yields with every
/// entry of `base`.
pub open spec fn composed(base: Seq<Rule>, n: nat) -> Seq<Rule>
    decreases n,
{
    if n == 0 {
        base
    } else {
        composed_with(base, composed(base, (n - 1) as nat), base[n - 1], base.len())
    }
}

/// The table that a converter holds for the declared `rules`: the declared
/// entries, then the inverses that were missing, then one round of two-step
/// compositions over those. The round is not repeated on what it derives.
pub open spec fn expanded(rules: Seq<Rule>) -> Seq<Rule> {
    let base = symmetric(rules);
    composed(base, base.len())
}

/// `long` starts with the entries of `short`, in order.
pub open spec fn extends(long: Seq<Rule>, short: Seq<Rule>) -> bool {
    short.len() <= long.len() && long.subrange(0, short.len() as int) == short
}

/// Whether `table` has an entry for the pair (`from`, `to`).
pub open spec fn present(table: Seq<Rule>, from: Seq<char>, to: Seq<char>) -> bool {
    lookup(table, from, to) is Some
}

/// Whether `left` ends in the unit in which `right` starts, and does not
/// lead back to where it started.
pub open spec fn chains(left: Rule, right: Rule) -> bool {
    same_unit(left.to, right.from) && !same_unit(left.from, right.to)
}

/// An entry of the shorter table is the same entry of the longer one.
pub proof fn extends_keeps_entries(long: Seq<Rule>, short: Seq<Rule>, k: int)
    requires
        extends(long, short),
        0 <= k < short.len(),
    ensures
        long[k] == short[k],
{
    assert(long.subrange(0, short.len() as int)[k] == long[k]);
}

/// Extending is transitive.
pub proof fn extends_twice(long: Seq<Rule>, middle: Seq<Rule>, short: Seq<Rule>)
    requires
        extends(long, middle),
        extends(middle, short),
    ensures
        extends(long, short),
{
    assert forall|k: int| 0 <= k < short.len() implies long[k] == short[k] by {
        extends_keeps_entries(middle, short, k);
        extends_keeps_entries(long, middle, k);
    }
    assert(long.subrange(0, short.len() as int) =~= short);
}

/// An entry for the pair makes the pair present.
pub proof fn entry_makes_present(table: Seq<Rule>, k: int, from: Seq<char>, to: Seq<char>)
    requires
        0 <= k < table.len(),
        governs(table[k], from, to),
    ensures
        present(table, from, to),
{
    position_is_first(table, from, to);
}

/// A pair that a table resolves is resolved in the same way by every table
/// that extends it.
pub proof fn extension_keeps_lookup(long: Seq<Rule>, short: Seq<Rule>, from: Seq<char>, to: Seq<char>)
    requires
        extends(long, short),
        present(short, from, to),
    ensures
        lookup(long, from, to) == lookup(short, from, to),
{
    position_is_first(short, from, to);
    let i = position(short, from, to)->0;
    assert forall|j: int| 0 <= j <= i implies long[j] == short[j] by {
        extends_keeps_entries(long, short, j);
    }
    position_of_first(long, from, to, i);
}

/// Appending an entry for a pair that was absent keeps the entries distinct.
pub proof fn push_absent_keeps_distinct(table: Seq<Rule>, rule: Rule)
    requires
        distinct(table),
        !present(table, rule.from, rule.to),
    ensures
        distinct(table.push(rule)),
{
    let after = table.push(rule);
    position_is_first(table, rule.from, rule.to);
    assert forall|i: int, j: int| 0 <= i < j < after.len() implies !governs(
        #[trigger] after[i],
        after[j].from,
        (#[trigger] after[j]).to,
    ) by {
        if j < table.len() {
            assert(!governs(table[i], table[j].from, table[j].to));
        } else {
            assert(!governs(table[i], rule.from, rule.to));
        }
    }
}

/// The inversion pass only appends.
pub proof fn inverted_extends(rules: Seq<Rule>, n: nat)
    ensures
        extends(inverted(rules, n), rules),
        inverted(rules, n).len() <= rules.len() + n,
    decreases n,
{
    if n > 0 {
        inverted_extends(rules, (n - 1) as nat);
        let sofar = inverted(rules, (n - 1) as nat);
        assert(inverted(rules, n).subrange(0, rules.len() as int) =~= sofar.subrange(
            0,
            rules.len() as int,
        ));
    } else {
        assert(rules.subrange(0, rules.len() as int) =~= rules);
    }
}

/// Each step of the inversion pass extends the one before.
pub proof fn inverted_grows(rules: Seq<Rule>, m: nat, n: nat)
    requires
        m <= n,
    ensures
        extends(inverted(rules, n), inverted(rules, m)),
    decreases n - m,
{
    let short = inverted(rules, m);
    if m == n {
        assert(short.subrange(0, short.len() as int) =~= short);
    } else {
        inverted_grows(rules, m, (n - 1) as nat);
        let sofar = inverted(rules, (n - 1) as nat);
        assert(inverted(rules, n).subrange(0, short.len() as int) =~= sofar.subrange(
            0,
            short.len() as int,
        ));
    }
}

/// Composing one entry with the base only appends.
pub proof fn composed_with_extends(base: Seq<Rule>, sofar: Seq<Rule>, left: Rule, n: nat)
    ensures
        extends(composed_with(base, sofar, left, n), sofar),
        composed_with(base, sofar, left, n).len() <= sofar.len() + n,
    decreases n,
{
    if n > 0 {
        composed_with_extends(base, sofar, left, (n - 1) as nat);
        let table = composed_with(base, sofar, left, (n - 1) as nat);
        assert(composed_with(base, sofar, left, n).subrange(0, sofar.len() as int)
            =~= table.subrange(0, sofar.len() as int));
    } else {
        assert(sofar.subrange(0, sofar.len() as int) =~= sofar);
    }
}

/// Each step of composing one entry extends the one before.
pub proof fn composed_with_grows(base: Seq<Rule>, sofar: Seq<Rule>, left: Rule, m: nat, n: nat)
    requires
        m <= n,
    ensures
        extends(composed_with(base, sofar, left, n), composed_with(base, sofar, left, m)),
    decreases n - m,
{
    let short = composed_with(base, sofar, left, m);
    if m == n {
        assert(short.subrange(0, short.len() as int) =~= short);
    } else {
        composed_with_grows(base, sofar, left, m, (n - 1) as nat);
        let table = composed_with(base, sofar, left, (n - 1) as nat);
        assert(composed_with(base, sofar, left, n).subrange(0, short.len() as int)
            =~= table.subrange(0, short.len() as int));
    }
}

/// Each step of the composition pass extends the one before.
pub proof fn composed_grows(base: Seq<Rule>, m: nat, n: nat)
    requires
        m <= n,
    ensures
        extends(composed(base, n), composed(base, m)),
    decreases n - m,
{
    let short = composed(base, m);
    if m == n {
        assert(short.subrange(0, short.len() as int) =~= short);
    } else {
        composed_grows(base, m, (n - 1) as nat);
        let sofar = composed(base, (n - 1) as nat);
        composed_with_extends(base, sofar, base[n - 1], base.len());
        extends_twice(composed(base, n), sofar, short);
    }
}

/// The composition pass only appends.
pub proof fn composed_extends(base: Seq<Rule>, n: nat)
    ensures
        extends(composed(base, n), base),
{
    composed_grows(base, 0, n);
}

/// The expanded table starts with the declared entries, followed by the
/// table of the inversion pass.
pub proof fn expanded_extends(rules: Seq<Rule>)
    ensures
        extends(symmetric(rules), rules),
        extends(expanded(rules), symmetric(rules)),
        extends(expanded(rules), rules),
{
    let base = symmetric(rules);
    inverted_extends(rules, rules.len());
    composed_extends(base, base.len());
    extends_twice(expanded(rules), base, rules);
}

/// The inversion pass keeps the entries distinct.
pub proof fn inverted_is_distinct(rules: Seq<Rule>, n: nat)
    requires
        distinct(rules),
    ensures
        distinct(inverted(rules, n)),
    decreases n,
{
    if n > 0 {
        inverted_is_distinct(rules, (n - 1) as nat);
        let sofar = inverted(rules, (n - 1) as nat);
        let rule = rules[n - 1];
        if !present(sofar, rule.to, rule.from) {
            push_absent_keeps_distinct(sofar, inverse(rule));
        }
    }
}

/// Composing one entry with the base keeps the entries distinct.
pub proof fn composed_with_is_distinct(base: Seq<Rule>, sofar: Seq<Rule>, left: Rule, n: nat)
    requires
        distinct(sofar),
    ensures
        distinct(composed_with(base, sofar, left, n)),
    decreases n,
{
    if n > 0 {
        composed_with_is_distinct(base, sofar, left, (n - 1) as nat);
        let table = composed_with(base, sofar, left, (n - 1) as nat);
        if composes(table, left, base[n - 1]) {
            push_absent_keeps_distinct(table, product(left, base[n - 1]));
        }
    }
}

/// The composition pass keeps the entries distinct.
pub proof fn composed_is_distinct(base: Seq<Rule>, n: nat)
    requires
        distinct(base),
    ensures
        distinct(composed(base, n)),
    decreases n,
{
    if n > 0 {
        composed_is_distinct(base, (n - 1) as nat);
        composed_with_is_distinct(base, composed(base, (n - 1) as nat), base[n - 1], base.len());
    }
}

/// The expanded table holds each pair at most once.
pub proof fn expansion_is_distinct(rules: Seq<Rule>)
    requires
        distinct(rules),
    ensures
        distinct(expanded(rules)),
{
    inverted_is_distinct(rules, rules.len());
    composed_is_distinct(symmetric(rules), symmetric(rules).len());
}

/// Every declared pair keeps its declared ratio in the expanded table.
pub proof fn expansion_keeps_declared(rules: Seq<Rule>, from: Seq<char>, to: Seq<char>)
    requires
        present(rules, from, to),
    ensures
        lookup(expanded(rules), from, to) == lookup(rules, from, to),
{
    expanded_extends(rules);
    extension_keeps_lookup(expanded(rules), rules, from, to);
}

/// Every entry that the inversion pass appends is the inverse of one of the
/// entries it has gone through, which is returned.
pub proof fn inverted_source(rules: Seq<Rule>, n: nat, k: int) -> (m: int)
    requires
        n <= rules.len(),
        rules.len() <= k < inverted(rules, n).len(),
    ensures
        0 <= m < n,
        inverted(rules, n)[k] == inverse(rules[m]),
    decreases n,
{
    let sofar = inverted(rules, (n - 1) as nat);
    inverted_extends(rules, 0);
    if k < sofar.len() {
        inverted_grows(rules, (n - 1) as nat, n);
        extends_keeps_entries(inverted(rules, n), sofar, k);
        inverted_source(rules, (n - 1) as nat, k)
    } else {
        n - 1
    }
}

/// After the inversion pass has gone through an entry, the swapped pair is
/// present.
pub proof fn inverted_covers(rules: Seq<Rule>, n: nat, m: int)
    requires
        0 <= m < n <= rules.len(),
    ensures
        present(inverted(rules, n), rules[m].to, rules[m].from),
    decreases n,
{
    let sofar = inverted(rules, (n - 1) as nat);
    let after = inverted(rules, n);
    let rule = rules[m];
    inverted_grows(rules, (n - 1) as nat, n);
    if m < n - 1 {
        inverted_covers(rules, (n - 1) as nat, m);
        extension_keeps_lookup(after, sofar, rule.to, rule.from);
    } else if !present(sofar, rule.to, rule.from) {
        entry_makes_present(after, after.len() - 1, rule.to, rule.from);
    }
}

/// Where a declared pair lacks its swapped pair, the expanded table holds
/// the swapped pair with the inverted ratio.
pub proof fn expansion_inverts_declared(rules: Seq<Rule>, from: Seq<char>, to: Seq<char>)
    requires
        present(rules, from, to),
        !present(rules, to, from),
    ensures
        lookup(expanded(rules), to, from) == Some(lookup(rules, from, to)->0.reciprocal()),
{
    position_is_first(rules, from, to);
    let i = position(rules, from, to)->0;
    let rule = rules[i];
    let sofar = inverted(rules, i as nat);
    let after = inverted(rules, (i + 1) as nat);
    inverted_extends(rules, i as nat);
    position_is_first(sofar, rule.to, rule.from);
    if present(sofar, rule.to, rule.from) {
        let k = position(sofar, rule.to, rule.from)->0;
        if k < rules.len() {
            extends_keeps_entries(sofar, rules, k);
            entry_makes_present(rules, k, to, from);
        } else {
            let m = inverted_source(rules, i as nat, k);
            assert(governs(rules[m], from, to));
        }
        assert(false);
    }
    assert(after == sofar.push(inverse(rule)));
    assert forall|j: int| 0 <= j < sofar.len() implies !governs(#[trigger] after[j], to, from) by {
        assert(after[j] == sofar[j]);
    }
    position_of_first(after, to, from, sofar.len() as int);
    inverted_grows(rules, (i + 1) as nat, rules.len());
    extension_keeps_lookup(symmetric(rules), after, to, from);
    expanded_extends(rules);
    extension_keeps_lookup(expanded(rules), symmetric(rules), to, from);
}

/// After the inversion pass, a pair is present exactly when the swapped
/// pair is.
pub proof fn inversion_is_symmetric(rules: Seq<Rule>, from: Seq<char>, to: Seq<char>)
    requires
        present(symmetric(rules), from, to),
    ensures
        present(symmetric(rules), to, from),
{
    let table = symmetric(rules);
    inverted_extends(rules, rules.len());
    position_is_first(table, from, to);
    let k = position(table, from, to)->0;
    if k < rules.len() {
        extends_keeps_entries(table, rules, k);
        inverted_covers(rules, rules.len(), k);
        position_respects_case(table, rules[k].to, rules[k].from, to, from);
    } else {
        let m = inverted_source(rules, rules.len(), k);
        extends_keeps_entries(table, rules, m);
        entry_makes_present(table, m, to, from);
    }
}

/// Every entry that composing `left` with the base appends is the product
/// of `left` and an entry of the base that it chains with, whose index is
/// returned.
pub proof fn composed_with_source(base: Seq<Rule>, sofar: Seq<Rule>, left: Rule, n: nat, k: int) -> (j: int)
    requires
        n <= base.len(),
        sofar.len() <= k < composed_with(base, sofar, left, n).len(),
    ensures
        0 <= j < n,
        composed_with(base, sofar, left, n)[k] == product(left, base[j]),
        chains(left, base[j]),
    decreases n,
{
    let table = composed_with(base, sofar, left, (n - 1) as nat);
    if k < table.len() {
        composed_with_grows(base, sofar, left, (n - 1) as nat, n);
        extends_keeps_entries(composed_with(base, sofar, left, n), table, k);
        composed_with_source(base, sofar, left, (n - 1) as nat, k)
    } else {
        n - 1
    }
}

/// Every entry that the composition pass appends is the product of two
/// entries of the base that chain, whose indices are returned.
pub proof fn composed_source(base: Seq<Rule>, n: nat, k: int) -> (steps: (int, int))
    requires
        n <= base.len(),
        base.len() <= k < composed(base, n).len(),
    ensures
        0 <= steps.0 < n,
        0 <= steps.1 < base.len(),
        composed(base, n)[k] == product(base[steps.0], base[steps.1]),
        chains(base[steps.0], base[steps.1]),
    decreases n,
{
    let sofar = composed(base, (n - 1) as nat);
    if k < sofar.len() {
        composed_grows(base, (n - 1) as nat, n);
        extends_keeps_entries(composed(base, n), sofar, k);
        composed_source(base, (n - 1) as nat, k)
    } else {
        let j = composed_with_source(base, sofar, base[n - 1], base.len(), k);
        (n - 1, j)
    }
}

/// After `left` has been composed with an entry of the base that it chains
/// with, the pair of their ends is present.
pub proof fn composed_with_covers(base: Seq<Rule>, sofar: Seq<Rule>, left: Rule, n: nat, j: int)
    requires
        0 <= j < n <= base.len(),
        chains(left, base[j]),
    ensures
        present(composed_with(base, sofar, left, n), left.from, base[j].to),
    decreases n,
{
    let table = composed_with(base, sofar, left, (n - 1) as nat);
    let after = composed_with(base, sofar, left, n);
    composed_with_grows(base, sofar, left, (n - 1) as nat, n);
    if j < n - 1 {
        composed_with_covers(base, sofar, left, (n - 1) as nat, j);
        extension_keeps_lookup(after, table, left.from, base[j].to);
    } else if !present(table, left.from, base[j].to) {
        entry_makes_present(after, after.len() - 1, left.from, base[j].to);
    }
}

/// After the composition pass has gone through an entry, the pair of ends
/// of that entry and any entry that it chains with is present.
pub proof fn composed_covers(base: Seq<Rule>, n: nat, i: int, j: int)
    requires
        0 <= i < n <= base.len(),
        0 <= j < base.len(),
        chains(base[i], base[j]),
    ensures
        present(composed(base, n), base[i].from, base[j].to),
    decreases n,
{
    let sofar = composed(base, (n - 1) as nat);
    let after = composed(base, n);
    if i < n - 1 {
        composed_covers(base, (n - 1) as nat, i, j);
        composed_grows(base, (n - 1) as nat, n);
        extension_keeps_lookup(after, sofar, base[i].from, base[j].to);
    } else {
        composed_with_covers(base, sofar, base[i], base.len(), j);
    }
}

/// Two steps through the table of the inversion pass that do not lead back
/// to where they started make a pair of the expanded table.
pub proof fn expansion_composes(rules: Seq<Rule>, from: Seq<char>, through: Seq<char>, to: Seq<char>)
    requires
        present(symmetric(rules), from, through),
        present(symmetric(rules), through, to),
        !same_unit(from, to),
    ensures
        present(expanded(rules), from, to),
{
    let base = symmetric(rules);
    position_is_first(base, from, through);
    position_is_first(base, through, to);
    let i = position(base, from, through)->0;
    let j = position(base, through, to)->0;
    composed_covers(base, base.len(), i, j);
    position_respects_case(expanded(rules), base[i].from, base[j].to, from, to);
}

/// The expanded table goes no further than two steps: a pair of it that the
/// inversion pass did not yield is made of two entries of the inversion
/// pass that chain, and holds the product of their ratios. The indices of
/// the two entries are returned.
pub proof fn expansion_stops_after_two_steps(rules: Seq<Rule>, from: Seq<char>, to: Seq<char>) -> (steps: (int, int))
    requires
        present(expanded(rules), from, to),
        !present(symmetric(rules), from, to),
    ensures
        0 <= steps.0 < symmetric(rules).len(),
        0 <= steps.1 < symmetric(rules).len(),
        chains(symmetric(rules)[steps.0], symmetric(rules)[steps.1]),
        same_unit(symmetric(rules)[steps.0].from, from),
        same_unit(symmetric(rules)[steps.1].to, to),
        lookup(expanded(rules), from, to) == Some(
            symmetric(rules)[steps.0].ratio.times(symmetric(rules)[steps.1].ratio),
        ),
{
    let base = symmetric(rules);
    let table = expanded(rules);
    expanded_extends(rules);
    position_is_first(table, from, to);
    let k = position(table, from, to)->0;
    if k < base.len() {
        extends_keeps_entries(table, base, k);
        entry_makes_present(base, k, from, to);
    }
    composed_source(base, base.len(), k)
}

/// In the expanded table a pair is present exactly when the swapped pair
/// is: whatever can be converted can be converted back.
pub proof fn expansion_is_symmetric(rules: Seq<Rule>, from: Seq<char>, to: Seq<char>)
    requires
        present(expanded(rules), from, to),
    ensures
        present(expanded(rules), to, from),
{
    let base = symmetric(rules);
    let table = expanded(rules);
    expanded_extends(rules);
    if present(base, from, to) {
        inversion_is_symmetric(rules, from, to);
        extension_keeps_lookup(table, base, to, from);
    } else {
        let (i, j) = expansion_stops_after_two_steps(rules, from, to);
        entry_makes_present(base, i, base[i].from, base[i].to);
        entry_makes_present(base, j, base[j].from, base[j].to);
        inversion_is_symmetric(rules, base[i].from, base[i].to);
        inversion_is_symmetric(rules, base[j].from, base[j].to);
        position_respects_case(base, base[j].to, base[j].from, to, base[i].to);
        position_respects_case(base, base[i].to, base[i].from, base[i].to, from);
        expansion_composes(rules, to, base[i].to, from);
    }
}

/// After the inversion pass a pair is present exactly when it was declared
/// in one direction or the other.
pub proof fn inversion_holds_both_directions(rules: Seq<Rule>, from: Seq<char>, to: Seq<char>)
    ensures
        present(symmetric(rules), from, to) <==> present(rules, from, to) || present(
            rules,
            to,
            from,
        ),
{
    let table = symmetric(rules);
    inverted_extends(rules, rules.len());
    if present(rules, from, to) {
        extension_keeps_lookup(table, rules, from, to);
    }
    if present(rules, to, from) {
        extension_keeps_lookup(table, rules, to, from);
        inversion_is_symmetric(rules, to, from);
    }
    if present(table, from, to) {
        position_is_first(table, from, to);
        let k = position(table, from, to)->0;
        if k < rules.len() {
            extends_keeps_entries(table, rules, k);
            entry_makes_present(rules, k, from, to);
        } else {
            let m = inverted_source(rules, rules.len(), k);
            entry_makes_present(rules, m, to, from);
        }
    }
}

/// The expanded table holds a pair exactly when the inversion pass yields
/// it, or yields two steps that lead from its first unit to its second and
/// the two units differ.
pub proof fn expansion_holds_one_and_two_steps(rules: Seq<Rule>, from: Seq<char>, to: Seq<char>)
    ensures
        present(expanded(rules), from, to) <==> present(symmetric(rules), from, to) || (!same_unit(
            from,
            to,
        ) && exists|through: Seq<char>| #[trigger]
            present(symmetric(rules), from, through) && present(symmetric(rules), through, to)),
{
    let base = symmetric(rules);
    let table = expanded(rules);
    expanded_extends(rules);
    if present(base, from, to) {
        extension_keeps_lookup(table, base, from, to);
    } else if present(table, from, to) {
        let (i, j) = expansion_stops_after_two_steps(rules, from, to);
        let through = base[i].to;
        entry_makes_present(base, i, from, through);
        entry_makes_present(base, j, through, to);
        assert(present(base, from, through) && present(base, through, to));
    }
    if !same_unit(from, to) && exists|through: Seq<char>| #[trigger]
        present(base, from, through) && present(base, through, to) {
        let through = choose|through: Seq<char>| #[trigger]
            present(base, from, through) && present(base, through, to);
        expansion_composes(rules, from, through, to);
    }
}

} // verus!
