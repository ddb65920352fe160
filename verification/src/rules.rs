//! Rules and rule sets. A rule matches a neighborhood when every symbol it
//! needs is present among the gathered 9 cells; a rule set is scanned in
//! order and the first match wins, with "keep the current value" as the
//! fallback when nothing matches.

use vstd::prelude::*;

verus! {

/// One rule: it matches a neighborhood when every symbol of `symbols_needed`
/// is present there, and then yields `output_symbol`.
pub struct WorldRule {
    pub symbols_needed: Vec<u32>,
    pub output_symbol: u32,
}

/// Whether a rule whose needed symbols are `needed` matches a neighborhood
/// presenting the symbol set `present`: every needed symbol is present,
/// multiplicity ignored.
pub open spec fn rule_matches_set(needed: Seq<u32>, present: Set<u32>) -> bool {
    forall|k: int| 0 <= k < needed.len() ==> present.contains(#[trigger] needed[k])
}

/// The symbol produced by scanning `rules` in order against the symbol set
/// `present`: the output of the first rule that matches, or `fallback` when
/// none does.
pub open spec fn first_match(rules: Seq<WorldRule>, present: Set<u32>, fallback: u32) -> u32
    decreases rules.len(),
{
    if rules.len() == 0 {
        fallback
    } else if rule_matches_set(rules[0].symbols_needed@, present) {
        rules[0].output_symbol
    } else {
        first_match(rules.skip(1), present, fallback)
    }
}

/// A rule fit for a run over `symbol_count` symbols: it needs at least one
/// symbol, and every symbol it mentions lies below `symbol_count`.
pub open spec fn rule_valid(rule: WorldRule, symbol_count: int) -> bool {
    &&& rule.symbols_needed@.len() >= 1
    &&& forall|k: int|
        0 <= k < rule.symbols_needed@.len() ==> (#[trigger] rule.symbols_needed@[k]) < symbol_count
    &&& rule.output_symbol < symbol_count
}

/// Rule priority: when rule `i` matches and every rule before it fails to
/// match, the scan returns rule `i`'s output — never a later rule's.
pub proof fn lemma_rule_priority(rules: Seq<WorldRule>, present: Set<u32>, fallback: u32, i: int)
    requires
        0 <= i < rules.len(),
        rule_matches_set(rules[i].symbols_needed@, present),
        forall|j: int| 0 <= j < i ==> !rule_matches_set(#[trigger] rules[j].symbols_needed@, present),
    ensures
        first_match(rules, present, fallback) == rules[i].output_symbol,
    decreases i,
{
    if i > 0 {
        assert(!rule_matches_set(rules[0].symbols_needed@, present));
        assert(rules.skip(1)[i - 1] == rules[i]);
        assert(forall|j: int|
            0 <= j < i - 1 ==> rules.skip(1)[j] == rules[j + 1]
                && !rule_matches_set(#[trigger] rules.skip(1)[j].symbols_needed@, present));
        lemma_rule_priority(rules.skip(1), present, fallback, i - 1);
    }
}

/// Fallback: when no rule of the set matches, the scan returns the fallback
/// value unchanged.
pub proof fn lemma_rule_fallback(rules: Seq<WorldRule>, present: Set<u32>, fallback: u32)
    requires
        forall|j: int|
            0 <= j < rules.len() ==> !rule_matches_set(
                #[trigger] rules[j].symbols_needed@,
                present,
            ),
    ensures
        first_match(rules, present, fallback) == fallback,
    decreases rules.len(),
{
    if rules.len() > 0 {
        assert(forall|j: int|
            0 <= j < rules.len() - 1 ==> rules.skip(1)[j] == rules[j + 1]
                && !rule_matches_set(#[trigger] rules.skip(1)[j].symbols_needed@, present));
        lemma_rule_fallback(rules.skip(1), present, fallback);
    }
}

/// Round-trip matching: a neighborhood set built as an exact copy of a rule's
/// needed symbols, plus arbitrary extra symbols, matches that rule.
pub proof fn lemma_round_trip_match(needed: Seq<u32>, extra: Set<u32>)
    ensures
        rule_matches_set(needed, needed.to_set().union(extra)),
{
    assert forall|k: int| 0 <= k < needed.len() implies needed.to_set().union(extra).contains(
        #[trigger] needed[k],
    ) by {
        assert(needed.to_set().contains(needed[k]));
    }
}

/// Whatever the present set, the scan returns either some rule's output or
/// the fallback; with valid rules and an in-range fallback the result stays
/// below `symbol_count`.
pub proof fn lemma_first_match_in_range(
    rules: Seq<WorldRule>,
    present: Set<u32>,
    fallback: u32,
    symbol_count: int,
)
    requires
        forall|j: int| 0 <= j < rules.len() ==> rule_valid(#[trigger] rules[j], symbol_count),
        fallback < symbol_count,
    ensures
        first_match(rules, present, fallback) < symbol_count,
    decreases rules.len(),
{
    if rules.len() > 0 && !rule_matches_set(rules[0].symbols_needed@, present) {
        assert(forall|j: int|
            0 <= j < rules.len() - 1 ==> #[trigger] rules.skip(1)[j] == rules[j + 1]);
        lemma_first_match_in_range(rules.skip(1), present, fallback, symbol_count);
    }
}

/// Whether `v` holds `s`, by linear scan.
pub fn vec_contains(v: &Vec<u32>, s: u32) -> (r: bool)
    ensures
        r == v@.contains(s),
{
    let mut k: usize = 0;
    while k < v.len()
        invariant
            0 <= k <= v@.len(),
            forall|m: int| 0 <= m < k ==> v@[m] != s,
        decreases v@.len() - k,
    {
        if v[k] == s {
            return true;
        }
        k = k + 1;
    }
    false
}

/// Whether the rule matches a neighborhood gathered into `neigh`: every
/// needed symbol occurs somewhere among the gathered cells.
pub fn rule_matches(rule: &WorldRule, neigh: &Vec<u32>) -> (r: bool)
    ensures
        r == rule_matches_set(rule.symbols_needed@, neigh@.to_set()),
{
    let mut k: usize = 0;
    while k < rule.symbols_needed.len()
        invariant
            0 <= k <= rule.symbols_needed@.len(),
            forall|m: int|
                0 <= m < k ==> neigh@.to_set().contains(#[trigger] rule.symbols_needed@[m]),
        decreases rule.symbols_needed@.len() - k,
    {
        if !vec_contains(neigh, rule.symbols_needed[k]) {
            assert(!neigh@.to_set().contains(rule.symbols_needed@[k as int]));
            return false;
        }
        k = k + 1;
    }
    true
}

} // verus!
