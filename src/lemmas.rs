//! What the scan guarantees, proved from its definition.

use vstd::prelude::*;
use crate::parser::{
    is_first_rule, is_longest_end, is_match_end, item_view, items_view, matched, next_token, rule_matches,
    scan_end, some_rule_matches, tokens, Converter, LexError, Rule,
};

verus! {

proof fn lemma_first_rule_below<C>(rules: Seq<Rule<C>>, text: Seq<char>, n: int)
    requires
        n <= rules.len(),
        exists|k: int| 0 <= k < n && #[trigger] rule_matches(rules, k, text),
    ensures
        exists|k: int| is_first_rule(rules, text, k),
    decreases n,
{
    if exists|k: int| 0 <= k < n - 1 && #[trigger] rule_matches(rules, k, text) {
        lemma_first_rule_below(rules, text, n - 1);
    } else {
        assert(is_first_rule(rules, text, n - 1));
    }
}

proof fn lemma_longest_end_above<C>(rules: Seq<Rule<C>>, s: Seq<char>, pos: int, f: int)
    requires
        is_match_end(rules, s, pos, f),
    ensures
        exists|e: int| is_longest_end(rules, s, pos, e),
    decreases s.len() - f,
{
    if exists|g: int| f < g <= s.len() && #[trigger] is_match_end(rules, s, pos, g) {
        let g = choose|g: int| f < g <= s.len() && #[trigger] is_match_end(rules, s, pos, g);
        lemma_longest_end_above(rules, s, pos, g);
    } else {
        assert(is_longest_end(rules, s, pos, f));
    }
}

/// What `next_token` picks, stated without `choose`: the end of the longest
/// candidate that some rule matches and the first rule that matches it; or,
/// when there is none, no candidate at `pos` is matched by any rule.
pub proof fn lemma_next_token<C>(rules: Seq<Rule<C>>, s: Seq<char>, pos: int)
    ensures
        match next_token(rules, s, pos) {
            Some((e, k)) => is_longest_end(rules, s, pos, e) && is_first_rule(
                rules,
                s.subrange(pos, e),
                k,
            ),
            None => forall|f: int| !#[trigger] is_match_end(rules, s, pos, f),
        },
{
    if exists|e: int| is_longest_end(rules, s, pos, e) {
        let e = choose|e: int| is_longest_end(rules, s, pos, e);
        lemma_first_rule_below(rules, s.subrange(pos, e), rules.len() as int);
    } else {
        assert forall|f: int| !#[trigger] is_match_end(rules, s, pos, f) by {
            if is_match_end(rules, s, pos, f) {
                lemma_longest_end_above(rules, s, pos, f);
            }
        }
    }
}

/// Longest match: the token taken at `pos` spans the longest candidate that
/// any rule matches; no rule matches a longer one. When no token is taken,
/// no rule matches any non-empty candidate at `pos`.
pub proof fn lemma_longest_match<C>(rules: Seq<Rule<C>>, s: Seq<char>, pos: int)
    requires
        0 <= pos < s.len(),
    ensures
        match next_token(rules, s, pos) {
            Some((e, k)) => {
                &&& pos < e <= s.len()
                &&& 0 <= k < rules.len()
                &&& rule_matches(rules, k, s.subrange(pos, e))
                &&& forall|f: int, j: int|
                    e < f <= s.len() && 0 <= j < rules.len() ==> !#[trigger] rule_matches(
                        rules,
                        j,
                        s.subrange(pos, f),
                    )
            },
            None => forall|f: int, j: int|
                pos < f <= s.len() && 0 <= j < rules.len() ==> !#[trigger] rule_matches(
                    rules,
                    j,
                    s.subrange(pos, f),
                ),
        },
{
    lemma_next_token(rules, s, pos);
    match next_token(rules, s, pos) {
        Some((e, k)) => {
            assert forall|f: int, j: int|
                e < f <= s.len() && 0 <= j < rules.len() implies !#[trigger] rule_matches(
                rules,
                j,
                s.subrange(pos, f),
            ) by {
                assert(!is_match_end(rules, s, pos, f));
            }
        },
        None => {
            assert forall|f: int, j: int|
                pos < f <= s.len() && 0 <= j < rules.len() implies !#[trigger] rule_matches(
                rules,
                j,
                s.subrange(pos, f),
            ) by {
                assert(!is_match_end(rules, s, pos, f));
            }
        },
    }
}

/// Registration order breaks ties: no rule registered before the one that
/// produced the token matches the same text.
pub proof fn lemma_first_registered_rule<C>(rules: Seq<Rule<C>>, s: Seq<char>, pos: int)
    ensures
        next_token(rules, s, pos) matches Some((e, k)) ==> forall|j: int|
            0 <= j < k ==> !#[trigger] rule_matches(rules, j, s.subrange(pos, e)),
{
    lemma_next_token(rules, s, pos);
}

/// A scan takes its input apart without gap or overlap: the texts it turns
/// into tokens are non-empty and, concatenated in order, give exactly the
/// text from `pos` to where the scan stops. Each token is the conversion of
/// its text by the rule that matched it. The scan stops short of the end
/// only with a single failure item after all tokens, so a scan that yields
/// no failure item reconstitutes the whole remaining text.
pub proof fn lemma_scan_covers_text<C: Converter>(rules: Seq<Rule<C>>, s: Seq<char>, pos: int)
    requires
        0 <= pos <= s.len(),
    ensures
        ({
            let m = matched(rules, s, pos);
            let t = tokens(rules, s, pos);
            let end = scan_end(rules, s, pos);
            &&& pos <= end <= s.len()
            &&& m.map_values(|p: (Seq<char>, int)| p.0).flatten() == s.subrange(pos, end)
            &&& t.len() == if end < s.len() {
                m.len() + 1
            } else {
                m.len()
            }
            &&& forall|i: int|
                0 <= i < m.len() ==> {
                    &&& (#[trigger] m[i]).0.len() > 0
                    &&& 0 <= m[i].1 < rules.len()
                    &&& t[i] == Ok::<_, LexError>(rules[m[i].1].on_found.spec_convert(m[i].0))
                }
            &&& end < s.len() ==> t.last() == Err::<<C::Token as View>::V, _>(LexError)
        }),
    decreases s.len() - pos,
{
    let m = matched(rules, s, pos);
    let texts = m.map_values(|p: (Seq<char>, int)| p.0);
    if pos == s.len() {
        assert(texts =~= Seq::<Seq<char>>::empty());
        assert(s.subrange(pos, pos) =~= Seq::<char>::empty());
    } else {
        lemma_next_token(rules, s, pos);
        match next_token(rules, s, pos) {
            Some((e, k)) => {
                lemma_scan_covers_text(rules, s, e);
                let rest = matched(rules, s, e);
                let rest_texts = rest.map_values(|p: (Seq<char>, int)| p.0);
                assert(texts.drop_first() =~= rest_texts);
                assert(texts.first() == s.subrange(pos, e));
                assert(s.subrange(pos, scan_end(rules, s, pos)) =~= s.subrange(pos, e)
                    + s.subrange(e, scan_end(rules, s, e)));
                let t = tokens(rules, s, pos);
                assert forall|i: int| 0 < i < m.len() implies #[trigger] m[i] == rest[i - 1] && t[i]
                    == tokens(rules, s, e)[i - 1] by {}
            },
            None => {
                assert(texts =~= Seq::<Seq<char>>::empty());
                assert(s.subrange(pos, pos) =~= Seq::<char>::empty());
            },
        }
    }
}

/// Scanning is repeatable: any two full scans of the same text with the
/// same rules yield the same items.
pub proof fn lemma_scan_repeatable<C: Converter>(
    rules: Seq<Rule<C>>,
    s: Seq<char>,
    first: Seq<Result<C::Token, LexError>>,
    second: Seq<Result<C::Token, LexError>>,
)
    requires
        items_view(first) == tokens(rules, s, 0),
        items_view(second) == tokens(rules, s, 0),
    ensures
        first.len() == second.len(),
        forall|i: int| 0 <= i < first.len() ==> item_view(#[trigger] first[i]) == item_view(second[i]),
{
    assert(items_view(first).len() == first.len());
    assert(items_view(second).len() == second.len());
    assert forall|i: int| 0 <= i < first.len() implies item_view(#[trigger] first[i]) == item_view(second[i]) by {
        assert(items_view(first)[i] == item_view(first[i]));
        assert(items_view(second)[i] == item_view(second[i]));
    }
}

} // verus!
