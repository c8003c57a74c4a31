//! What it means for a text to set off rules, and what follows from it.
//!
//! A chat's matcher is compiled from the pattern texts of its rules, each
//! text once. A text sets off the rules of every pattern that matches it:
//! the patterns in the order in which they were first registered, and the
//! rules that share a pattern in the order in which they were registered.

use crate::autoreplies::AutoreplyView;
use crate::groups::{distinct_texts, group_at};
use crate::pattern::pattern_matches;
use vstd::prelude::*;

verus! {

/// The pattern texts of a run of rules, in order.
pub open spec fn patterns_of(rules: Seq<AutoreplyView>) -> Seq<Seq<char>> {
    rules.map_values(|r: AutoreplyView| r.pattern)
}

/// The patterns that a chat's matcher is compiled from: each pattern text
/// once, in the order in which the texts were first registered.
pub open spec fn distinct_patterns(rules: Seq<AutoreplyView>) -> Seq<Seq<char>> {
    distinct_texts(patterns_of(rules))
}

/// The rules that share the pattern text `pattern`, in registration order.
pub open spec fn rules_with(rules: Seq<AutoreplyView>, pattern: Seq<char>) -> Seq<AutoreplyView>
    decreases rules.len(),
{
    if rules.len() == 0 {
        Seq::empty()
    } else {
        let front = rules_with(rules.drop_last(), pattern);
        if rules.last().pattern == pattern {
            front.push(rules.last())
        } else {
            front
        }
    }
}

/// The rules of chat `chat`, in registration order.
pub open spec fn rules_of_chat(rules: Seq<AutoreplyView>, chat: i64) -> Seq<AutoreplyView>
    decreases rules.len(),
{
    if rules.len() == 0 {
        Seq::empty()
    } else {
        let front = rules_of_chat(rules.drop_last(), chat);
        if rules.last().chat_id == chat {
            front.push(rules.last())
        } else {
            front
        }
    }
}

/// The rules whose own pattern matches `text`, in registration order.
pub open spec fn matching_rules(rules: Seq<AutoreplyView>, text: Seq<char>) -> Seq<AutoreplyView>
    decreases rules.len(),
{
    if rules.len() == 0 {
        Seq::empty()
    } else {
        let front = matching_rules(rules.drop_last(), text);
        if pattern_matches(rules.last().pattern, text) {
            front.push(rules.last())
        } else {
            front
        }
    }
}

/// The rules of the matching patterns among `patterns`: pattern by pattern in
/// the order given, and under each pattern the rules that share it.
pub open spec fn expanded(
    patterns: Seq<Seq<char>>,
    rules: Seq<AutoreplyView>,
    text: Seq<char>,
) -> Seq<AutoreplyView>
    decreases patterns.len(),
{
    if patterns.len() == 0 {
        Seq::empty()
    } else {
        let front = expanded(patterns.drop_last(), rules, text);
        if pattern_matches(patterns.last(), text) {
            front + rules_with(rules, patterns.last())
        } else {
            front
        }
    }
}

/// The rules that `text` sets off: those of each matching pattern, the
/// patterns in the order of their first registration, and the rules that
/// share a pattern in the order of theirs.
pub open spec fn matches_of(rules: Seq<AutoreplyView>, text: Seq<char>) -> Seq<AutoreplyView> {
    expanded(distinct_patterns(rules), rules, text)
}

/// Whether two rules would be taken for one: same chat, same name.
pub open spec fn same_name(a: AutoreplyView, b: AutoreplyView) -> bool {
    a.chat_id == b.chat_id && a.name == b.name
}

/// Whether `rules` holds a rule of chat `chat_id` that is called `name`.
pub open spec fn holds_name(rules: Seq<AutoreplyView>, chat_id: i64, name: Seq<char>) -> bool {
    exists|i: int|
        0 <= i < rules.len() && (#[trigger] rules[i]).chat_id == chat_id && rules[i].name == name
}

/// Whether `rules` holds a rule that `rule` would be taken for.
pub open spec fn name_taken(rules: Seq<AutoreplyView>, rule: AutoreplyView) -> bool {
    holds_name(rules, rule.chat_id, rule.name)
}

/// No two rules share chat and name.
pub open spec fn distinct_names(rules: Seq<AutoreplyView>) -> bool {
    forall|i: int, j: int|
        0 <= i < j < rules.len() ==> !same_name(#[trigger] rules[i], #[trigger] rules[j])
}

/// The places of the rules that share `pattern`, ascending.
pub open spec fn places_with(rules: Seq<AutoreplyView>, pattern: Seq<char>) -> Seq<usize>
    decreases rules.len(),
{
    if rules.len() == 0 {
        Seq::empty()
    } else {
        let front = places_with(rules.drop_last(), pattern);
        if rules.last().pattern == pattern {
            front.push((rules.len() - 1) as usize)
        } else {
            front
        }
    }
}

/// The rules at the given places.
pub open spec fn rules_at(rules: Seq<AutoreplyView>, places: Seq<usize>) -> Seq<AutoreplyView> {
    places.map_values(|i: usize| rules[i as int])
}

/// For every pattern text the places of the rules that share it.
pub open spec fn grouping(rules: Seq<AutoreplyView>) -> Map<Seq<char>, Seq<usize>>
    decreases rules.len(),
{
    if rules.len() == 0 {
        Map::empty()
    } else {
        let front = grouping(rules.drop_last());
        front.insert(
            rules.last().pattern,
            group_at(front, rules.last().pattern).push((rules.len() - 1) as usize),
        )
    }
}

/// A list without repetitions holds the texts of the list it was made from.
pub(crate) proof fn lemma_distinct_texts_contains(texts: Seq<Seq<char>>, text: Seq<char>)
    ensures
        distinct_texts(texts).contains(text) <==> texts.contains(text),
    decreases texts.len(),
{
    if texts.len() > 0 {
        let front = texts.drop_last();
        let last = texts.last();
        let kept = distinct_texts(front);
        let all = distinct_texts(texts);
        lemma_distinct_texts_contains(front, text);
        assert(forall|k: int| 0 <= k < kept.len() ==> all[k] == kept[k]);
        if texts.contains(text) {
            let i = choose|i: int| 0 <= i < texts.len() && texts[i] == text;
            if i < front.len() {
                assert(front[i] == text);
                let k = choose|k: int| 0 <= k < kept.len() && kept[k] == text;
                assert(all[k] == text);
            } else if kept.contains(last) {
                assert(all == kept);
            } else {
                assert(all[kept.len() as int] == text);
            }
            assert(all.contains(text));
        }
        if all.contains(text) {
            let k = choose|k: int| 0 <= k < all.len() && all[k] == text;
            if k < kept.len() {
                assert(kept[k] == text);
                let i = choose|i: int| 0 <= i < front.len() && front[i] == text;
                assert(texts[i] == text);
            } else {
                assert(texts[texts.len() - 1] == text);
            }
            assert(texts.contains(text));
        }
    }
}

/// A list without repetitions has none.
pub proof fn lemma_distinct_texts_no_duplicates(texts: Seq<Seq<char>>)
    ensures
        distinct_texts(texts).no_duplicates(),
    decreases texts.len(),
{
    if texts.len() > 0 {
        lemma_distinct_texts_no_duplicates(texts.drop_last());
    }
}

/// The places of the rules that share a pattern lie within the rules.
pub(crate) proof fn lemma_places_in_range(rules: Seq<AutoreplyView>, pattern: Seq<char>)
    requires
        rules.len() <= usize::MAX,
    ensures
        forall|k: int|
            0 <= k < places_with(rules, pattern).len() ==> (#[trigger] places_with(
                rules,
                pattern,
            )[k]) < rules.len(),
    decreases rules.len(),
{
    if rules.len() > 0 {
        let front = rules.drop_last();
        lemma_places_in_range(front, pattern);
        assert forall|k: int| 0 <= k < places_with(rules, pattern).len() implies (
        #[trigger] places_with(rules, pattern)[k]) < rules.len() by {
            if k < places_with(front, pattern).len() {
                assert(places_with(front, pattern)[k] < front.len());
            }
        }
    }
}

/// At the places of the rules that share a pattern stand those rules.
pub(crate) proof fn lemma_rules_at_places(rules: Seq<AutoreplyView>, pattern: Seq<char>)
    requires
        rules.len() <= usize::MAX,
    ensures
        rules_at(rules, places_with(rules, pattern)) == rules_with(rules, pattern),
    decreases rules.len(),
{
    if rules.len() > 0 {
        let front = rules.drop_last();
        lemma_rules_at_places(front, pattern);
        lemma_places_in_range(front, pattern);
        let places = places_with(front, pattern);
        assert(rules_at(rules, places) =~= rules_at(front, places));
        assert(rules_at(rules, places_with(rules, pattern)) =~= rules_with(rules, pattern));
    } else {
        assert(rules_at(rules, places_with(rules, pattern)) =~= rules_with(rules, pattern));
    }
}

/// The grouping holds exactly the pattern texts of the rules, and under each
/// the places of the rules that share it.
pub(crate) proof fn lemma_grouping(rules: Seq<AutoreplyView>, pattern: Seq<char>)
    ensures
        grouping(rules).contains_key(pattern) <==> patterns_of(rules).contains(pattern),
        group_at(grouping(rules), pattern) == places_with(rules, pattern),
    decreases rules.len(),
{
    if rules.len() > 0 {
        let front = rules.drop_last();
        lemma_grouping(front, pattern);
        lemma_grouping(front, rules.last().pattern);
        if patterns_of(rules).contains(pattern) {
            let i = choose|i: int| 0 <= i < rules.len() && patterns_of(rules)[i] == pattern;
            if i < front.len() {
                assert(patterns_of(front)[i] == pattern);
            }
        }
        if patterns_of(front).contains(pattern) {
            let i = choose|i: int| 0 <= i < front.len() && patterns_of(front)[i] == pattern;
            assert(patterns_of(rules)[i] == pattern);
        }
        if rules.last().pattern == pattern {
            assert(patterns_of(rules)[rules.len() - 1] == pattern);
        }
    }
}

/// Where no rule carries `pattern`, no rule shares it.
pub(crate) proof fn lemma_rules_with_absent(rules: Seq<AutoreplyView>, pattern: Seq<char>)
    requires
        forall|i: int| 0 <= i < rules.len() ==> (#[trigger] rules[i]).pattern != pattern,
    ensures
        rules_with(rules, pattern) == Seq::<AutoreplyView>::empty(),
    decreases rules.len(),
{
    if rules.len() > 0 {
        let front = rules.drop_last();
        assert forall|i: int| 0 <= i < front.len() implies (#[trigger] front[i]).pattern
            != pattern by {
            assert(rules[i].pattern != pattern);
        }
        lemma_rules_with_absent(front, pattern);
        assert(rules[rules.len() - 1].pattern != pattern);
    }
}

/// A rule is among the rules that share its pattern, and every rule among
/// them is a rule of the set with that pattern.
pub(crate) proof fn lemma_rules_with_members(rules: Seq<AutoreplyView>, pattern: Seq<char>)
    ensures
        forall|i: int|
            0 <= i < rules.len() && (#[trigger] rules[i]).pattern == pattern ==> rules_with(
                rules,
                pattern,
            ).contains(rules[i]),
        forall|k: int|
            0 <= k < rules_with(rules, pattern).len() ==> (#[trigger] rules_with(
                rules,
                pattern,
            )[k]).pattern == pattern && rules.contains(rules_with(rules, pattern)[k]),
    decreases rules.len(),
{
    if rules.len() > 0 {
        let front = rules.drop_last();
        let shared = rules_with(rules, pattern);
        let before = rules_with(front, pattern);
        lemma_rules_with_members(front, pattern);
        assert forall|i: int|
            0 <= i < rules.len() && (#[trigger] rules[i]).pattern == pattern implies shared.contains(
            rules[i],
        ) by {
            if i < front.len() {
                assert(front[i].pattern == pattern);
                let k = choose|k: int| 0 <= k < before.len() && before[k] == front[i];
                assert(shared[k] == rules[i]);
            } else {
                assert(shared[shared.len() - 1] == rules[i]);
            }
        }
        assert forall|k: int| 0 <= k < shared.len() implies (#[trigger] shared[k]).pattern
            == pattern && rules.contains(shared[k]) by {
            if k < before.len() {
                assert(before[k].pattern == pattern && front.contains(before[k]));
                let i = choose|i: int| 0 <= i < front.len() && front[i] == before[k];
                assert(rules[i] == shared[k]);
            } else {
                assert(rules[rules.len() - 1] == shared[k]);
            }
        }
    }
}

/// What a matching pattern brings is part of what the patterns bring, and
/// nothing else is.
pub(crate) proof fn lemma_expanded_members(
    patterns: Seq<Seq<char>>,
    rules: Seq<AutoreplyView>,
    text: Seq<char>,
    rule: AutoreplyView,
)
    ensures
        expanded(patterns, rules, text).contains(rule) <==> exists|k: int|
            0 <= k < patterns.len() && pattern_matches(#[trigger] patterns[k], text) && rules_with(
                rules,
                patterns[k],
            ).contains(rule),
    decreases patterns.len(),
{
    if patterns.len() > 0 {
        let front = patterns.drop_last();
        let last = patterns.last();
        let before = expanded(front, rules, text);
        let all = expanded(patterns, rules, text);
        let group = rules_with(rules, last);
        lemma_expanded_members(front, rules, text, rule);
        if all.contains(rule) {
            let n = choose|n: int| 0 <= n < all.len() && all[n] == rule;
            if n < before.len() {
                assert(before[n] == rule);
                let k = choose|k: int|
                    0 <= k < front.len() && pattern_matches(#[trigger] front[k], text)
                        && rules_with(rules, front[k]).contains(rule);
                assert(pattern_matches(patterns[k], text) && rules_with(
                    rules,
                    patterns[k],
                ).contains(rule));
            } else {
                assert(group[n - before.len()] == rule);
                assert(pattern_matches(patterns[patterns.len() - 1], text) && rules_with(
                    rules,
                    patterns[patterns.len() - 1],
                ).contains(rule));
            }
        }
        if exists|k: int|
            0 <= k < patterns.len() && pattern_matches(#[trigger] patterns[k], text) && rules_with(
                rules,
                patterns[k],
            ).contains(rule) {
            let k = choose|k: int|
                0 <= k < patterns.len() && pattern_matches(#[trigger] patterns[k], text)
                    && rules_with(rules, patterns[k]).contains(rule);
            if k < front.len() {
                assert(pattern_matches(front[k], text) && rules_with(rules, front[k]).contains(
                    rule,
                ));
                let n = choose|n: int| 0 <= n < before.len() && before[n] == rule;
                assert(all[n] == rule);
            } else {
                let m = choose|m: int| 0 <= m < group.len() && group[m] == rule;
                assert(all[before.len() + m] == rule);
            }
        }
    }
}

/// Sharing a pattern drops no rule: a text sets off exactly the rules of the
/// set whose own pattern matches it.
pub proof fn lemma_matches_are_the_matching_rules(
    rules: Seq<AutoreplyView>,
    text: Seq<char>,
    rule: AutoreplyView,
)
    ensures
        matches_of(rules, text).contains(rule) <==> rules.contains(rule) && pattern_matches(
            rule.pattern,
            text,
        ),
{
    let patterns = distinct_patterns(rules);
    lemma_expanded_members(patterns, rules, text, rule);
    lemma_rules_with_members(rules, rule.pattern);
    lemma_distinct_texts_contains(patterns_of(rules), rule.pattern);
    if matches_of(rules, text).contains(rule) {
        let k = choose|k: int|
            0 <= k < patterns.len() && pattern_matches(#[trigger] patterns[k], text) && rules_with(
                rules,
                patterns[k],
            ).contains(rule);
        lemma_rules_with_members(rules, patterns[k]);
        let shared = rules_with(rules, patterns[k]);
        let m = choose|m: int| 0 <= m < shared.len() && shared[m] == rule;
        assert(shared[m].pattern == patterns[k] && rules.contains(shared[m]));
    }
    if rules.contains(rule) && pattern_matches(rule.pattern, text) {
        let i = choose|i: int| 0 <= i < rules.len() && rules[i] == rule;
        assert(patterns_of(rules)[i] == rule.pattern);
        assert(patterns.contains(rule.pattern));
        let k = choose|k: int| 0 <= k < patterns.len() && patterns[k] == rule.pattern;
        assert(rules[i].pattern == rule.pattern);
        assert(rules_with(rules, patterns[k]).contains(rules[i]));
    }
}

/// How often `text` occurs in `texts`.
pub open spec fn occurrences(texts: Seq<Seq<char>>, text: Seq<char>) -> nat
    decreases texts.len(),
{
    if texts.len() == 0 {
        0
    } else if texts.last() == text {
        occurrences(texts.drop_last(), text) + 1
    } else {
        occurrences(texts.drop_last(), text)
    }
}

/// A text that a list does not hold occurs in it no time.
proof fn lemma_occurrences_absent(texts: Seq<Seq<char>>, text: Seq<char>)
    requires
        !texts.contains(text),
    ensures
        occurrences(texts, text) == 0,
    decreases texts.len(),
{
    if texts.len() > 0 {
        let front = texts.drop_last();
        assert(texts[texts.len() - 1] != text);
        if front.contains(text) {
            let i = choose|i: int| 0 <= i < front.len() && front[i] == text;
            assert(texts[i] == text);
        }
        lemma_occurrences_absent(front, text);
    }
}

/// In the pattern texts that the matcher is compiled from, each pattern
/// text of a rule occurs exactly once.
proof fn lemma_occurrences_in_distinct(texts: Seq<Seq<char>>, text: Seq<char>)
    ensures
        occurrences(distinct_texts(texts), text) == if texts.contains(text) {
            1nat
        } else {
            0nat
        },
    decreases texts.len(),
{
    if texts.len() > 0 {
        let front = texts.drop_last();
        let last = texts.last();
        let kept = distinct_texts(front);
        lemma_occurrences_in_distinct(front, text);
        lemma_distinct_texts_contains(front, last);
        lemma_distinct_texts_contains(front, text);
        assert(texts[texts.len() - 1] == last);
        if texts.contains(text) {
            let i = choose|i: int| 0 <= i < texts.len() && texts[i] == text;
            if i < front.len() {
                assert(front[i] == text);
            }
        }
        if front.contains(text) {
            let i = choose|i: int| 0 <= i < front.len() && front[i] == text;
            assert(texts[i] == text);
        }
        if !kept.contains(last) {
            assert(kept.push(last).drop_last() == kept);
        }
    }
}

/// One more rule brings one more match for each time that its pattern
/// text occurs among the patterns, if that pattern matches, and none otherwise.
proof fn lemma_expanded_len_push(
    patterns: Seq<Seq<char>>,
    rules: Seq<AutoreplyView>,
    rule: AutoreplyView,
    text: Seq<char>,
)
    ensures
        expanded(patterns, rules.push(rule), text).len() == expanded(patterns, rules, text).len()
            + if pattern_matches(rule.pattern, text) {
            occurrences(patterns, rule.pattern)
        } else {
            0nat
        },
    decreases patterns.len(),
{
    if patterns.len() > 0 {
        lemma_expanded_len_push(patterns.drop_last(), rules, rule, text);
        assert(rules.push(rule).drop_last() == rules);
    }
}

/// Sharing a pattern neither drops a rule nor brings one twice: a text
/// sets off as many rules as there are rules whose pattern matches it.
pub proof fn lemma_matches_count(rules: Seq<AutoreplyView>, text: Seq<char>)
    ensures
        matches_of(rules, text).len() == matching_rules(rules, text).len(),
    decreases rules.len(),
{
    if rules.len() > 0 {
        let front = rules.drop_last();
        let rule = rules.last();
        let known = distinct_patterns(front);
        lemma_matches_count(front, text);
        assert(front.push(rule) == rules);
        assert(patterns_of(rules).drop_last() == patterns_of(front));
        assert(patterns_of(rules).last() == rule.pattern);
        lemma_distinct_texts_contains(patterns_of(front), rule.pattern);
        lemma_occurrences_in_distinct(patterns_of(front), rule.pattern);
        lemma_expanded_len_push(known, front, rule, text);
        if !known.contains(rule.pattern) {
            assert(known.push(rule.pattern).drop_last() == known);
            assert forall|i: int| 0 <= i < front.len() implies (#[trigger] front[i]).pattern
                != rule.pattern by {
                assert(patterns_of(front)[i] == front[i].pattern);
            }
            lemma_rules_with_absent(front, rule.pattern);
        }
    }
}

/// Where every rule has a pattern text of its own, nothing is left out when
/// repetitions are removed from the pattern texts.
pub(crate) proof fn lemma_distinct_texts_of_distinct(texts: Seq<Seq<char>>)
    requires
        texts.no_duplicates(),
    ensures
        distinct_texts(texts) == texts,
    decreases texts.len(),
{
    if texts.len() > 0 {
        let front = texts.drop_last();
        lemma_distinct_texts_of_distinct(front);
        lemma_distinct_texts_contains(front, texts.last());
        if front.contains(texts.last()) {
            let i = choose|i: int| 0 <= i < front.len() && front[i] == texts.last();
            assert(texts[i] == texts[texts.len() - 1]);
        }
        assert(front.push(texts.last()) == texts);
    }
}

/// Where the rules have pairwise distinct pattern texts, a text sets off
/// exactly the rules whose pattern matches it, in the order of their
/// registration. Rules that do not match have no part in the result,
/// wherever they stand.
pub proof fn lemma_matches_of_distinct_patterns(rules: Seq<AutoreplyView>, text: Seq<char>)
    requires
        patterns_of(rules).no_duplicates(),
    ensures
        matches_of(rules, text) == matching_rules(rules, text),
{
    lemma_distinct_texts_of_distinct(patterns_of(rules));
    lemma_expanded_prefix(rules, text, rules.len() as int);
    assert(patterns_of(rules).take(rules.len() as int) == patterns_of(rules));
    assert(rules.take(rules.len() as int) == rules);
}

/// A rule whose pattern does not match is not among the matching rules,
/// wherever it stands.
proof fn lemma_matching_rules_insert(
    rules: Seq<AutoreplyView>,
    place: int,
    rule: AutoreplyView,
    text: Seq<char>,
)
    requires
        0 <= place <= rules.len(),
        !pattern_matches(rule.pattern, text),
    ensures
        matching_rules(rules.insert(place, rule), text) == matching_rules(rules, text),
    decreases rules.len() - place,
{
    let longer = rules.insert(place, rule);
    if place == rules.len() {
        assert(longer.drop_last() == rules);
        assert(longer.last() == rule);
    } else {
        let front = rules.drop_last();
        lemma_matching_rules_insert(front, place, rule, text);
        assert(longer.drop_last() == front.insert(place, rule));
        assert(longer.last() == rules.last());
    }
}

/// Where the rules have pairwise distinct pattern texts, a rule whose
/// pattern does not match changes nothing about what a text sets off,
/// wherever among the rules it is registered.
pub proof fn lemma_nonmatching_rule_has_no_part(
    rules: Seq<AutoreplyView>,
    place: int,
    rule: AutoreplyView,
    text: Seq<char>,
)
    requires
        0 <= place <= rules.len(),
        patterns_of(rules.insert(place, rule)).no_duplicates(),
        !pattern_matches(rule.pattern, text),
    ensures
        matches_of(rules.insert(place, rule), text) == matches_of(rules, text),
{
    let longer = rules.insert(place, rule);
    assert(patterns_of(rules).no_duplicates()) by {
        assert forall|i: int, j: int|
            0 <= i < rules.len() && 0 <= j < rules.len() && i != j implies patterns_of(rules)[i]
            != patterns_of(rules)[j] by {
            let a = if i < place {
                i
            } else {
                i + 1
            };
            let b = if j < place {
                j
            } else {
                j + 1
            };
            assert(patterns_of(longer)[a] == patterns_of(rules)[i]);
            assert(patterns_of(longer)[b] == patterns_of(rules)[j]);
        }
    }
    lemma_matches_of_distinct_patterns(longer, text);
    lemma_matches_of_distinct_patterns(rules, text);
    lemma_matching_rules_insert(rules, place, rule, text);
}

/// With pairwise distinct pattern texts, the first `n` patterns bring the
/// matching rules among the first `n` rules.
proof fn lemma_expanded_prefix(rules: Seq<AutoreplyView>, text: Seq<char>, n: int)
    requires
        patterns_of(rules).no_duplicates(),
        0 <= n <= rules.len(),
    ensures
        expanded(patterns_of(rules).take(n), rules, text) == matching_rules(rules.take(n), text),
    decreases n,
{
    if n > 0 {
        lemma_expanded_prefix(rules, text, n - 1);
        let patterns = patterns_of(rules);
        assert(patterns.take(n).drop_last() == patterns.take(n - 1));
        assert(patterns.take(n).last() == rules[n - 1].pattern);
        assert(rules.take(n).drop_last() == rules.take(n - 1));
        assert(rules.take(n).last() == rules[n - 1]);
        lemma_rules_with_single(rules, n - 1);
        assert(expanded(patterns.take(n - 1), rules, text) + seq![rules[n - 1]] == expanded(
            patterns.take(n - 1),
            rules,
            text,
        ).push(rules[n - 1]));
    }
}

/// With pairwise distinct pattern texts, a rule shares its pattern with no other.
proof fn lemma_rules_with_single(rules: Seq<AutoreplyView>, k: int)
    requires
        patterns_of(rules).no_duplicates(),
        0 <= k < rules.len(),
    ensures
        rules_with(rules, rules[k].pattern) == seq![rules[k]],
    decreases rules.len(),
{
    let front = rules.drop_last();
    let pattern = rules[k].pattern;
    let last = rules.len() - 1;
    assert(patterns_of(front).no_duplicates()) by {
        assert forall|i: int, j: int|
            0 <= i < front.len() && 0 <= j < front.len() && i != j implies patterns_of(front)[i]
            != patterns_of(front)[j] by {
            assert(patterns_of(rules)[i] != patterns_of(rules)[j]);
        }
    }
    if k == last {
        assert forall|i: int| 0 <= i < front.len() implies (#[trigger] front[i]).pattern
            != pattern by {
            assert(patterns_of(rules)[i] != patterns_of(rules)[last]);
        }
        lemma_rules_with_absent(front, pattern);
        assert(rules_with(rules, pattern) =~= seq![rules[k]]);
    } else {
        lemma_rules_with_single(front, k);
        assert(patterns_of(rules)[k] != patterns_of(rules)[last]);
        assert(front[k] == rules[k]);
    }
}

} // verus!
