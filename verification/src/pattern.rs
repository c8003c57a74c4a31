//! What the library takes from the `regex` crate: whether a pattern compiles,
//! and which patterns of a compiled set find a match in a text.
//!
//! Nothing in this file is proved. Each item states what the `regex` crate
//! documents of the function it names.

use crate::text::texts_of;
use regex::RegexSet;
use vstd::prelude::*;

verus! {

/// `regex::RegexSet`, of which the verifier knows the name and no more.
#[verifier::external_type_specification]
#[verifier::external_body]
pub struct ExRegexSet(regex::RegexSet);

/// `regex::Error`, of which the verifier knows the name and no more.
#[verifier::external_type_specification]
#[verifier::external_body]
pub struct ExRegexError(regex::Error);

/// Whether `regex::Regex::new` accepts `source` as a regular expression.
pub uninterp spec fn pattern_compiles(source: Seq<char>) -> bool;

/// Whether `regex::RegexSet::new` accepts `sources` as the patterns of one set.
pub uninterp spec fn pattern_set_builds(sources: Seq<Seq<char>>) -> bool;

/// Whether the regular expression `source`, as one pattern of a
/// `regex::RegexSet`, finds a match somewhere in `text`.
pub uninterp spec fn pattern_matches(source: Seq<char>, text: Seq<char>) -> bool;

/// The text that the first group of the regular expression `source` takes
/// in the leftmost match that `regex::Regex::captures` finds in `text`.
/// There is none where nothing matches, where the group has no part in
/// the match, and where `source` is no regular expression.
pub uninterp spec fn first_group(source: Seq<char>, text: Seq<char>) -> Option<Seq<char>>;

/// The patterns that a `regex::RegexSet` was built from, in the order given.
pub uninterp spec fn set_patterns(set: RegexSet) -> Seq<Seq<char>>;

/// Whether `hits` rises strictly from entry to entry.
pub open spec fn strictly_ascending(hits: Seq<usize>) -> bool {
    forall|a: int, b: int| 0 <= a < b < hits.len() ==> hits[a] < hits[b]
}

/// Calls `regex::Regex::new` and drops the compiled expression: the result is
/// `Ok` exactly for the sources that the crate accepts.
#[verifier::external_body]
pub(crate) fn check_pattern(source: &str) -> (outcome: Result<(), regex::Error>)
    ensures
        outcome.is_ok() == pattern_compiles(source@),
{
    match regex::Regex::new(source) {
        Ok(_) => Ok(()),
        Err(error) => Err(error),
    }
}

/// The message of a `regex::Error`, as its `Display` impl writes it.
#[verifier::external_body]
pub(crate) fn error_message(error: &regex::Error) -> (message: String) {
    format!("{}", error)
}

/// Calls `regex::RegexSet::empty`: a set built from no pattern.
#[verifier::external_body]
pub(crate) fn empty_set() -> (set: RegexSet)
    ensures
        set_patterns(set) == Seq::<Seq<char>>::empty(),
{
    RegexSet::empty()
}

/// Calls `regex::RegexSet::new` on `sources`. Where the crate accepts them,
/// the set remembers them in the order given.
#[verifier::external_body]
pub(crate) fn build_set(sources: &Vec<String>) -> (outcome: Result<RegexSet, regex::Error>)
    ensures
        outcome.is_ok() == pattern_set_builds(texts_of(sources@)),
        outcome matches Ok(set) ==> set_patterns(set) == texts_of(sources@),
{
    RegexSet::new(sources.iter())
}

/// Calls `regex::RegexSet::matches` and collects what it hands out: the
/// places of the patterns that match in `text`, each once, in ascending order.
#[verifier::external_body]
pub(crate) fn set_matches(set: &RegexSet, text: &str) -> (hits: Vec<usize>)
    ensures
        strictly_ascending(hits@),
        forall|k: int| 0 <= k < hits@.len() ==> (#[trigger] hits@[k]) < set_patterns(*set).len(),
        forall|i: int|
            0 <= i < set_patterns(*set).len() ==> (hits@.contains(i as usize) <==> pattern_matches(
                #[trigger] set_patterns(*set)[i],
                text@,
            )),
{
    set.matches(text).into_iter().collect()
}

/// Compiles `source` with `regex::Regex::new`, calls `regex::Regex::captures`
/// on `text` and hands out what `regex::Captures::get` gives for the first
/// group.
#[verifier::external_body]
pub(crate) fn capture_first_group(source: &str, text: &str) -> (group: Option<String>)
    ensures
        first_group(source@, text@) == match group {
            Some(taken) => Some(taken@),
            None => None,
        },
{
    match regex::Regex::new(source) {
        Err(_) => None,
        Ok(compiled) => match compiled.captures(text) {
            None => None,
            Some(found) => match found.get(1) {
                None => None,
                Some(taken) => Some(taken.as_str().to_string()),
            },
        },
    }
}

} // verus!
