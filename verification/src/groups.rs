//! What the library takes from the `multimap` and `itertools` crates: a map
//! from pattern text to the places of the rules that share it, and the
//! removal of repeated texts from a list.
//!
//! Nothing in this file is proved. Each item states what its crate documents
//! of the function it names.

use crate::autoreplies::{rule_views, Autoreply};
use crate::matching::rules_of_chat;
use crate::text::texts_of;
use itertools::Itertools;
use multimap::MultiMap;
use std::collections::HashMap;
use vstd::prelude::*;

verus! {

/// `multimap::MultiMap`, of which the verifier knows the name and no more.
#[verifier::external_type_specification]
#[verifier::external_body]
#[verifier::reject_recursive_types(K)]
#[verifier::reject_recursive_types(V)]
#[verifier::reject_recursive_types(S)]
pub struct ExMultiMap<K, V, S>(multimap::MultiMap<K, V, S>);

/// What a `multimap::MultiMap` from texts to places holds: for each key the
/// values inserted under it, in the order of their insertion.
pub uninterp spec fn groups_of(index: MultiMap<String, usize>) -> Map<Seq<char>, Seq<usize>>;

/// The values held under `key`: none where the key is absent.
pub open spec fn group_at(groups: Map<Seq<char>, Seq<usize>>, key: Seq<char>) -> Seq<usize> {
    if groups.contains_key(key) {
        groups[key]
    } else {
        Seq::empty()
    }
}

/// A list without its repetitions: of equal texts the first stays, and what
/// stays keeps its order.
pub open spec fn distinct_texts(texts: Seq<Seq<char>>) -> Seq<Seq<char>>
    decreases texts.len(),
{
    if texts.len() == 0 {
        Seq::empty()
    } else {
        let front = distinct_texts(texts.drop_last());
        if front.contains(texts.last()) {
            front
        } else {
            front.push(texts.last())
        }
    }
}

/// Calls `multimap::MultiMap::new`: a map that holds nothing.
#[verifier::external_body]
pub(crate) fn groups_new() -> (index: MultiMap<String, usize>)
    ensures
        groups_of(index) == (Map::<Seq<char>, Seq<usize>>::empty()),
{
    MultiMap::new()
}

/// Calls `multimap::MultiMap::insert`: the value is appended to the values
/// of its key, which begin with it where the key was absent.
#[verifier::external_body]
pub(crate) fn groups_insert(index: &mut MultiMap<String, usize>, key: String, value: usize)
    ensures
        groups_of(*final(index)) == groups_of(*old(index)).insert(
            key@,
            group_at(groups_of(*old(index)), key@).push(value),
        ),
{
    index.insert(key, value)
}

/// Calls `multimap::MultiMap::get_vec`: the values of a key, if it is present.
#[verifier::external_body]
pub(crate) fn groups_get<'a>(index: &'a MultiMap<String, usize>, key: &str) -> (values: Option<
    &'a Vec<usize>,
>)
    ensures
        values.is_some() == groups_of(*index).contains_key(key@),
        values matches Some(v) ==> v@ == groups_of(*index)[key@],
{
    index.get_vec(key)
}

/// Calls `itertools::Itertools::unique` on the texts and collects what it
/// hands out: each text once, at the place of its first occurrence.
#[verifier::external_body]
pub(crate) fn unique_texts(texts: Vec<String>) -> (kept: Vec<String>)
    ensures
        texts_of(kept@) == distinct_texts(texts_of(texts@)),
{
    texts.into_iter().unique().collect()
}

/// Calls `itertools::Itertools::into_group_map_by` on the rules with the chat
/// of a rule as its key: the map holds exactly the chats that have a rule,
/// and under each chat its rules in the order in which they were given.
#[verifier::external_body]
pub(crate) fn group_by_chat(replies: Vec<Autoreply>) -> (by_chat: HashMap<i64, Vec<Autoreply>>)
    ensures
        forall|chat: i64| #[trigger]
            by_chat@.contains_key(chat) <==> rules_of_chat(rule_views(replies@), chat).len() > 0,
        forall|chat: i64| #[trigger]
            by_chat@.contains_key(chat) ==> rule_views(by_chat@[chat]@) == rules_of_chat(
                rule_views(replies@),
                chat,
            ),
{
    replies.into_iter().into_group_map_by(|reply| reply.chat_id())
}

} // verus!
