//! The rules of all chats, each chat with a set of its own.

use crate::autoreplies::{
    rule_views, Autoreply, AutoreplyResponse, AutoreplySet, AutoreplyView, RuleError,
};
use crate::matching::{distinct_names, distinct_patterns, name_taken, patterns_of, rules_of_chat};
use crate::groups::group_by_chat;
use crate::pattern::{pattern_compiles, pattern_set_builds};
use std::collections::HashMap;
use vstd::prelude::*;

verus! {

broadcast use vstd::std_specs::hash::group_hash_axioms;

/// The rule sets of the chats that have rules, by chat.
pub type AutoreplySetMap = HashMap<i64, AutoreplySet>;

/// The rules that are held for `chat`: none where the chat has no set.
pub open spec fn rules_in(sets: Map<i64, AutoreplySet>, chat: i64) -> Seq<AutoreplyView> {
    if sets.contains_key(chat) {
        sets[chat]@
    } else {
        Seq::empty()
    }
}

/// Whether the rules of `chat` among `rules` can stand in one set: no two
/// share a name, and the compiler takes their pattern texts as one matcher.
pub open spec fn chat_is_sound(rules: Seq<AutoreplyView>, chat: i64) -> bool {
    &&& distinct_names(rules_of_chat(rules, chat))
    &&& pattern_set_builds(distinct_patterns(rules_of_chat(rules, chat)))
}

/// The chats that have rules, in no order that could be named.
fn chats_of(by_chat: &HashMap<i64, Vec<Autoreply>>) -> (chats: Vec<i64>)
    ensures
        forall|chat: i64| chats@.contains(chat) <==> by_chat@.contains_key(chat),
{
    let mut chats: Vec<i64> = Vec::new();
    for chat in iter: by_chat.keys()
        invariant
            iter.seq().unref().to_set() == by_chat@.dom(),
            chats@.len() == iter.index(),
            forall|k: int| 0 <= k < chats@.len() ==> chats@[k] == *iter.seq()[k],
            iter.index() == iter.seq().len() ==> forall|chat: i64|
                chats@.contains(chat) <==> by_chat@.contains_key(chat),
    {
        chats.push(*chat);
        assert forall|other: i64|
            iter.index() + 1 == iter.seq().len() && chats@.contains(
                other,
            ) implies by_chat@.contains_key(other) by {
            let k = choose|k: int| 0 <= k < chats@.len() && chats@[k] == other;
            assert(iter.seq().unref()[k] == other);
            assert(iter.seq().unref().to_set().contains(other));
        }
        assert forall|other: i64|
            iter.index() + 1 == iter.seq().len() && by_chat@.contains_key(
                other,
            ) implies chats@.contains(other) by {
            assert(iter.seq().unref().to_set().contains(other));
            let k = choose|k: int|
                0 <= k < iter.seq().unref().len() && iter.seq().unref()[k] == other;
            assert(chats@[k] == other);
        }
    }
    chats
}

/// Sorts the rules by chat and makes a set of the rules of each chat, in
/// the order in which they were given. Chats without rules get no set.
/// Nothing is made where the rules of some chat cannot stand in one set.
pub fn create_autoreply_set_map(replies: Vec<Autoreply>) -> (outcome: Result<
    AutoreplySetMap,
    RuleError,
>)
    ensures
        outcome.is_ok() <==> forall|chat: i64|
            rules_of_chat(rule_views(replies@), chat).len() > 0 ==> #[trigger] chat_is_sound(
                rule_views(replies@),
                chat,
            ),
        outcome matches Ok(sets) ==> forall|chat: i64| #[trigger]
            sets@.contains_key(chat) <==> rules_of_chat(rule_views(replies@), chat).len() > 0,
        outcome matches Ok(sets) ==> forall|chat: i64| #[trigger]
            sets@.contains_key(chat) ==> sets@[chat]@ == rules_of_chat(rule_views(replies@), chat),
{
    let ghost given = rule_views(replies@);
    let by_chat = group_by_chat(replies);
    let chats = chats_of(&by_chat);
    let mut sets: AutoreplySetMap = HashMap::new();
    let n = chats.len();
    let mut i: usize = 0;
    while i < n
        invariant
            n == chats@.len(),
            i <= n,
            given == rule_views(replies@),
            forall|chat: i64| chats@.contains(chat) <==> by_chat@.contains_key(chat),
            forall|chat: i64| #[trigger]
                by_chat@.contains_key(chat) <==> rules_of_chat(given, chat).len() > 0,
            forall|chat: i64| #[trigger]
                by_chat@.contains_key(chat) ==> rule_views(by_chat@[chat]@) == rules_of_chat(
                    given,
                    chat,
                ),
            forall|chat: i64| #[trigger]
                sets@.contains_key(chat) <==> chats@.take(i as int).contains(chat),
            forall|chat: i64| #[trigger]
                sets@.contains_key(chat) ==> sets@[chat]@ == rules_of_chat(given, chat)
                    && chat_is_sound(given, chat),
        decreases n - i,
    {
        let chat = chats[i];
        assert(chats@.contains(chat)) by {
            assert(chats@[i as int] == chat);
        }
        assert(by_chat@.contains_key(chat));
        match by_chat.get(&chat) {
            Some(rules) => {
                match AutoreplySet::new(rules.as_slice()) {
                    Ok(set) => {
                        let ghost before = sets@;
                        sets.insert(chat, set);
                        assert forall|other: i64| #[trigger]
                            sets@.contains_key(other) <==> chats@.take(i as int + 1).contains(
                                other,
                            ) by {
                            let shorter = chats@.take(i as int);
                            let longer = chats@.take(i as int + 1);
                            if longer.contains(other) {
                                let k = choose|k: int| 0 <= k < longer.len() && longer[k] == other;
                                if k < i {
                                    assert(shorter[k] == other);
                                }
                            }
                            if other == chat {
                                assert(longer[i as int] == other);
                            } else if before.contains_key(other) {
                                let k = choose|k: int|
                                    0 <= k < shorter.len() && shorter[k] == other;
                                assert(longer[k] == other);
                            }
                        }
                    },
                    Err(error) => {
                        assert(rules_of_chat(given, chat).len() > 0 && !chat_is_sound(
                            given,
                            chat,
                        ));
                        return Err(error);
                    },
                }
            },
            None => {
                assert(false);
            },
        }
        i += 1;
    }
    proof {
        assert(chats@.take(n as int) == chats@);
        assert forall|chat: i64|
            rules_of_chat(given, chat).len() > 0 implies #[trigger] chat_is_sound(given, chat) by {
            assert(by_chat@.contains_key(chat));
            assert(chats@.contains(chat));
            assert(sets@.contains_key(chat));
        }
    }
    Ok(sets)
}

/// Whether the sets of all chats but `chat` are the same in both maps.
pub open spec fn others_kept(
    before: Map<i64, AutoreplySet>,
    after: Map<i64, AutoreplySet>,
    chat: i64,
) -> bool {
    forall|other: i64|
        other != chat ==> (#[trigger] after.contains_key(other)) == before.contains_key(other) && (
        before.contains_key(other) ==> after[other] == before[other])
}

/// Whether a set of the rules `rules` takes `rule` as its newest rule.
pub open spec fn can_take(rules: Seq<AutoreplyView>, rule: AutoreplyView) -> bool {
    &&& !name_taken(rules, rule)
    &&& patterns_of(rules).contains(rule.pattern) || pattern_set_builds(
        distinct_patterns(rules.push(rule)),
    )
}

/// Takes `autoreply` as the newest rule of its chat, which gets a set of
/// its own if it had none. A rule that the set of its chat refuses changes
/// nothing: a chat without rules stays without a set. The sets of all other
/// chats stay as they are.
pub fn add_message(sets: &mut AutoreplySetMap, autoreply: Autoreply) -> (outcome: Result<
    (),
    RuleError,
>)
    ensures
        others_kept(old(sets)@, final(sets)@, autoreply@.chat_id),
        outcome.is_ok() <==> can_take(rules_in(old(sets)@, autoreply@.chat_id), autoreply@),
        outcome.is_ok() ==> final(sets)@.contains_key(autoreply@.chat_id),
        outcome.is_ok() ==> rules_in(final(sets)@, autoreply@.chat_id) == rules_in(
            old(sets)@,
            autoreply@.chat_id,
        ).push(autoreply@),
        outcome.is_err() ==> final(sets)@.contains_key(autoreply@.chat_id) == old(
            sets
        )@.contains_key(autoreply@.chat_id),
        outcome.is_err() ==> rules_in(final(sets)@, autoreply@.chat_id) == rules_in(
            old(sets)@,
            autoreply@.chat_id,
        ),
        outcome matches Err(error) ==> (error is DuplicateName <==> name_taken(
            rules_in(old(sets)@, autoreply@.chat_id),
            autoreply@,
        )),
{
    let chat = autoreply.chat_id();
    let ghost before = sets@;
    let was_held = sets.contains_key(&chat);
    let mut set = match sets.remove(&chat) {
        Some(held) => held,
        None => AutoreplySet::empty(),
    };
    assert(set@ == rules_in(before, chat));
    let outcome = set.add_autoreply(autoreply);
    if outcome.is_ok() || was_held {
        sets.insert(chat, set);
    }
    assert(!was_held && outcome.is_err() ==> sets@ =~= before);
    outcome
}

/// Makes a rule of what a user gave and takes it as the newest rule of its
/// chat. A pattern that is no regular expression is refused, and so is a
/// rule that the set of its chat refuses. A refused rule changes nothing.
pub fn register_rule(
    sets: &mut AutoreplySetMap,
    chat_id: i64,
    name: String,
    pattern: &str,
    response: AutoreplyResponse,
) -> (outcome: Result<(), RuleError>)
    ensures
        others_kept(old(sets)@, final(sets)@, chat_id),
        outcome.is_ok() <==> pattern_compiles(pattern@) && can_take(
            rules_in(old(sets)@, chat_id),
            (AutoreplyView { chat_id, name: name@, pattern: pattern@, response: response@ }),
        ),
        outcome.is_ok() ==> final(sets)@.contains_key(chat_id),
        outcome.is_ok() ==> rules_in(final(sets)@, chat_id) == rules_in(old(sets)@, chat_id).push(
            (AutoreplyView { chat_id, name: name@, pattern: pattern@, response: response@ }),
        ),
        outcome.is_err() ==> final(sets)@.contains_key(chat_id) == old(sets)@.contains_key(chat_id),
        outcome.is_err() ==> rules_in(final(sets)@, chat_id) == rules_in(old(sets)@, chat_id),
        !pattern_compiles(pattern@) ==> outcome matches Err(RuleError::InvalidPattern(_)),
{
    match Autoreply::new(chat_id, name, pattern, response) {
        Ok(autoreply) => add_message(sets, autoreply),
        Err(error) => {
            assert(others_kept(sets@, sets@, chat_id));
            Err(error)
        },
    }
}

} // verus!
