//! Which of the rules that a message set off answer it, and with what.
//!
//! Rules are taken in order. Each fires or not. The texts of the literal
//! rules that fire are joined by single spaces into one text. The first
//! sticker rule that fires ends it: no later rule has any part in the reply.

use crate::autoreplies::{
    borrowed_rule_views, Autoreply, AutoreplyResponse, AutoreplyView, ResponseView,
};
use crate::autoreply_map::{rules_in, AutoreplySetMap};
use crate::chance::{effective_chance, fires, happens, CHANCE_ONE};
use crate::matching::matches_of;
use vstd::prelude::*;
use vstd::string::StringExecFns;

verus! {

broadcast use vstd::std_specs::hash::group_hash_axioms;

/// What is sent in answer to one message.
#[derive(Debug)]
pub struct Reply {
    /// The joined texts of the literal rules that fired, if any did.
    pub text: Option<String>,
    /// The sticker of the sticker rule that fired, if one did.
    pub sticker: Option<String>,
}

/// A reply as a mathematical value.
pub struct ReplyView {
    pub text: Option<Seq<char>>,
    pub sticker: Option<Seq<char>>,
}

impl View for Reply {
    type V = ReplyView;

    open spec fn view(&self) -> ReplyView {
        ReplyView {
            text: match self.text {
                Some(text) => Some(text@),
                None => None,
            },
            sticker: match self.sticker {
                Some(sticker) => Some(sticker@),
                None => None,
            },
        }
    }
}

/// What fired: the texts in order, and the sticker that ended it.
pub struct Fired {
    pub texts: Seq<Seq<char>>,
    pub sticker: Option<Seq<char>>,
}

/// The texts joined by single spaces.
pub open spec fn joined(texts: Seq<Seq<char>>) -> Seq<char>
    decreases texts.len(),
{
    if texts.len() == 0 {
        Seq::empty()
    } else if texts.len() == 1 {
        texts[0]
    } else {
        joined(texts.drop_last()) + seq![' '] + texts.last()
    }
}

/// What fires among the candidates, each a response with whether its rule
/// fired. Candidates behind a sticker that fired are not looked at.
pub open spec fn gate(candidates: Seq<(ResponseView, bool)>) -> Fired
    decreases candidates.len(),
{
    if candidates.len() == 0 {
        Fired { texts: Seq::empty(), sticker: None }
    } else if !candidates[0].1 {
        gate(candidates.skip(1))
    } else {
        match candidates[0].0 {
            ResponseView::Literal(text) => {
                let later = gate(candidates.skip(1));
                Fired { texts: seq![text] + later.texts, sticker: later.sticker }
            },
            ResponseView::Sticker(file_id) => Fired { texts: Seq::empty(), sticker: Some(file_id) },
        }
    }
}

/// The reply that is sent for what fired. No text is sent where no literal
/// rule fired.
pub open spec fn reply_of(fired: Fired) -> ReplyView {
    ReplyView {
        text: if fired.texts.len() == 0 {
            None
        } else {
            Some(joined(fired.texts))
        },
        sticker: fired.sticker,
    }
}

/// The responses of the candidates with whether each fired.
pub open spec fn candidate_views(candidates: Seq<(&Autoreply, bool)>) -> Seq<(ResponseView, bool)> {
    candidates.map_values(|c: (&Autoreply, bool)| (c.0@.response, c.1))
}

/// The responses of a run of rules, in order.
pub open spec fn responses_of(rules: Seq<AutoreplyView>) -> Seq<ResponseView> {
    rules.map_values(|r: AutoreplyView| r.response)
}

/// The candidates that the responses make where each fires as its draw says.
pub open spec fn drawn(responses: Seq<ResponseView>, chance: u64, draws: Seq<u64>) -> Seq<
    (ResponseView, bool),
> {
    Seq::new(responses.len(), |i: int| (responses[i], happens(chance, draws[i])))
}

/// The candidates that the responses make where each fires, or none does.
pub open spec fn all_alike(responses: Seq<ResponseView>, fired: bool) -> Seq<(ResponseView, bool)> {
    Seq::new(responses.len(), |i: int| (responses[i], fired))
}

/// Draws, `count` of them, each within the range of draws.
pub open spec fn draws_for(count: nat, draws: Seq<u64>) -> bool {
    &&& draws.len() == count
    &&& forall|i: int| 0 <= i < draws.len() ==> draws[i] < CHANCE_ONE
}

/// What the rules can be answered with under `chance`: the reply that some
/// draws give, one draw for each rule.
pub open spec fn possible_reply(
    responses: Seq<ResponseView>,
    chance: u64,
    reply: ReplyView,
) -> bool {
    exists|draws: Seq<u64>|
        draws_for(responses.len(), draws) && reply == reply_of(
            gate(drawn(responses, chance, draws)),
        )
}

/// Where nothing fires, nothing is sent.
pub proof fn lemma_gate_none_fired(candidates: Seq<(ResponseView, bool)>)
    requires
        forall|i: int| 0 <= i < candidates.len() ==> !(#[trigger] candidates[i]).1,
    ensures
        gate(candidates) == (Fired { texts: Seq::empty(), sticker: None }),
    decreases candidates.len(),
{
    if candidates.len() > 0 {
        assert(!candidates[0].1);
        let rest = candidates.skip(1);
        assert forall|i: int| 0 <= i < rest.len() implies !(#[trigger] rest[i]).1 by {
            assert(!candidates[i + 1].1);
        }
        lemma_gate_none_fired(rest);
    }
}

/// Once a sticker rule has fired, no later candidate has any part in what
/// fires: it is the same as if the candidates ended with that rule.
pub proof fn lemma_gate_stops_at_sticker(candidates: Seq<(ResponseView, bool)>, k: int)
    requires
        0 <= k < candidates.len(),
        candidates[k].1,
        candidates[k].0 is Sticker,
    ensures
        gate(candidates) == gate(candidates.take(k + 1)),
    decreases k,
{
    let cut = candidates.take(k + 1);
    assert(cut[0] == candidates[0]);
    if k > 0 {
        let rest = candidates.skip(1);
        assert(rest[k - 1] == candidates[k]);
        lemma_gate_stops_at_sticker(rest, k - 1);
        assert(rest.take(k) == cut.skip(1));
    }
}

/// Where the first sticker rule to fire stands at `k`, its sticker is sent,
/// together with the text of exactly the literal rules before it that fired.
pub proof fn lemma_gate_first_sticker(candidates: Seq<(ResponseView, bool)>, k: int)
    requires
        0 <= k < candidates.len(),
        candidates[k].1,
        candidates[k].0 is Sticker,
        forall|j: int|
            0 <= j < k ==> !((#[trigger] candidates[j]).1 && candidates[j].0 is Sticker),
    ensures
        gate(candidates).sticker == Some(candidates[k].0->Sticker_0),
        gate(candidates).texts == gate(candidates.take(k)).texts,
        gate(candidates.take(k)).sticker is None,
    decreases k,
{
    let rest = candidates.skip(1);
    let front = candidates.take(k);
    if k > 0 {
        assert(!(candidates[0].1 && candidates[0].0 is Sticker));
        assert(rest[k - 1] == candidates[k]);
        assert forall|j: int| 0 <= j < k - 1 implies !((#[trigger] rest[j]).1
            && rest[j].0 is Sticker) by {
            assert(rest[j] == candidates[j + 1]);
        }
        lemma_gate_first_sticker(rest, k - 1);
        assert(front[0] == candidates[0]);
        assert(front.skip(1) == rest.take(k - 1));
    } else {
        assert(front =~= Seq::empty());
    }
}

/// Under a certain chance every rule fires and under a chance of zero none
/// does, whatever is drawn: the reply does not depend on the draws.
pub proof fn lemma_drawn_boundaries(responses: Seq<ResponseView>, chance: u64, draws: Seq<u64>)
    requires
        draws_for(responses.len(), draws),
    ensures
        chance >= CHANCE_ONE ==> drawn(responses, chance, draws) == all_alike(responses, true),
        chance == 0 ==> drawn(responses, chance, draws) == all_alike(responses, false),
        chance == 0 ==> reply_of(gate(drawn(responses, chance, draws))) == (ReplyView {
            text: None,
            sticker: None,
        }),
{
    if chance >= CHANCE_ONE {
        assert(drawn(responses, chance, draws) =~= all_alike(responses, true));
    }
    if chance == 0 {
        assert(drawn(responses, chance, draws) =~= all_alike(responses, false));
        lemma_gate_none_fired(all_alike(responses, false));
    }
}

/// Under a certain chance and under a chance of zero only one reply is possible.
pub proof fn lemma_possible_reply_boundaries(
    responses: Seq<ResponseView>,
    chance: u64,
    reply: ReplyView,
)
    requires
        possible_reply(responses, chance, reply),
    ensures
        chance >= CHANCE_ONE ==> reply == reply_of(gate(all_alike(responses, true))),
        chance == 0 ==> reply == (ReplyView { text: None, sticker: None }),
{
    let draws = choose|draws: Seq<u64>|
        draws_for(responses.len(), draws) && reply == reply_of(
            gate(drawn(responses, chance, draws)),
        );
    lemma_drawn_boundaries(responses, chance, draws);
}

/// The text that is sent once `text` has fired behind the texts `before`.
proof fn lemma_joined_push(before: Seq<Seq<char>>, text: Seq<char>)
    ensures
        joined(before.push(text)) == if before.len() == 0 {
            text
        } else {
            joined(before) + seq![' '] + text
        },
{
    assert(before.push(text).drop_last() == before);
}

/// Puts together the reply for candidates of which it is known which fired.
pub fn combine(candidates: &Vec<(&Autoreply, bool)>) -> (reply: Reply)
    ensures
        reply@ == reply_of(gate(candidate_views(candidates@))),
{
    let ghost all = candidate_views(candidates@);
    let ghost mut texts: Seq<Seq<char>> = Seq::empty();
    let mut text: Option<String> = None;
    let n = candidates.len();
    let mut i: usize = 0;
    assert(all.skip(0) == all);
    assert(texts + gate(all).texts == gate(all).texts);
    while i < n
        invariant
            n == candidates@.len(),
            all == candidate_views(candidates@),
            i <= n,
            gate(all).texts == texts + gate(all.skip(i as int)).texts,
            gate(all).sticker == gate(all.skip(i as int)).sticker,
            texts.len() == 0 <==> text is None,
            text matches Some(t) ==> t@ == joined(texts),
        decreases n - i,
    {
        let ghost rest = all.skip(i as int);
        let rule = candidates[i].0;
        let fired = candidates[i].1;
        proof {
            assert(rest[0] == all[i as int]);
            assert(all[i as int] == (rule@.response, fired));
            assert(rest.skip(1) == all.skip(i as int + 1));
        }
        if fired {
            match rule.response() {
                AutoreplyResponse::Literal(literal) => {
                    proof {
                        lemma_joined_push(texts, literal@);
                        assert(texts + (seq![literal@] + gate(rest.skip(1)).texts) == texts.push(
                            literal@,
                        ) + gate(rest.skip(1)).texts);
                    }
                    text = match text {
                        Some(collected) => {
                            let mut longer = collected;
                            longer.push(' ');
                            longer.append(literal.as_str());
                            assert(longer@ == joined(texts) + seq![' '] + literal@);
                            Some(longer)
                        },
                        None => Some(literal.clone()),
                    };
                    proof {
                        texts = texts.push(literal@);
                    }
                },
                AutoreplyResponse::Sticker(file_id) => {
                    assert(texts + Seq::<Seq<char>>::empty() == texts);
                    return Reply { text, sticker: Some(file_id.clone()) };
                },
            }
        }
        i += 1;
    }
    assert(texts + Seq::<Seq<char>>::empty() == texts);
    Reply { text, sticker: None }
}

/// Decides for each rule by a draw of its own whether it fires under the
/// chance `chance`, and puts together the reply. A direct reply to the
/// bot's own message (`force_fire`) counts as a certain chance. Nothing is
/// drawn for a rule behind a sticker rule that fired, nor under a chance of
/// zero or a certain one: there the reply is settled by the rules alone.
pub fn decide(matches: &Vec<&Autoreply>, chance: u64, force_fire: bool) -> (reply: Reply)
    ensures
        possible_reply(
            responses_of(borrowed_rule_views(matches@)),
            effective_chance(chance, force_fire),
            reply@,
        ),
        effective_chance(chance, force_fire) >= CHANCE_ONE ==> reply@ == reply_of(
            gate(all_alike(responses_of(borrowed_rule_views(matches@)), true)),
        ),
        effective_chance(chance, force_fire) == 0 ==> reply@ == (ReplyView {
            text: None,
            sticker: None,
        }),
{
    let effective = if force_fire {
        CHANCE_ONE
    } else {
        chance
    };
    let ghost responses = responses_of(borrowed_rule_views(matches@));
    let mut candidates: Vec<(&Autoreply, bool)> = Vec::new();
    let ghost mut draws: Seq<u64> = Seq::empty();
    let n = matches.len();
    let mut i: usize = 0;
    let mut stopped = false;
    while i < n && !stopped
        invariant
            n == matches@.len(),
            i <= n,
            candidates@.len() == i,
            draws.len() == i,
            forall|j: int| 0 <= j < i ==> draws[j] < CHANCE_ONE,
            forall|j: int|
                0 <= j < i ==> (#[trigger] candidates@[j]) == (
                    matches@[j],
                    happens(effective, draws[j]),
                ),
            stopped ==> i > 0 && candidates@[i - 1].1 && candidates@[i - 1].0@.response is Sticker,
        decreases n - i,
    {
        let rule = matches[i];
        let fired = fires(effective);
        proof {
            let draw = choose|draw: u64| draw < CHANCE_ONE && fired == happens(effective, draw);
            draws = draws.push(draw);
        }
        candidates.push((rule, fired));
        if fired {
            match rule.response() {
                AutoreplyResponse::Sticker(_) => {
                    stopped = true;
                },
                AutoreplyResponse::Literal(_) => {},
            }
        }
        i += 1;
    }
    let reply = combine(&candidates);
    proof {
        let rest = Seq::new((n - i) as nat, |j: int| 0u64);
        let all = draws + rest;
        let full = drawn(responses, effective, all);
        assert(draws_for(responses.len(), all));
        assert(full.take(i as int) =~= candidate_views(candidates@));
        if i < n {
            lemma_gate_stops_at_sticker(full, i - 1);
        } else {
            assert(full.take(i as int) == full);
        }
        assert(reply@ == reply_of(gate(full)));
        lemma_drawn_boundaries(responses, effective, all);
    }
    reply
}

/// Answers a message of chat `chat_id`: finds the rules of the chat that
/// `text` sets off and decides by draws which of them fire. A chat without
/// rules is not answered.
pub fn dispatch(
    sets: &AutoreplySetMap,
    chat_id: i64,
    text: &str,
    chance: u64,
    force_fire: bool,
) -> (reply: Reply)
    ensures
        possible_reply(
            responses_of(matches_of(rules_in(sets@, chat_id), text@)),
            effective_chance(chance, force_fire),
            reply@,
        ),
        effective_chance(chance, force_fire) >= CHANCE_ONE ==> reply@ == reply_of(
            gate(all_alike(responses_of(matches_of(rules_in(sets@, chat_id), text@)), true)),
        ),
        effective_chance(chance, force_fire) == 0 ==> reply@ == (ReplyView {
            text: None,
            sticker: None,
        }),
{
    match sets.get(&chat_id) {
        Some(set) => {
            let matches = set.get_matches(text);
            decide(&matches, chance, force_fire)
        },
        None => {
            let reply = Reply { text: None, sticker: None };
            proof {
                let none = Seq::<ResponseView>::empty();
                let responses = responses_of(
                    matches_of(rules_in(sets@, chat_id), text@),
                );
                assert(responses =~= none);
                let draws = Seq::<u64>::empty();
                assert(draws_for(responses.len(), draws));
                let chance = effective_chance(chance, force_fire);
                assert(drawn(responses, chance, draws) =~= Seq::empty());
                assert(all_alike(responses, true) =~= Seq::empty());
            }
            reply
        },
    }
}

} // verus!
