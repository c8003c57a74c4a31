//! How a history of seen stickers changes when a sticker is seen.
//!
//! A history holds the stickers seen, the most recent first. A sticker that
//! is seen comes to the front: one that the history knows moves there, a new
//! one is put there. Then the history is cut to its bound, so that the
//! stickers seen longest ago leave. What can be answered with is any entry
//! but the front one.

use crate::stickers::StickerEntryView;
use vstd::prelude::*;

verus! {

/// Whether some entry of `history` carries `id`.
pub open spec fn has_id(history: Seq<StickerEntryView>, id: Seq<char>) -> bool {
    exists|i: int| 0 <= i < history.len() && (#[trigger] history[i]).id == id
}

/// Whether `k` is the first place in `history` whose entry carries `id`.
pub open spec fn is_first_with_id(history: Seq<StickerEntryView>, id: Seq<char>, k: int) -> bool {
    &&& 0 <= k < history.len()
    &&& history[k].id == id
    &&& forall|j: int| 0 <= j < k ==> (#[trigger] history[j]).id != id
}

/// The first place in `history` whose entry carries `id`.
pub open spec fn first_with_id(history: Seq<StickerEntryView>, id: Seq<char>) -> int {
    choose|k: int| is_first_with_id(history, id, k)
}

/// No identifier occurs twice.
pub open spec fn distinct_ids(history: Seq<StickerEntryView>) -> bool {
    forall|i: int, j: int|
        0 <= i < j < history.len() ==> (#[trigger] history[i]).id != (#[trigger] history[j]).id
}

/// The history after `item` was seen: an entry that already carries its
/// identifier moves to the front as it is, otherwise `item` is put in front.
/// The order of all other entries stays.
pub open spec fn recorded(history: Seq<StickerEntryView>, item: StickerEntryView) -> Seq<
    StickerEntryView,
> {
    if has_id(history, item.id) {
        let k = first_with_id(history, item.id);
        seq![history[k]] + history.remove(k)
    } else {
        seq![item] + history
    }
}

/// The first `capacity` entries of a history, or all of it if it is shorter.
pub open spec fn truncated(history: Seq<StickerEntryView>, capacity: nat) -> Seq<StickerEntryView> {
    if capacity <= history.len() {
        history.take(capacity as int)
    } else {
        history
    }
}

/// The history after `item` was seen under a bound of `capacity` entries.
pub open spec fn updated(
    history: Seq<StickerEntryView>,
    item: StickerEntryView,
    capacity: nat,
) -> Seq<StickerEntryView> {
    truncated(recorded(history, item), capacity)
}

/// How many entries can be chosen as a response: all but the front one.
pub open spec fn candidate_count(history: Seq<StickerEntryView>) -> nat {
    if history.len() <= 1 {
        0
    } else {
        (history.len() - 1) as nat
    }
}

/// Where an identifier occurs first is determined by the history.
pub proof fn lemma_first_with_id_unique(
    history: Seq<StickerEntryView>,
    id: Seq<char>,
    k: int,
)
    requires
        is_first_with_id(history, id, k),
    ensures
        has_id(history, id),
        first_with_id(history, id) == k,
{
    let c = first_with_id(history, id);
    assert(is_first_with_id(history, id, c));
    if c < k {
        assert(history[c].id != id);
    } else if k < c {
        assert(history[k].id != id);
    }
}

/// Where `item`'s identifier is new to the history, recording puts `item` in front.
pub proof fn lemma_recorded_new(history: Seq<StickerEntryView>, item: StickerEntryView)
    requires
        !has_id(history, item.id),
    ensures
        recorded(history, item) == seq![item] + history,
{
}

/// Where `k` is the first place that carries `item`'s identifier, recording
/// moves the entry at `k` to the front and leaves the order of the others.
pub proof fn lemma_recorded_known(history: Seq<StickerEntryView>, item: StickerEntryView, k: int)
    requires
        is_first_with_id(history, item.id, k),
    ensures
        recorded(history, item) == seq![history[k]] + history.remove(k),
        k == 0 ==> recorded(history, item) == history,
{
    lemma_first_with_id_unique(history, item.id, k);
    if k == 0 {
        assert(seq![history[0]] + history.remove(0) =~= history);
    }
}

/// After recording, the entry in front carries the identifier of what was
/// seen, and the history has grown by one entry if the identifier was new
/// and not at all otherwise.
pub proof fn lemma_recorded_front(history: Seq<StickerEntryView>, item: StickerEntryView)
    ensures
        recorded(history, item).len() >= 1,
        recorded(history, item)[0].id == item.id,
        recorded(history, item).len() == if has_id(history, item.id) {
            history.len()
        } else {
            history.len() + 1
        },
{
    if has_id(history, item.id) {
        let i = choose|i: int| 0 <= i < history.len() && (#[trigger] history[i]).id == item.id;
        lemma_first_exists(history, item.id, i);
    }
}

/// An identifier that occurs in a history has a first place there.
proof fn lemma_first_exists(history: Seq<StickerEntryView>, id: Seq<char>, i: int)
    requires
        0 <= i < history.len(),
        history[i].id == id,
    ensures
        is_first_with_id(history, id, first_with_id(history, id)),
    decreases i,
{
    if forall|j: int| 0 <= j < i ==> (#[trigger] history[j]).id != id {
        assert(is_first_with_id(history, id, i));
    } else {
        let j = choose|j: int| 0 <= j < i && (#[trigger] history[j]).id == id;
        lemma_first_exists(history, id, j);
    }
}

/// A history in which no identifier occurs twice stays so when something is
/// recorded.
pub proof fn lemma_recorded_distinct(history: Seq<StickerEntryView>, item: StickerEntryView)
    requires
        distinct_ids(history),
    ensures
        distinct_ids(recorded(history, item)),
{
    let after = recorded(history, item);
    if has_id(history, item.id) {
        let i = choose|i: int| 0 <= i < history.len() && (#[trigger] history[i]).id == item.id;
        lemma_first_exists(history, item.id, i);
        let k = first_with_id(history, item.id);
        assert forall|a: int, b: int| 0 <= a < b < after.len() implies (#[trigger] after[a]).id != (
        #[trigger] after[b]).id by {
            let from_a = if a == 0 {
                k
            } else if a - 1 < k {
                a - 1
            } else {
                a
            };
            let from_b = if b - 1 < k {
                b - 1
            } else {
                b
            };
            assert(after[a] == history[from_a]);
            assert(after[b] == history[from_b]);
            assert(from_a != from_b);
            if from_a < from_b {
                assert(history[from_a].id != history[from_b].id);
            } else {
                assert(history[from_b].id != history[from_a].id);
            }
        }
    } else {
        assert forall|a: int, b: int| 0 <= a < b < after.len() implies (#[trigger] after[a]).id != (
        #[trigger] after[b]).id by {
            assert(after[b] == history[b - 1]);
            if a == 0 {
                assert(history[b - 1].id != item.id);
            } else {
                assert(after[a] == history[a - 1]);
                assert(history[a - 1].id != history[b - 1].id);
            }
        }
    }
}

/// The history never holds more entries than the bound allows, and it holds
/// the most recent ones. In a history in which no identifier occurs twice
/// none does afterwards.
pub proof fn lemma_updated_bounded(
    history: Seq<StickerEntryView>,
    item: StickerEntryView,
    capacity: nat,
)
    ensures
        updated(history, item, capacity).len() <= capacity,
        updated(history, item, capacity).len() <= recorded(history, item).len(),
        forall|i: int|
            0 <= i < updated(history, item, capacity).len() ==> (#[trigger] updated(
                history,
                item,
                capacity,
            )[i]) == recorded(history, item)[i],
        capacity >= 1 ==> updated(history, item, capacity)[0].id == item.id,
        distinct_ids(history) ==> distinct_ids(updated(history, item, capacity)),
{
    lemma_recorded_front(history, item);
    if distinct_ids(history) {
        lemma_recorded_distinct(history, item);
        let full = recorded(history, item);
        let kept = updated(history, item, capacity);
        assert forall|a: int, b: int| 0 <= a < b < kept.len() implies (#[trigger] kept[a]).id != (
        #[trigger] kept[b]).id by {
            assert(full[a].id != full[b].id);
        }
    }
}

/// Under a bound of no entry or of one entry there is never anything to
/// answer with.
pub proof fn lemma_no_candidate_under_small_bound(
    history: Seq<StickerEntryView>,
    item: StickerEntryView,
    capacity: nat,
)
    requires
        capacity <= 1,
    ensures
        candidate_count(updated(history, item, capacity)) == 0,
        capacity == 0 ==> updated(history, item, capacity) == Seq::<StickerEntryView>::empty(),
{
    lemma_updated_bounded(history, item, capacity);
    if capacity == 0 {
        assert(updated(history, item, capacity) =~= Seq::empty());
    }
}

/// In a history in which no identifier occurs twice, what can be chosen as
/// an answer is never the sticker that was just seen.
pub proof fn lemma_candidate_differs(
    history: Seq<StickerEntryView>,
    item: StickerEntryView,
    capacity: nat,
    k: int,
)
    requires
        distinct_ids(history),
        1 <= k < updated(history, item, capacity).len(),
    ensures
        updated(history, item, capacity)[k].id != item.id,
{
    lemma_updated_bounded(history, item, capacity);
    let kept = updated(history, item, capacity);
    assert(kept[0].id != kept[k].id);
}

} // verus!
