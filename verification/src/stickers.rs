//! Per-emoji histories of the stickers seen in a chat, most recent first.

use crate::chance::random_below;
use crate::recency::{
    candidate_count, has_id, is_first_with_id, lemma_first_with_id_unique, lemma_updated_bounded,
    recorded, truncated, updated,
};
use std::collections::HashMap;
use std::collections::VecDeque;
use vstd::prelude::*;
use vstd::string::StringExecFns;

verus! {

broadcast use vstd::std_specs::hash::group_hash_axioms;

/// A sticker as the history remembers it.
#[derive(Debug)]
pub struct StickerEntry {
    /// Identifies the sticker whatever file it was sent as.
    pub id: String,
    /// The reference by which the sticker can be sent again.
    pub file_id: String,
}

/// A sticker entry as a mathematical value.
pub struct StickerEntryView {
    pub id: Seq<char>,
    pub file_id: Seq<char>,
}

impl View for StickerEntry {
    type V = StickerEntryView;

    open spec fn view(&self) -> StickerEntryView {
        StickerEntryView { id: self.id@, file_id: self.file_id@ }
    }
}

impl Clone for StickerEntry {
    fn clone(&self) -> (copy: Self)
        ensures
            copy == *self,
    {
        StickerEntry { id: self.id.clone(), file_id: self.file_id.clone() }
    }
}

/// The views of a run of entries, in order.
pub open spec fn entry_views(entries: Seq<StickerEntry>) -> Seq<StickerEntryView> {
    entries.map_values(|e: StickerEntry| e@)
}

/// The stickers seen for one emoji, most recent first.
#[derive(Debug)]
pub struct StickersForEmoji {
    stickers: VecDeque<StickerEntry>,
}

impl View for StickersForEmoji {
    type V = Seq<StickerEntryView>;

    closed spec fn view(&self) -> Seq<StickerEntryView> {
        entry_views(self.stickers@)
    }
}

impl StickersForEmoji {
    /// A history that holds `stickers`, the most recent at the front.
    pub fn new(stickers: VecDeque<StickerEntry>) -> (history: Self)
        ensures
            history@ == entry_views(stickers@),
    {
        Self { stickers }
    }

    /// A history in which nothing was seen yet.
    pub fn empty() -> (history: Self)
        ensures
            history@ == Seq::<StickerEntryView>::empty(),
    {
        Self { stickers: VecDeque::new() }
    }

    /// How many stickers the history holds.
    pub fn len(&self) -> (n: usize)
        ensures
            n == self@.len(),
    {
        self.stickers.len()
    }

    /// The entry at place `index`, counted from the most recent.
    pub fn get(&self, index: usize) -> (entry: Option<StickerEntry>)
        ensures
            index < self@.len() ==> entry.is_some() && entry.unwrap()@ == self@[index as int],
            index >= self@.len() ==> entry.is_none(),
    {
        if index < self.stickers.len() {
            Some(self.stickers[index].clone())
        } else {
            None
        }
    }

    /// The place of the first entry that carries `id`.
    fn position(&self, id: &String) -> (found: Option<usize>)
        ensures
            match found {
                Some(k) => is_first_with_id(self@, id@, k as int),
                None => !has_id(self@, id@),
            },
    {
        let n = self.stickers.len();
        let mut i: usize = 0;
        while i < n
            invariant
                n == self.stickers@.len(),
                i <= n,
                forall|j: int| 0 <= j < i ==> (#[trigger] self@[j]).id != id@,
            decreases n - i,
        {
            if self.stickers[i].id == *id {
                return Some(i);
            }
            i += 1;
        }
        None
    }

    /// Notes that `posted_sticker` was seen, and keeps at most `lru_size`
    /// entries: the least recently seen ones leave.
    pub fn record(&mut self, lru_size: u32, posted_sticker: &StickerEntry)
        ensures
            final(self)@ == updated(old(self)@, posted_sticker@, lru_size as nat),
    {
        let ghost before = self@;
        match self.position(&posted_sticker.id) {
            Some(index) => {
                proof {
                    lemma_first_with_id_unique(before, posted_sticker.id@, index as int);
                }
                if index != 0 {
                    let moved = self.stickers.remove(index);
                    match moved {
                        Some(sticker) => {
                            self.stickers.push_front(sticker);
                        },
                        None => {},
                    }
                    assert(self@ =~= seq![before[index as int]] + before.remove(index as int));
                } else {
                    assert(self@ =~= seq![before[0]] + before.remove(0));
                }
            },
            None => {
                self.stickers.push_front(posted_sticker.clone());
                assert(self@ =~= seq![posted_sticker@] + before);
            },
        }
        assert(self@ == recorded(before, posted_sticker@));
        let ghost full = self@;
        self.stickers.truncate(lru_size as usize);
        assert(self@ =~= truncated(full, lru_size as nat));
    }

    /// Notes that `posted_sticker` was seen, as `record` does, and chooses
    /// at random a sticker to answer with among the entries behind the front
    /// one: the sticker just seen is never chosen. Each of them is as likely
    /// as the other. Where there is none, nothing is chosen.
    pub fn select_sticker_and_update(
        &mut self,
        lru_size: u32,
        posted_sticker: &StickerEntry,
    ) -> (selected: Option<StickerEntry>)
        ensures
            final(self)@ == updated(old(self)@, posted_sticker@, lru_size as nat),
            selected is None <==> candidate_count(final(self)@) == 0,
            lru_size <= 1 ==> selected is None,
            selected matches Some(sticker) ==> exists|k: int|
                1 <= k < final(self)@.len() && sticker@ == #[trigger] final(self)@[k],
    {
        proof {
            lemma_updated_bounded(self@, posted_sticker@, lru_size as nat);
        }
        self.record(lru_size, posted_sticker);
        let n = self.candidates();
        if n == 0 {
            None
        } else {
            let choice = random_below(n as u64) as usize;
            let selected = self.candidate(choice);
            assert(selected.unwrap()@ == self@[choice as int + 1]);
            selected
        }
    }

    /// The entries of the history, most recent first, as they are stored.
    pub fn stickers(&self) -> (entries: &VecDeque<StickerEntry>)
        ensures
            entry_views(entries@) == self@,
    {
        &self.stickers
    }

    /// A copy of the entries of the history, most recent first.
    pub fn to_vec(&self) -> (entries: Vec<StickerEntry>)
        ensures
            entry_views(entries@) == self@,
    {
        let mut entries: Vec<StickerEntry> = Vec::new();
        let n = self.stickers.len();
        let mut i: usize = 0;
        while i < n
            invariant
                n == self.stickers@.len(),
                i <= n,
                entry_views(entries@) == self@.take(i as int),
            decreases n - i,
        {
            let ghost copied = entries@;
            let entry = self.stickers[i].clone();
            entries.push(entry);
            assert(entry_views(entries@) =~= entry_views(copied).push(entry@));
            assert(self@.take(i as int + 1) =~= self@.take(i as int).push(self@[i as int]));
            i += 1;
        }
        assert(self@.take(n as int) == self@);
        entries
    }

    /// How many entries can be chosen as a response.
    pub fn candidates(&self) -> (n: usize)
        ensures
            n == candidate_count(self@),
    {
        let len = self.stickers.len();
        if len <= 1 {
            0
        } else {
            len - 1
        }
    }

    /// The `choice`-th entry behind the front one, which is never chosen.
    pub fn candidate(&self, choice: usize) -> (entry: Option<StickerEntry>)
        ensures
            choice < candidate_count(self@) ==> entry.is_some() && entry.unwrap()@
                == self@[choice as int + 1],
            choice >= candidate_count(self@) ==> entry.is_none(),
    {
        if self.stickers.len() >= 2 && choice < self.stickers.len() - 1 {
            Some(self.stickers[choice + 1].clone())
        } else {
            None
        }
    }
}

/// One emoji of a chat together with the stickers seen for it.
#[derive(Debug)]
pub struct EmojiHistory {
    /// The emoji the stickers stand for.
    pub emoji: String,
    /// The stickers seen for it, most recent first.
    pub stickers: StickersForEmoji,
}

/// What a chat remembers, as a map from emoji to history.
pub type ChatHistories = Map<Seq<char>, Seq<StickerEntryView>>;

/// The map that a run of emoji histories stands for. Where an emoji occurs
/// more than once, its last history counts.
pub open spec fn histories_of(entries: Seq<EmojiHistory>) -> ChatHistories
    decreases entries.len(),
{
    if entries.len() == 0 {
        Map::empty()
    } else {
        histories_of(entries.drop_last()).insert(entries.last().emoji@, entries.last().stickers@)
    }
}

/// The history that a chat holds for `emoji`: empty where it holds none.
pub open spec fn history_for(histories: ChatHistories, emoji: Seq<char>) -> Seq<StickerEntryView> {
    if histories.contains_key(emoji) {
        histories[emoji]
    } else {
        Seq::empty()
    }
}

/// The map of a run of histories holds exactly the emoji that occur in it.
pub proof fn lemma_histories_domain(entries: Seq<EmojiHistory>, emoji: Seq<char>)
    ensures
        histories_of(entries).contains_key(emoji) <==> exists|i: int|
            0 <= i < entries.len() && (#[trigger] entries[i]).emoji@ == emoji,
    decreases entries.len(),
{
    if entries.len() > 0 {
        let front = entries.drop_last();
        lemma_histories_domain(front, emoji);
        if histories_of(entries).contains_key(emoji) {
            if entries.last().emoji@ == emoji {
                assert(entries[entries.len() - 1].emoji@ == emoji);
            } else {
                let i = choose|i: int|
                    0 <= i < front.len() && (#[trigger] front[i]).emoji@ == emoji;
                assert(entries[i].emoji@ == emoji);
            }
        }
        if exists|i: int| 0 <= i < entries.len() && (#[trigger] entries[i]).emoji@ == emoji {
            let i = choose|i: int|
                0 <= i < entries.len() && (#[trigger] entries[i]).emoji@ == emoji;
            if i < front.len() {
                assert(front[i].emoji@ == emoji);
            }
        }
    }
}

/// Whether `k` is the last place in `entries` that speaks of `emoji`.
pub open spec fn is_last_for(entries: Seq<EmojiHistory>, emoji: Seq<char>, k: int) -> bool {
    &&& 0 <= k < entries.len()
    &&& entries[k].emoji@ == emoji
    &&& forall|j: int| k < j < entries.len() ==> (#[trigger] entries[j]).emoji@ != emoji
}

/// The map gives each emoji the history of the last entry that speaks of it.
pub proof fn lemma_histories_lookup(entries: Seq<EmojiHistory>, emoji: Seq<char>, k: int)
    requires
        is_last_for(entries, emoji, k),
    ensures
        histories_of(entries).contains_key(emoji),
        histories_of(entries)[emoji] == entries[k].stickers@,
    decreases entries.len(),
{
    let front = entries.drop_last();
    if k < entries.len() - 1 {
        assert(entries[entries.len() - 1].emoji@ != emoji);
        assert(is_last_for(front, emoji, k)) by {
            assert forall|j: int| k < j < front.len() implies (#[trigger] front[j]).emoji@
                != emoji by {
                assert(entries[j].emoji@ != emoji);
            }
        }
        lemma_histories_lookup(front, emoji, k);
    }
}

/// Replacing the last entry that speaks of an emoji replaces its history in the map.
pub proof fn lemma_histories_update(entries: Seq<EmojiHistory>, k: int, entry: EmojiHistory)
    requires
        is_last_for(entries, entry.emoji@, k),
    ensures
        histories_of(entries.update(k, entry)) == histories_of(entries).insert(
            entry.emoji@,
            entry.stickers@,
        ),
    decreases entries.len(),
{
    let after = entries.update(k, entry);
    let front = entries.drop_last();
    if k == entries.len() - 1 {
        assert(after.drop_last() == front);
        assert(histories_of(after) =~= histories_of(entries).insert(entry.emoji@, entry.stickers@));
    } else {
        assert(entries[entries.len() - 1].emoji@ != entry.emoji@);
        assert(is_last_for(front, entry.emoji@, k)) by {
            assert forall|j: int| k < j < front.len() implies (#[trigger] front[j]).emoji@
                != entry.emoji@ by {
                assert(entries[j].emoji@ != entry.emoji@);
            }
        }
        lemma_histories_update(front, k, entry);
        assert(after.drop_last() == front.update(k, entry));
        assert(after.last() == entries.last());
        assert(histories_of(after) =~= histories_of(entries).insert(entry.emoji@, entry.stickers@));
    }
}

/// The sticker histories of one chat, one for each emoji seen there.
#[derive(Debug)]
pub struct ChatStickerCache {
    by_emoji: Vec<EmojiHistory>,
}

impl View for ChatStickerCache {
    type V = ChatHistories;

    closed spec fn view(&self) -> ChatHistories {
        histories_of(self.by_emoji@)
    }
}

impl ChatStickerCache {
    /// The last place that speaks of `emoji`.
    fn position(&self, emoji: &str) -> (found: Option<usize>)
        ensures
            match found {
                Some(k) => is_last_for(self.by_emoji@, emoji@, k as int),
                None => forall|j: int|
                    0 <= j < self.by_emoji@.len() ==> (#[trigger] self.by_emoji@[j]).emoji@
                        != emoji@,
            },
    {
        let wanted = String::from_str(emoji);
        let mut i: usize = self.by_emoji.len();
        while i > 0
            invariant
                i <= self.by_emoji@.len(),
                wanted@ == emoji@,
                forall|j: int|
                    i <= j < self.by_emoji@.len() ==> (#[trigger] self.by_emoji@[j]).emoji@
                        != emoji@,
            decreases i,
        {
            i -= 1;
            if self.by_emoji[i].emoji == wanted {
                return Some(i);
            }
        }
        None
    }

    /// A cache without any history.
    pub fn empty() -> (cache: Self)
        ensures
            cache@ == ChatHistories::empty(),
    {
        Self { by_emoji: Vec::new() }
    }

    /// Sets the history of one emoji, in place of the one held for it if any.
    pub fn insert(&mut self, emoji: String, stickers: StickersForEmoji)
        ensures
            final(self)@ == old(self)@.insert(emoji@, stickers@),
    {
        let entry = EmojiHistory { emoji, stickers };
        match self.position(entry.emoji.as_str()) {
            Some(k) => {
                proof {
                    lemma_histories_update(self.by_emoji@, k as int, entry);
                }
                self.by_emoji.set(k, entry);
            },
            None => {
                let ghost before = self.by_emoji@;
                assert(before.push(entry).drop_last() == before);
                self.by_emoji.push(entry);
            },
        }
    }

    /// A cache that holds the given histories. Where an emoji is given more
    /// than once, its last history counts.
    pub fn new(by_emoji: Vec<EmojiHistory>) -> (cache: Self)
        ensures
            cache@ == histories_of(by_emoji@),
    {
        let mut cache = Self::empty();
        let ghost given = by_emoji@;
        for entry in iter: by_emoji
            invariant
                iter.seq() == given,
                cache@ == histories_of(given.take(iter.index() as int)),
        {
            proof {
                let done = iter.index() as int;
                assert(given.take(done + 1).drop_last() == given.take(done));
                assert(given.take(done + 1).last() == entry);
            }
            cache.insert(entry.emoji, entry.stickers);
        }
        assert(given.take(given.len() as int) == given);
        cache
    }

    /// Notes that `posted_sticker` was seen for `emoji`, in the history of
    /// that emoji, which begins with it where the chat has none yet.
    pub fn record(&mut self, lru_size: u32, emoji: &str, posted_sticker: &StickerEntry)
        ensures
            final(self)@ == old(self)@.insert(
                emoji@,
                updated(history_for(old(self)@, emoji@), posted_sticker@, lru_size as nat),
            ),
    {
        proof {
            lemma_histories_domain(self.by_emoji@, emoji@);
        }
        let ghost before = self.by_emoji@;
        match self.position(emoji) {
            Some(k) => {
                proof {
                    lemma_histories_lookup(before, emoji@, k as int);
                }
                let mut stickers = StickersForEmoji::empty();
                std::mem::swap(&mut self.by_emoji[k].stickers, &mut stickers);
                stickers.record(lru_size, posted_sticker);
                let entry = EmojiHistory { emoji: String::from_str(emoji), stickers };
                proof {
                    assert(self.by_emoji@.update(k as int, entry) == before.update(
                        k as int,
                        entry,
                    ));
                    lemma_histories_update(before, k as int, entry);
                }
                self.by_emoji.set(k, entry);
            },
            None => {
                let mut stickers = StickersForEmoji::empty();
                stickers.record(lru_size, posted_sticker);
                let entry = EmojiHistory { emoji: String::from_str(emoji), stickers };
                assert(before.push(entry).drop_last() == before);
                self.by_emoji.push(entry);
            },
        }
    }

    /// Notes that `posted_sticker` was seen for `emoji`, as `record` does,
    /// and chooses at random a sticker to answer with among those seen for
    /// that emoji before: never the one just seen.
    pub fn select_sticker_and_update(
        &mut self,
        lru_size: u32,
        emoji: &str,
        posted_sticker: &StickerEntry,
    ) -> (selected: Option<StickerEntry>)
        ensures
            final(self)@ == old(self)@.insert(
                emoji@,
                updated(history_for(old(self)@, emoji@), posted_sticker@, lru_size as nat),
            ),
            selected is None <==> candidate_count(final(self)@[emoji@]) == 0,
            lru_size <= 1 ==> selected is None,
            selected matches Some(sticker) ==> exists|k: int|
                1 <= k < final(self)@[emoji@].len() && sticker@ == (#[trigger] final(
                    self
                )@[emoji@][k]),
    {
        proof {
            lemma_updated_bounded(history_for(self@, emoji@), posted_sticker@, lru_size as nat);
        }
        self.record(lru_size, emoji, posted_sticker);
        match self.get(emoji) {
            Some(history) => {
                let n = history.candidates();
                if n == 0 {
                    None
                } else {
                    let choice = random_below(n as u64) as usize;
                    let selected = history.candidate(choice);
                    assert(selected.unwrap()@ == self@[emoji@][choice as int + 1]);
                    selected
                }
            },
            None => None,
        }
    }

    /// The history held for `emoji`; none if nothing was seen for it.
    pub fn get(&self, emoji: &str) -> (history: Option<&StickersForEmoji>)
        ensures
            history.is_some() == self@.contains_key(emoji@),
            history.is_some() ==> history.unwrap()@ == self@[emoji@],
    {
        proof {
            lemma_histories_domain(self.by_emoji@, emoji@);
        }
        match self.position(emoji) {
            Some(k) => {
                proof {
                    lemma_histories_lookup(self.by_emoji@, emoji@, k as int);
                }
                Some(&self.by_emoji[k].stickers)
            },
            None => None,
        }
    }
}

/// What came of a sticker being seen in a chat.
#[derive(Debug)]
pub struct Selection {
    /// The sticker to answer with, if there is one to choose.
    pub sticker: Option<StickerEntry>,
    /// The history of the emoji as it is now, which is to be stored.
    pub history: Vec<StickerEntry>,
}

/// Why the cache could not do what was asked of it.
#[derive(Debug, PartialEq, Eq, Structural)]
pub enum CacheError {
    /// The histories of the chat were not handed to the cache before it was
    /// asked about the chat.
    ChatNotLoaded,
}

/// The sticker histories of the chats that were asked about so far.
#[derive(Debug)]
pub struct StickerCache {
    by_chat: HashMap<i64, ChatStickerCache>,
}

impl View for StickerCache {
    type V = Map<i64, ChatHistories>;

    /// The histories that are held, by chat.
    closed spec fn view(&self) -> Map<i64, ChatHistories> {
        self.by_chat@.map_values(|cache: ChatStickerCache| cache@)
    }
}

impl StickerCache {
    /// A cache that holds no chat yet.
    pub fn new() -> (cache: Self)
        ensures
            cache@ == Map::<i64, ChatHistories>::empty(),
    {
        let cache = Self { by_chat: HashMap::new() };
        assert(cache@ =~= Map::empty());
        cache
    }

    /// Whether the histories of `chat_id` are held. Where they are not,
    /// storage has to be asked for them, and its answer handed to `load`.
    pub fn is_loaded(&self, chat_id: i64) -> (loaded: bool)
        ensures
            loaded == self@.contains_key(chat_id),
    {
        self.by_chat.contains_key(&chat_id)
    }

    /// Takes the histories that storage holds for `chat_id`, unless the
    /// cache holds histories of that chat already: those stay, whatever was
    /// seen since they came, and what is handed in is dropped. Says whether
    /// the histories were taken.
    pub fn load(&mut self, chat_id: i64, histories: ChatStickerCache) -> (taken: bool)
        ensures
            taken == !old(self)@.contains_key(chat_id),
            taken ==> final(self)@ == old(self)@.insert(chat_id, histories@),
            !taken ==> final(self)@ == old(self)@,
    {
        if self.by_chat.contains_key(&chat_id) {
            false
        } else {
            let ghost before = self@;
            self.by_chat.insert(chat_id, histories);
            assert(self@ =~= before.insert(chat_id, histories@));
            true
        }
    }

    /// Notes that `posted_sticker` was seen for `emoji` in chat `chat_id`,
    /// under a bound of `lru_size` stickers for each emoji, and chooses at
    /// random a sticker to answer with among those seen for that emoji
    /// before. Gives the history as it is now as well, for storage. A chat
    /// whose histories were never handed in is refused and nothing changes.
    pub fn update_and_get_response_sticker(
        &mut self,
        chat_id: i64,
        lru_size: u32,
        emoji: &str,
        posted_sticker: &StickerEntry,
    ) -> (outcome: Result<Selection, CacheError>)
        ensures
            outcome.is_ok() == old(self)@.contains_key(chat_id),
            outcome.is_err() ==> final(self)@ == old(self)@,
            outcome matches Ok(selection) ==> {
                let history = updated(
                    history_for(old(self)@[chat_id], emoji@),
                    posted_sticker@,
                    lru_size as nat,
                );
                &&& final(self)@ == old(self)@.insert(
                    chat_id,
                    old(self)@[chat_id].insert(emoji@, history),
                )
                &&& entry_views(selection.history@) == history
                &&& selection.sticker is None <==> candidate_count(history) == 0
                &&& lru_size <= 1 ==> selection.sticker is None
                &&& selection.sticker matches Some(sticker) ==> exists|k: int|
                    1 <= k < history.len() && sticker@ == #[trigger] history[k]
            },
    {
        let ghost before = self@;
        let ghost held = self.by_chat@;
        match self.by_chat.remove(&chat_id) {
            Some(chat) => {
                let mut chat = chat;
                let ghost old_chat = chat@;
                assert(old_chat == before[chat_id]);
                let sticker = chat.select_sticker_and_update(lru_size, emoji, posted_sticker);
                let history = match chat.get(emoji) {
                    Some(stickers) => stickers.to_vec(),
                    None => Vec::new(),
                };
                let ghost new_chat = chat@;
                self.by_chat.insert(chat_id, chat);
                assert(self@ =~= before.insert(chat_id, new_chat));
                Ok(Selection { sticker, history })
            },
            None => {
                assert(self.by_chat@ =~= held);
                assert(self@ =~= before);
                Err(CacheError::ChatNotLoaded)
            },
        }
    }
}

} // verus!
