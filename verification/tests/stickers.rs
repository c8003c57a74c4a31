use haloobot::stickers::{
    CacheError, ChatStickerCache, EmojiHistory, StickerCache, StickerEntry, StickersForEmoji,
};
use std::collections::VecDeque;

fn sticker(id: &str) -> StickerEntry {
    StickerEntry { id: id.to_string(), file_id: format!("file-{}", id) }
}

fn ids(history: &StickersForEmoji) -> Vec<String> {
    history.to_vec().into_iter().map(|entry| entry.id).collect()
}

#[test]
fn recording_three_new_stickers_puts_latest_first() {
    let mut history = StickersForEmoji::empty();
    history.record(3, &sticker("A"));
    history.record(3, &sticker("B"));
    history.record(3, &sticker("C"));
    assert_eq!(ids(&history), vec!["C", "B", "A"]);
}

#[test]
fn selection_never_returns_the_sticker_just_seen() {
    for _ in 0..200 {
        let mut history = StickersForEmoji::empty();
        assert!(history.select_sticker_and_update(5, &sticker("A")).is_none());
        let second = history.select_sticker_and_update(5, &sticker("B"));
        assert_eq!(second.map(|entry| entry.id), Some("A".to_string()));
        let third = history.select_sticker_and_update(5, &sticker("C")).unwrap();
        assert!(third.id == "A" || third.id == "B");
        assert_ne!(third.id, "C");
        assert_eq!(ids(&history), vec!["C", "B", "A"]);
    }
}

#[test]
fn selection_reaches_every_candidate() {
    let mut seen_a = false;
    let mut seen_b = false;
    for _ in 0..400 {
        let mut history = StickersForEmoji::new(VecDeque::from(vec![sticker("B"), sticker("A")]));
        let chosen = history.select_sticker_and_update(5, &sticker("C")).unwrap();
        seen_a = seen_a || chosen.id == "A";
        seen_b = seen_b || chosen.id == "B";
    }
    assert!(seen_a && seen_b);
}

#[test]
fn recording_a_known_sticker_moves_it_to_the_front() {
    let mut history =
        StickersForEmoji::new(VecDeque::from(vec![sticker("C"), sticker("B"), sticker("A")]));
    history.record(3, &sticker("A"));
    assert_eq!(ids(&history), vec!["A", "C", "B"]);
    assert_eq!(history.len(), 3);
}

#[test]
fn recording_the_front_sticker_changes_nothing() {
    let mut history =
        StickersForEmoji::new(VecDeque::from(vec![sticker("C"), sticker("B"), sticker("A")]));
    history.record(3, &sticker("C"));
    assert_eq!(ids(&history), vec!["C", "B", "A"]);
}

#[test]
fn a_known_sticker_keeps_the_file_it_was_first_seen_as() {
    let mut history = StickersForEmoji::new(VecDeque::from(vec![sticker("B"), sticker("A")]));
    let again = StickerEntry { id: "A".to_string(), file_id: "another-file".to_string() };
    history.record(5, &again);
    let entries = history.to_vec();
    assert_eq!(entries[0].id, "A");
    assert_eq!(entries[0].file_id, "file-A");
}

#[test]
fn capacity_two_evicts_the_oldest() {
    let mut history = StickersForEmoji::empty();
    history.select_sticker_and_update(2, &sticker("A"));
    history.select_sticker_and_update(2, &sticker("B"));
    let chosen = history.select_sticker_and_update(2, &sticker("C"));
    assert_eq!(ids(&history), vec!["C", "B"]);
    assert_eq!(chosen.map(|entry| entry.id), Some("B".to_string()));
}

#[test]
fn capacity_zero_keeps_nothing_and_selects_nothing() {
    let mut history = StickersForEmoji::empty();
    for name in ["A", "B", "A", "C"] {
        assert!(history.select_sticker_and_update(0, &sticker(name)).is_none());
        assert_eq!(history.len(), 0);
    }
}

#[test]
fn capacity_one_never_selects() {
    let mut history = StickersForEmoji::empty();
    for name in ["A", "A", "B", "A"] {
        assert!(history.select_sticker_and_update(1, &sticker(name)).is_none());
        assert_eq!(history.len(), 1);
    }
    assert_eq!(ids(&history), vec!["A"]);
}

#[test]
fn a_smaller_bound_cuts_a_longer_history() {
    let mut history = StickersForEmoji::new(VecDeque::from(vec![
        sticker("D"),
        sticker("C"),
        sticker("B"),
        sticker("A"),
    ]));
    history.record(2, &sticker("B"));
    assert_eq!(ids(&history), vec!["B", "D"]);
}

#[test]
fn candidates_are_the_entries_behind_the_front() {
    let history =
        StickersForEmoji::new(VecDeque::from(vec![sticker("C"), sticker("B"), sticker("A")]));
    assert_eq!(history.candidates(), 2);
    assert_eq!(history.candidate(0).map(|entry| entry.id), Some("B".to_string()));
    assert_eq!(history.candidate(1).map(|entry| entry.id), Some("A".to_string()));
    assert!(history.candidate(2).is_none());
    assert_eq!(StickersForEmoji::empty().candidates(), 0);
    assert!(StickersForEmoji::empty().candidate(0).is_none());
}

#[test]
fn get_gives_the_entry_at_a_place() {
    let history = StickersForEmoji::new(VecDeque::from(vec![sticker("B"), sticker("A")]));
    assert_eq!(history.get(1).map(|entry| entry.file_id), Some("file-A".to_string()));
    assert!(history.get(2).is_none());
    assert_eq!(history.stickers().len(), 2);
}

#[test]
fn chat_cache_keeps_one_history_for_each_emoji() {
    let mut cache = ChatStickerCache::empty();
    assert!(cache.select_sticker_and_update(5, "😀", &sticker("A")).is_none());
    assert!(cache.select_sticker_and_update(5, "😢", &sticker("X")).is_none());
    let chosen = cache.select_sticker_and_update(5, "😀", &sticker("B"));
    assert_eq!(chosen.map(|entry| entry.id), Some("A".to_string()));
    assert_eq!(ids(cache.get("😀").unwrap()), vec!["B", "A"]);
    assert_eq!(ids(cache.get("😢").unwrap()), vec!["X"]);
    assert!(cache.get("🙃").is_none());
}

#[test]
fn chat_cache_takes_the_last_history_given_for_an_emoji() {
    let cache = ChatStickerCache::new(vec![
        EmojiHistory {
            emoji: "😀".to_string(),
            stickers: StickersForEmoji::new(VecDeque::from(vec![sticker("A")])),
        },
        EmojiHistory {
            emoji: "😢".to_string(),
            stickers: StickersForEmoji::new(VecDeque::from(vec![sticker("X")])),
        },
        EmojiHistory {
            emoji: "😀".to_string(),
            stickers: StickersForEmoji::new(VecDeque::from(vec![sticker("C"), sticker("B")])),
        },
    ]);
    assert_eq!(ids(cache.get("😀").unwrap()), vec!["C", "B"]);
    assert_eq!(ids(cache.get("😢").unwrap()), vec!["X"]);
}

#[test]
fn stored_history_comes_back_unchanged() {
    let mut cache = ChatStickerCache::empty();
    for name in ["A", "B", "C", "B"] {
        cache.record(10, "😀", &sticker(name));
    }
    let stored = cache.get("😀").unwrap().to_vec();
    let loaded = ChatStickerCache::new(vec![EmojiHistory {
        emoji: "😀".to_string(),
        stickers: StickersForEmoji::new(VecDeque::from(stored.clone())),
    }]);
    let back = loaded.get("😀").unwrap().to_vec();
    assert_eq!(back.len(), stored.len());
    for (a, b) in back.iter().zip(stored.iter()) {
        assert_eq!(a.id, b.id);
        assert_eq!(a.file_id, b.file_id);
    }
    assert_eq!(ids(loaded.get("😀").unwrap()), vec!["B", "C", "A"]);
}

#[test]
fn sticker_cache_refuses_a_chat_that_was_not_loaded() {
    let mut cache = StickerCache::new();
    assert!(!cache.is_loaded(7));
    let outcome = cache.update_and_get_response_sticker(7, 5, "😀", &sticker("A"));
    assert_eq!(outcome.err(), Some(CacheError::ChatNotLoaded));
    assert!(!cache.is_loaded(7));
}

#[test]
fn sticker_cache_loads_a_chat_once() {
    let mut cache = StickerCache::new();
    assert!(cache.load(7, ChatStickerCache::empty()));
    assert!(cache.is_loaded(7));
    let first = cache.update_and_get_response_sticker(7, 5, "😀", &sticker("A")).unwrap();
    assert!(first.sticker.is_none());
    assert!(!cache.load(7, ChatStickerCache::empty()));
    let second = cache.update_and_get_response_sticker(7, 5, "😀", &sticker("B")).unwrap();
    assert_eq!(second.sticker.map(|entry| entry.id), Some("A".to_string()));
    let stored: Vec<String> = second.history.into_iter().map(|entry| entry.id).collect();
    assert_eq!(stored, vec!["B", "A"]);
}

#[test]
fn sticker_cache_keeps_chats_apart() {
    let mut cache = StickerCache::new();
    cache.load(1, ChatStickerCache::empty());
    cache.load(2, ChatStickerCache::empty());
    cache.update_and_get_response_sticker(1, 5, "😀", &sticker("A")).unwrap();
    let other = cache.update_and_get_response_sticker(2, 5, "😀", &sticker("B")).unwrap();
    assert!(other.sticker.is_none());
    assert_eq!(other.history.len(), 1);
}
