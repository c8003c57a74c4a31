//! The settings of each chat, remembered once they were asked for.
//!
//! Storage is not reached from here. What storage answered is handed in,
//! and this module decides what is remembered and what is given out.

use crate::chance::CHANCE_ONE;
use std::collections::HashMap;
use vstd::prelude::*;

verus! {

broadcast use vstd::std_specs::hash::group_hash_axioms;

/// The chance with which a chat is answered while it has set none: one half.
pub const DEFAULT_AUTOREPLY_CHANCE: u64 = 4_503_599_627_370_496;

/// How many stickers a chat remembers for each emoji while it has set no bound.
pub const DEFAULT_STICKER_LRU_SIZE: u32 = 20;

/// The settings of one chat.
#[derive(Copy, Clone, Debug, PartialEq, Eq, Structural)]
pub struct ChatConfig {
    /// The chat the settings belong to.
    pub chat_id: i64,
    /// The chance with which a matching rule or a seen sticker is answered,
    /// in parts of `CHANCE_ONE`.
    pub autoreply_chance: u64,
    /// How many stickers are remembered for each emoji.
    pub sticker_lru_size: u32,
}

/// The settings of a chat that has set none.
pub open spec fn default_config(chat_id: i64) -> ChatConfig {
    ChatConfig {
        chat_id,
        autoreply_chance: DEFAULT_AUTOREPLY_CHANCE,
        sticker_lru_size: DEFAULT_STICKER_LRU_SIZE,
    }
}

/// The settings that count for `chat_id` where storage holds `stored` for
/// it: the stored ones, or the default ones where it holds none.
pub open spec fn loaded_config(chat_id: i64, stored: Option<ChatConfig>) -> ChatConfig {
    match stored {
        Some(config) => ChatConfig {
            chat_id,
            autoreply_chance: config.autoreply_chance,
            sticker_lru_size: config.sticker_lru_size,
        },
        None => default_config(chat_id),
    }
}

/// The settings that `remembered` holds for `chat_id`: the default ones
/// where it holds none.
pub open spec fn config_or_default(remembered: Map<i64, ChatConfig>, chat_id: i64) -> ChatConfig {
    if remembered.contains_key(chat_id) {
        remembered[chat_id]
    } else {
        default_config(chat_id)
    }
}

impl ChatConfig {
    /// The settings of a chat that has set none.
    pub fn new(chat_id: i64) -> (config: Self)
        ensures
            config == default_config(chat_id),
    {
        Self {
            chat_id,
            autoreply_chance: DEFAULT_AUTOREPLY_CHANCE,
            sticker_lru_size: DEFAULT_STICKER_LRU_SIZE,
        }
    }
}

/// The default chance is one half of what is certain.
pub proof fn lemma_default_chance_is_half()
    ensures
        2 * DEFAULT_AUTOREPLY_CHANCE == CHANCE_ONE,
{
}

/// Why storage could not do what was asked of it.
#[derive(Debug)]
pub struct StorageError {
    /// What storage said.
    pub message: String,
}

/// The settings of the chats that were asked for so far.
#[derive(Debug)]
pub struct ChatConfigModel {
    cache: HashMap<i64, ChatConfig>,
}

impl View for ChatConfigModel {
    type V = Map<i64, ChatConfig>;

    /// The settings that are remembered, by chat.
    closed spec fn view(&self) -> Map<i64, ChatConfig> {
        self.cache@
    }
}

impl ChatConfigModel {
    /// A model that remembers nothing yet.
    pub fn new() -> (model: Self)
        ensures
            model@ == Map::<i64, ChatConfig>::empty(),
    {
        Self { cache: HashMap::new() }
    }

    /// The settings remembered for `chat_id`. Where none are remembered,
    /// storage has to be asked, and its answer handed to `remember`.
    pub fn get(&self, chat_id: i64) -> (config: Option<ChatConfig>)
        ensures
            config == if self@.contains_key(chat_id) {
                Some(self@[chat_id])
            } else {
                None
            },
    {
        match self.cache.get(&chat_id) {
            Some(config) => Some(*config),
            None => None,
        }
    }

    /// Takes what storage holds for `chat_id` and gives the settings that
    /// count from now on. Settings that are already remembered stay as they
    /// are and are given out. Otherwise the stored ones are remembered and
    /// given out, or the default ones where storage holds none.
    pub fn remember(&mut self, chat_id: i64, stored: Option<ChatConfig>) -> (config: ChatConfig)
        ensures
            old(self)@.contains_key(chat_id) ==> config == old(self)@[chat_id] && final(self)@
                == old(self)@,
            !old(self)@.contains_key(chat_id) ==> config == loaded_config(chat_id, stored)
                && final(self)@ == old(self)@.insert(chat_id, config),
    {
        match self.cache.get(&chat_id) {
            Some(config) => *config,
            None => {
                let config = match stored {
                    Some(found) => ChatConfig {
                        chat_id,
                        autoreply_chance: found.autoreply_chance,
                        sticker_lru_size: found.sticker_lru_size,
                    },
                    None => ChatConfig::new(chat_id),
                };
                self.cache.insert(chat_id, config);
                config
            },
        }
    }

    /// Sets the chance of `chat_id` once storage has answered the request to
    /// save it. Where storage failed, nothing changes and its error is
    /// handed on. Where it succeeded, the remembered settings of the chat
    /// get the new chance; a chat without remembered settings gets the
    /// default ones with the new chance. The chance is taken as it is.
    pub fn set_autoreply_chance(
        &mut self,
        chat_id: i64,
        chance: u64,
        saved: Result<(), StorageError>,
    ) -> (outcome: Result<(), StorageError>)
        ensures
            outcome == saved,
            saved.is_err() ==> final(self)@ == old(self)@,
            saved.is_ok() ==> final(self)@ == old(self)@.insert(
                chat_id,
                (ChatConfig {
                    chat_id: config_or_default(old(self)@, chat_id).chat_id,
                    autoreply_chance: chance,
                    sticker_lru_size: config_or_default(old(self)@, chat_id).sticker_lru_size,
                }),
            ),
    {
        if saved.is_ok() {
            let current = match self.cache.get(&chat_id) {
                Some(config) => *config,
                None => ChatConfig::new(chat_id),
            };
            self.cache.insert(
                chat_id,
                ChatConfig {
                    chat_id: current.chat_id,
                    autoreply_chance: chance,
                    sticker_lru_size: current.sticker_lru_size,
                },
            );
        }
        saved
    }
}

} // verus!
