//! The rule-matching and recency-cache engine of a chat responder.
//!
//! Every function here carries a contract that is checked statically; the
//! transport, storage and scheduling around it live outside this library.

pub mod argument_parser;
pub mod autoreply_map;
pub mod autoreplies;
pub mod chance;
pub mod chat_config;
pub mod clock;
pub mod google;
pub mod groups;
pub mod handlers;
pub mod hs;
pub mod matching;
pub mod pattern;
pub mod recency;
pub mod reply_gate;
pub mod scheduler;
pub mod stickers;
pub mod subscriptions;
pub mod telegram_utils;
pub mod text;

