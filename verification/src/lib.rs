//! A chat-response bot engine: it learns sentences from observed chat lines,
//! maintains a word index over them, and decides, per incoming line, whether
//! to learn it and whether (and with what) to reply, gated by a layered
//! behavior policy.

pub mod borg;
pub mod config;
pub mod dictionary;
pub mod pattern;
pub mod text;
