//! Per-user spam classification for a chat stream: a token-repetition
//! classifier, a similarity window over each user's recent messages, a strike
//! ledger with escalating timeouts, and the engine that turns one message
//! event into moderation actions.

pub mod engine;
pub mod record;
pub mod ring;
pub mod similarity;
pub mod tokens;
