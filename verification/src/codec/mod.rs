//! Streaming decoders between Chat Completions and Messages.
pub mod chat;
pub mod chat_laws;
pub mod chat_meaning;
pub mod error;
pub mod framing;
pub mod framing_laws;
pub mod messages;
pub mod messages_laws;
pub mod messages_meaning;
pub mod refusals;
pub mod texts;
