//! Between the Anthropic Messages API and OpenAI Chat Completions.
pub mod blocks;
pub mod laws;
pub mod meaning;
pub mod members;
pub mod messages;
pub mod refusals;
pub mod request;
pub mod response;
pub mod tokens;
