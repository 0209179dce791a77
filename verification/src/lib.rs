//! Bridges between the Messages, Responses and Chat Completions protocols, with proofs.
pub mod anthropic;
pub mod chat;
pub mod codec;
pub mod folds;
pub mod fresh;
pub mod headers;
pub mod json;
pub mod json_laws;
pub mod names;
pub mod responses;
pub mod text;
pub mod thinking;

pub use crate::anthropic::request::anthropic_to_openai;
pub use crate::anthropic::response::openai_to_anthropic;
pub use crate::anthropic::tokens::estimate_anthropic_input_tokens;
pub use crate::headers::{extract_api_key, is_anthropic_request};
pub use crate::responses::request::{is_responses_request, responses_to_openai};
pub use crate::responses::response::openai_to_responses;
