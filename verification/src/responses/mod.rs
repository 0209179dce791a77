//! Between the OpenAI Responses API and Chat Completions.
pub mod input;
pub mod laws;
pub mod members;
pub mod request;
pub mod response;
