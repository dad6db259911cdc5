//! Chat with a language model.

pub mod client;
pub mod templates;
