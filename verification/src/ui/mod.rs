//! The terminal interface: what it shows and how it reacts.

pub mod app;
pub mod control_laws;
pub mod conversation_laws;
pub mod keys;
pub mod laws;
pub mod markdown;
pub mod markdown_laws;
pub mod model;
pub mod msg;
pub mod style;
pub mod view;
pub mod view_laws;
pub mod wrap;
