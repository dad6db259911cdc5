//! Meeting recorder and transcriber: audio, transcription, sessions and the
//! terminal interface.

pub mod audio;
pub mod config;
pub mod disclaim;
pub mod headless;
pub mod json;
pub mod llm;
pub mod paths;
pub mod session;
pub mod settings;
pub mod stt;
pub mod text;
pub mod time;
pub mod ui;
