pub mod text;
pub mod score;
pub mod fuzzy;
pub mod commands;
pub mod memory;
pub mod dispatcher;
pub mod voice;
pub mod tts;
pub mod ai;
pub mod auto;
pub mod laws;
