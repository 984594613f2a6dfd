pub mod ansi;
pub mod text;
pub mod width;
pub mod table;
pub mod messages;
pub mod state;
pub mod timefmt;
pub mod codex;
