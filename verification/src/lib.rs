//! Combat-log search queries, sound references and small display helpers.

pub mod text;
pub mod lexer;
pub mod parser;
pub mod sql;
pub mod sound_path;
pub mod audio;
pub mod initials;
pub mod sound_picker;
