//! Textify: extract text from any region of the screen.

pub mod cli;
pub mod command_laws;
pub mod engine;
pub mod host;
pub mod image_laws;
pub mod json;
pub mod lang;
pub mod lang_laws;
pub mod laws;
pub mod options;
pub mod paths;
pub mod reading_laws;
pub mod temp_laws;
pub mod tempfile;
pub mod text;
pub mod text_laws;
pub mod tidy;
pub mod tool_laws;
pub mod tools;
pub mod trace;
pub mod unicode;
mod walk;
