//! Presentation helper: decides which Markdown source and HTML output a
//! presentation uses, keeps the log of recently opened presentations, and plans
//! the files that a new presentation needs.
pub mod access_log;
pub mod config;
pub mod creation;
pub mod display;
pub mod finder;
pub mod path;
pub mod presentation;
pub mod project_type;
pub mod serve;
mod text;

pub use text::{append_str, chars_of, str_equal, string_of, string_of_range};
