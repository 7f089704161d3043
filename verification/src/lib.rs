//! Core library behind the `kdlfmt` formatter: configuration, the trivia
//! (comment and whitespace) rewriting rules, and the glue that drives the
//! `kdl` crate's parser, autoformatter and printer.

mod blank_lines;
mod config;
mod editorconfig;
mod error;
mod format;
mod high_level;
mod init;
mod kdl_bridge;
mod same;
mod text;
mod tree;
mod trivia;
mod version;

pub use blank_lines::remove_trailing_blank_lines_before_braces;
pub use config::{ArgValue, ConfigEntry, ConfigNode, KdlFmtConfig};
pub use editorconfig::{IndentSizeSetting, IndentStyleSetting};
pub use error::FmtError;
pub use format::{finish_output, format_kdl, line_and_column, parse_kdl};
pub use high_level::{format_check, format_document, FormatCheck};
pub use init::default_config_text;
pub use tree::{
    apply_formatting, rescue_entry_leading_comments, rescue_terminator_comments, DocTrivia,
    EntryTrivia, NodeTrivia, TriviaDoc, TriviaNode,
};
pub use trivia::{capitalize_first, TriviaProcessor};
pub use version::KdlVersion;

use vstd::prelude::*;

verus! {

/// Semver version string of this crate.
pub const VERSION: &'static str = "0.2.0";

} // verus!
