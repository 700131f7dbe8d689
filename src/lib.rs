//! A library that renders a repository snapshot for reading by people and
//! language models: filters, comment stripping, a directory tree, numbered
//! file sections, match reports, diff sections and a token summary.
use vstd::prelude::*;

pub mod args;
pub mod context;
pub mod diff;
pub mod filter;
pub mod output;
pub mod parser;
pub mod spans;
pub mod pattern;
pub mod text;
pub mod tree;

pub use args::{configure, Args, ConfigError};
pub use diff::{print_file_content, DiffRecord, Origin, TreeChange};
pub use filter::{file_extension_matches, is_likely_binary};
pub use output::OutputFormatter;
pub use parser::{CodeParser, SupportedLanguage};
pub use pattern::Pattern;

verus! {

} // verus!
