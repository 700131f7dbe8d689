//! The run's configuration as plain values, and the formatter and pattern
//! built from it.
use vstd::prelude::*;

use crate::output::OutputFormatter;
use crate::pattern::{regex_accepts, Pattern};
use crate::text::lowercase_of;

verus! {

/// The options of one run.
pub struct Args {
    /// Root of the repository.
    pub path: String,
    /// Pattern whose matches are reported with their context.
    pub pattern: Option<String>,
    /// Extensions that files must have.
    pub extensions: Option<Vec<String>>,
    /// Lines of context around each match.
    pub context_lines: usize,
    /// Revision to diff from.
    pub git_from: Option<String>,
    /// Revision to diff to.
    pub git_to: Option<String>,
    /// Patterns of paths to leave out.
    pub excludes: Option<Vec<String>>,
    /// Whether comments are removed.
    pub strip_comments: bool,
}

/// Why a run cannot start.
pub enum ConfigError {
    /// An exclude pattern is not a valid regular expression.
    InvalidExclude(String),
    /// The match pattern is not a valid regular expression.
    InvalidPattern(String),
}

impl ConfigError {
    /// The message shown for the error, naming the offending pattern.
    pub fn message(&self) -> (r: String)
        ensures
            r@ == match self {
                ConfigError::InvalidExclude(p) => "invalid exclude pattern: "@ + p@,
                ConfigError::InvalidPattern(p) => "invalid pattern: "@ + p@,
            },
    {
        let mut out: Vec<char> = Vec::new();
        match self {
            ConfigError::InvalidExclude(p) => {
                crate::text::push_str(&mut out, "invalid exclude pattern: ");
                crate::text::push_str(&mut out, p.as_str());
            },
            ConfigError::InvalidPattern(p) => {
                crate::text::push_str(&mut out, "invalid pattern: ");
                crate::text::push_str(&mut out, p.as_str());
            },
        }
        crate::text::string_of(&out)
    }
}

/// Whether every pattern of the list is accepted.
pub open spec fn all_accepted(v: Seq<String>) -> bool {
    forall|k: int| 0 <= k < v.len() ==> regex_accepts(#[trigger] v[k]@)
}

/// Whether the exclude list, when given, holds only valid patterns.
pub open spec fn excludes_valid(args: Args) -> bool {
    args.excludes matches Some(v) ==> all_accepted(v@)
}

/// Whether the match pattern, when given, is valid.
pub open spec fn pattern_valid(args: Args) -> bool {
    args.pattern matches Some(s) ==> regex_accepts(s@)
}

impl Args {
    /// Whether the run shows the changes between two revisions.
    pub fn diff_mode(&self) -> (r: bool)
        ensures
            r == (self.git_from is Some || self.git_to is Some),
    {
        self.git_from.is_some() || self.git_to.is_some()
    }
}

/// Builds the formatter and the match pattern of a run. It succeeds exactly
/// when the exclude patterns and the match pattern are valid regular
/// expressions; otherwise the error names the first invalid exclude pattern,
/// or else the match pattern.
pub fn configure(args: &Args) -> (r: Result<(OutputFormatter, Option<Pattern>), ConfigError>)
    ensures
        r is Ok <==> excludes_valid(*args) && pattern_valid(*args),
        r matches Ok((f, p)) ==> {
            &&& f.wf()
            &&& f.total() == 0
            &&& f.sections().len() == 0
            &&& f.strips_comments() == args.strip_comments
            &&& f.extension_list() == match args.extensions {
                Some(v) => Some(v@.map_values(|e: String| lowercase_of(e@))),
                None => None,
            }
            &&& f.exclude_list() == match args.excludes {
                Some(v) => Some(v@.map_values(|e: String| e@)),
                None => None,
            }
            &&& p matches Some(q) ==> args.pattern matches Some(s) && q@ == s@
            &&& p is None ==> args.pattern is None
        },
        r matches Err(ConfigError::InvalidExclude(bad)) ==> (args.excludes matches Some(v) && !all_accepted(v@)
            && exists|k: int| 0 <= k < v@.len() && bad@ == v@[k]@ && !regex_accepts(#[trigger] v@[k]@)),
        r matches Err(ConfigError::InvalidPattern(bad)) ==> (args.pattern matches Some(s) && bad@ == s@ && !regex_accepts(s@)
            && excludes_valid(*args)),
{
    let f = OutputFormatter::new();
    let mut f = f.with_strip_comments(args.strip_comments);
    match &args.extensions {
        Some(v) => {
            f = f.with_extensions(v.clone());
        },
        None => {},
    }
    match &args.excludes {
        Some(v) => {
            match f.with_excludes(v.clone()) {
                Ok(g) => {
                    f = g;
                },
                Err(bad) => return Err(ConfigError::InvalidExclude(bad)),
            }
        },
        None => {},
    }
    let p = match &args.pattern {
        Some(s) => match Pattern::new(s.as_str()) {
            Some(q) => Some(q),
            None => return Err(ConfigError::InvalidPattern(s.clone())),
        },
        None => None,
    };
    Ok((f, p))
}

} // verus!
