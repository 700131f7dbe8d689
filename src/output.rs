//! The report formatter: header, per-file sections, summary, and the running
//! token total.
use vstd::prelude::*;

use crate::filter::{binary_path, excluded_by, extension_allowed, file_extension_matches, is_likely_binary, matches_any};
use crate::parser::{language_named, strip, CodeParser, SupportedLanguage};
use crate::pattern::Pattern;
use crate::text::{
    chars_of, decimal, joined, lines_of, lowercase_of, pad4, push_chars, push_decimal, push_joined,
    push_number4, push_repeat, push_str, split_lines, string_of, to_lower,
};

verus! {

#[verifier::external_type_specification]
#[verifier::external_body]
pub struct ExCoreBPE(tiktoken_rs::CoreBPE);

/// The number of tokens of the p50k byte-pair encoding in the text, special tokens included.
pub uninterp spec fn token_count(text: Seq<char>) -> nat;

/// Relies on `tiktoken_rs::p50k_base`: it takes no argument, parses the
/// encoding bundled in the crate and compiles a fixed pattern, so it succeeds.
#[verifier::external_body]
fn load_p50k() -> (r: Option<tiktoken_rs::CoreBPE>)
    ensures
        r is Some,
{
    tiktoken_rs::p50k_base().ok()
}

/// The longest run of white space that the token counter accepts, minus one.
pub const BLANK_RUN_LIMIT: usize = 100000;

/// Whether `c` has the Unicode `White_Space` property, which the regex class
/// `\s` matches.
pub open spec fn is_blank(c: char) -> bool {
    ('\u{9}' <= c && c <= '\u{d}') || c == ' ' || c == '\u{85}' || c == '\u{a0}' || c == '\u{1680}'
        || ('\u{2000}' <= c && c <= '\u{200a}') || c == '\u{2028}' || c == '\u{2029}' || c == '\u{202f}'
        || c == '\u{205f}' || c == '\u{3000}'
}

/// The length of the run of white space that ends just before index `n`.
pub open spec fn blank_run(text: Seq<char>, n: int) -> nat
    decreases n,
{
    if n <= 0 || n > text.len() {
        0
    } else if is_blank(text[n - 1]) {
        blank_run(text, n - 1) + 1
    } else {
        0
    }
}

/// Whether no run of white space in the text reaches `BLANK_RUN_LIMIT` characters.
pub open spec fn countable(text: Seq<char>) -> bool {
    forall|n: int| 0 <= n <= text.len() ==> #[trigger] blank_run(text, n) < BLANK_RUN_LIMIT
}

/// Relies on `tiktoken_rs::CoreBPE::encode_with_special_tokens`: the number of
/// tokens it returns depends on the text alone. It unwraps the matches of its
/// fancy-regex pattern, whose `\s+(?!\S)` branch pushes one backtracking
/// branch per white-space character onto a stack of at most one million; the
/// `requires` keeps every run of white space far below that.
#[verifier::external_body]
fn bpe_count(encoding: &tiktoken_rs::CoreBPE, text: &str) -> (r: usize)
    requires
        countable(text@),
    ensures
        r as nat == token_count(text@),
{
    encoding.encode_with_special_tokens(text).len()
}

fn blank_char(c: char) -> (r: bool)
    ensures
        r == is_blank(c),
{
    ('\u{9}' <= c && c <= '\u{d}') || c == ' ' || c == '\u{85}' || c == '\u{a0}' || c == '\u{1680}'
        || ('\u{2000}' <= c && c <= '\u{200a}') || c == '\u{2028}' || c == '\u{2029}' || c == '\u{202f}'
        || c == '\u{205f}' || c == '\u{3000}'
}

/// Whether the token counter accepts `text`: no run of white space in it
/// reaches `BLANK_RUN_LIMIT` characters.
pub fn countable_text(text: &str) -> (r: bool)
    ensures
        r == countable(text@),
{
    let cs = chars_of(text);
    let mut run: usize = 0;
    let mut i: usize = 0;
    while i < cs.len()
        invariant
            i <= cs@.len(),
            cs@ == text@,
            run as nat == blank_run(text@, i as int),
            forall|n: int| 0 <= n <= i ==> #[trigger] blank_run(text@, n) < BLANK_RUN_LIMIT,
        decreases cs@.len() - i,
    {
        if blank_char(cs[i]) {
            run = run + 1;
        } else {
            run = 0;
        }
        i = i + 1;
        if run >= BLANK_RUN_LIMIT {
            assert(!(blank_run(text@, i as int) < BLANK_RUN_LIMIT));
            return false;
        }
    }
    true
}

/// A banner of `n` equals signs.
pub open spec fn banner(n: nat) -> Seq<char> {
    Seq::new(n, |_i: int| '=')
}

/// The sum of the token counts of the sections emitted.
pub open spec fn sum(s: Seq<nat>) -> nat
    decreases s.len(),
{
    if s.len() == 0 { 0 } else { sum(s.drop_last()) + s.last() }
}

/// `n` capped at the largest `usize`.
pub open spec fn capped(n: nat) -> nat {
    if n > usize::MAX { usize::MAX as nat } else { n }
}

/// Whether a path passes the three filters: allowed extension (when a list is
/// set), no binary suffix, and no exclude pattern matching it.
pub open spec fn passes_filters(p: Seq<char>, exts: Option<Seq<Seq<char>>>, excludes: Option<Seq<Seq<char>>>) -> bool {
    &&& (exts matches Some(e) ==> extension_allowed(p, e))
    &&& !binary_path(p)
    &&& (excludes matches Some(x) ==> !excluded_by(p, x))
}

/// The report header.
pub open spec fn header_text(name: Seq<char>, revspec: Seq<char>) -> Seq<char> {
    banner(64) + "\n"@ + "Repository Snapshot: "@ + name + " @ "@ + revspec + "\n"@ + banner(64) + "\n"@
}

/// Share of a context window, rounded to the nearest whole percent (halves up).
pub open spec fn percent(total: nat, size: nat) -> nat
    recommends
        size > 0,
{
    (200 * total + size) / (2 * size)
}

/// How much of a context window of `size` tokens the total uses.
pub open spec fn usage_text(total: nat, size: nat) -> Seq<char> {
    decimal(percent(total, size)) + ".0% used ("@ + decimal(total) + "/"@ + decimal(size) + ")"@
}

/// One numbered body line.
pub open spec fn numbered_line(num: nat, line: Seq<char>) -> Seq<char> {
    pad4(decimal(num)) + "│ "@ + line + "\n"@
}

/// The first `n` lines, numbered from one.
pub open spec fn numbered(lines: Seq<Seq<char>>, n: int) -> Seq<char>
    decreases n,
{
    if n <= 0 || n > lines.len() {
        seq![]
    } else {
        numbered(lines, n - 1) + numbered_line(n as nat, lines[n - 1])
    }
}

/// The head of a per-file section.
pub open spec fn section_head(path: Seq<char>, tokens: nat) -> Seq<char> {
    "\n"@ + banner(80) + "\n"@ + "File: "@ + path + " (≈"@ + decimal(tokens) + " tokens)\n"@ + banner(80)
        + "\n"@
}

/// A per-file section: its head, then every line of the body numbered.
pub open spec fn section_text(path: Seq<char>, body: Seq<char>) -> Seq<char> {
    let lines = lines_of(body);
    section_head(path, token_count(body)) + numbered(lines, lines.len() as int)
}

/// The summary's closing lines on the filters, when they were set.
pub open spec fn filter_lines(exts: Option<Seq<Seq<char>>>, excludes: Option<Seq<Seq<char>>>) -> Seq<char> {
    (match exts {
        Some(e) => "File extensions: "@ + joined(e) + "\n"@,
        None => seq![],
    }) + (match excludes {
        Some(x) => "Exclude patterns: "@ + joined(x) + "\n"@,
        None => seq![],
    })
}

/// The report summary.
pub open spec fn summary_text(total: nat, exts: Option<Seq<Seq<char>>>, excludes: Option<Seq<Seq<char>>>) -> Seq<char> {
    "\nAnalysis Summary\n"@ + banner(64) + "\n"@ + "Total tokens processed: "@ + decimal(total) + "\n"@
        + "GPT-4 context window sizes for reference:\n"@ + "- 8K context: "@ + usage_text(total, 8192)
        + "\n"@ + "- 32K context: "@ + usage_text(total, 32768) + "\n"@ + filter_lines(exts, excludes)
}

/// Renders the report and keeps the running token total.
pub struct OutputFormatter {
    total_tokens: usize,
    encoding: tiktoken_rs::CoreBPE,
    extensions: Option<Vec<String>>,
    excludes: Option<Vec<Pattern>>,
    strip_comments: bool,
    sections: Ghost<Seq<nat>>,
}

impl OutputFormatter {
    /// The running token total.
    pub closed spec fn total(&self) -> nat {
        self.total_tokens as nat
    }

    /// The token counts of the sections emitted so far, in order.
    pub closed spec fn sections(&self) -> Seq<nat> {
        self.sections@
    }

    /// The allowed extensions, lowercased, when a list was set.
    pub closed spec fn extension_list(&self) -> Option<Seq<Seq<char>>> {
        match self.extensions {
            Some(v) => Some(v@.map_values(|e: String| e@)),
            None => None,
        }
    }

    /// The exclude patterns, when a list was set.
    pub closed spec fn exclude_list(&self) -> Option<Seq<Seq<char>>> {
        match self.excludes {
            Some(v) => Some(v@.map_values(|p: Pattern| p@)),
            None => None,
        }
    }

    /// Whether comments are removed before counting and printing.
    pub closed spec fn strips_comments(&self) -> bool {
        self.strip_comments
    }

    /// The running total is the sum of the sections' token counts, capped at
    /// the largest `usize`.
    pub closed spec fn wf(&self) -> bool {
        self.total_tokens as nat == capped(sum(self.sections@))
    }

    /// Whether a path passes the formatter's filters.
    pub open spec fn includes(&self, p: Seq<char>) -> bool {
        passes_filters(p, self.extension_list(), self.exclude_list())
    }

    /// The text that a section shows for `contents` at `path`: with comments
    /// removed when stripping is on and the extension names a language.
    pub open spec fn shown_text(&self, path: Seq<char>, contents: Seq<char>) -> Seq<char> {
        let lang = language_named(lowercase_of(crate::filter::extension_of(path)));
        if self.strips_comments() && lang is Some {
            strip(lang.unwrap(), contents)
        } else {
            contents
        }
    }

    /// The running total is the sum of the token counts of the sections
    /// emitted, unless that sum passes the largest `usize`.
    pub proof fn lemma_total_is_sum(&self)
        requires
            self.wf(),
        ensures
            self.total() == capped(sum(self.sections())),
            sum(self.sections()) <= usize::MAX ==> self.total() == sum(self.sections()),
    {
    }

    /// A formatter with no filters and comment stripping off.
    pub fn new() -> (r: OutputFormatter)
        ensures
            r.wf(),
            r.total() == 0,
            r.sections() == Seq::<nat>::empty(),
            r.extension_list() is None,
            r.exclude_list() is None,
            !r.strips_comments(),
    {
        match load_p50k() {
            Some(encoding) => OutputFormatter {
                total_tokens: 0,
                encoding,
                extensions: None,
                excludes: None,
                strip_comments: false,
                sections: Ghost(Seq::empty()),
            },
            None => vstd::pervasive::unreached(),
        }
    }

    /// Restricts the files to the given extensions, which are lowercased.
    pub fn with_extensions(self, extensions: Vec<String>) -> (r: OutputFormatter)
        requires
            self.wf(),
        ensures
            r.wf(),
            r.total() == self.total(),
            r.sections() == self.sections(),
            r.extension_list() == Some(extensions@.map_values(|e: String| lowercase_of(e@))),
            r.exclude_list() == self.exclude_list(),
            r.strips_comments() == self.strips_comments(),
    {
        let mut lowered: Vec<String> = Vec::new();
        let mut k: usize = 0;
        while k < extensions.len()
            invariant
                k <= extensions.len(),
                lowered@.map_values(|e: String| e@) == extensions@.take(k as int).map_values(
                    |e: String| lowercase_of(e@),
                ),
            decreases extensions.len() - k,
        {
            let l = to_lower(extensions[k].as_str());
            let ghost before = lowered@.map_values(|e: String| e@);
            lowered.push(l);
            k = k + 1;
            proof {
                assert(extensions@.take(k as int) =~= extensions@.take(k - 1).push(extensions@[k - 1]));
                assert(lowered@.map_values(|e: String| e@) =~= before.push(lowercase_of(extensions@[k - 1]@)));
                assert(lowered@.map_values(|e: String| e@) =~= extensions@.take(k as int).map_values(
                    |e: String| lowercase_of(e@),
                ));
            }
        }
        proof {
            assert(extensions@.take(extensions@.len() as int) =~= extensions@);
        }
        OutputFormatter { extensions: Some(lowered), ..self }
    }

    /// Excludes the paths that any of the patterns matches; `Err` with the
    /// first pattern that is not a valid regular expression.
    pub fn with_excludes(self, excludes: Vec<String>) -> (r: Result<OutputFormatter, String>)
        requires
            self.wf(),
        ensures
            r is Ok <==> forall|k: int| 0 <= k < excludes@.len() ==> crate::pattern::regex_accepts(
                #[trigger] excludes@[k]@),
            r matches Ok(f) ==> f.wf() && f.total() == self.total() && f.sections() == self.sections()
                && f.exclude_list() == Some(excludes@.map_values(|e: String| e@))
                && f.extension_list() == self.extension_list() && f.strips_comments()
                == self.strips_comments(),
            r matches Err(bad) ==> exists|k: int| 0 <= k < excludes@.len() && bad@ == excludes@[k]@
                && !crate::pattern::regex_accepts(#[trigger] excludes@[k]@),
    {
        let mut compiled: Vec<Pattern> = Vec::new();
        let mut k: usize = 0;
        while k < excludes.len()
            invariant
                k <= excludes.len(),
                compiled@.map_values(|p: Pattern| p@) == excludes@.take(k as int).map_values(|e: String| e@),
                forall|j: int| 0 <= j < k ==> crate::pattern::regex_accepts(#[trigger] excludes@[j]@),
            decreases excludes.len() - k,
        {
            match Pattern::new(excludes[k].as_str()) {
                Some(p) => {
                    let ghost before = compiled@.map_values(|p: Pattern| p@);
                    compiled.push(p);
                    k = k + 1;
                    proof {
                        assert(excludes@.take(k as int) =~= excludes@.take(k - 1).push(excludes@[k - 1]));
                        assert(compiled@.map_values(|p: Pattern| p@) =~= before.push(excludes@[k - 1]@));
                        assert(compiled@.map_values(|p: Pattern| p@) =~= excludes@.take(k as int).map_values(
                            |e: String| e@,
                        ));
                    }
                },
                None => {
                    return Err(excludes[k].clone());
                },
            }
        }
        proof {
            assert(excludes@.take(excludes@.len() as int) =~= excludes@);
        }
        Ok(OutputFormatter { excludes: Some(compiled), ..self })
    }

    /// Turns comment removal on or off.
    pub fn with_strip_comments(self, strip_comments: bool) -> (r: OutputFormatter)
        requires
            self.wf(),
        ensures
            r.wf(),
            r.total() == self.total(),
            r.sections() == self.sections(),
            r.extension_list() == self.extension_list(),
            r.exclude_list() == self.exclude_list(),
            r.strips_comments() == strip_comments,
    {
        OutputFormatter { strip_comments, ..self }
    }

    /// The running token total.
    pub fn total_tokens(&self) -> (r: usize)
        ensures
            r as nat == self.total(),
    {
        self.total_tokens
    }

    /// The number of tokens of `text`, which `countable_text` accepts.
    pub fn count_tokens(&self, text: &str) -> (r: usize)
        requires
            countable(text@),
        ensures
            r as nat == token_count(text@),
    {
        bpe_count(&self.encoding, text)
    }

    /// Whether `path` passes the extension, binary and exclude filters.
    pub fn should_include_file(&self, path: &str) -> (r: bool)
        ensures
            r == self.includes(path@),
    {
        match &self.extensions {
            Some(exts) => {
                if !file_extension_matches(path, exts) {
                    return false;
                }
            },
            None => {},
        }
        if is_likely_binary(path) {
            return false;
        }
        match &self.excludes {
            Some(patterns) => !matches_any(patterns, path),
            None => true,
        }
    }

    /// The header, naming the repository and the revision shown.
    pub fn print_header(&self, repo_name: &str, revspec: &str) -> (r: String)
        ensures
            r@ == header_text(repo_name@, revspec@),
    {
        let mut out: Vec<char> = Vec::new();
        push_repeat(&mut out, '=', 64);
        push_str(&mut out, "\n");
        push_str(&mut out, "Repository Snapshot: ");
        push_str(&mut out, repo_name);
        push_str(&mut out, " @ ");
        push_str(&mut out, revspec);
        push_str(&mut out, "\n");
        push_repeat(&mut out, '=', 64);
        push_str(&mut out, "\n");
        proof {
            assert(out@ =~= header_text(repo_name@, revspec@));
        }
        string_of(&out)
    }

    /// How much of a window of `context_size` tokens the total uses, for
    /// example `1.0% used (80/8192)`.
    pub fn format_token_usage(&self, context_size: usize) -> (r: String)
        requires
            context_size > 0,
        ensures
            r@ == usage_text(self.total(), context_size as nat),
    {
        let t = self.total_tokens as u128;
        let s = context_size as u128;
        assert(200 * t + s <= 200 * (u64::MAX as u128) + (u64::MAX as u128)) by (nonlinear_arith)
            requires t <= u64::MAX, s <= u64::MAX;
        let p = (200 * t + s) / (2 * s);
        assert(p <= 200 * t + s) by (nonlinear_arith)
            requires p == (200 * t + s) / (2 * s), s > 0;
        let mut out: Vec<char> = Vec::new();
        push_decimal(&mut out, p);
        push_str(&mut out, ".0% used (");
        push_decimal(&mut out, self.total_tokens as u128);
        push_str(&mut out, "/");
        push_decimal(&mut out, context_size as u128);
        push_str(&mut out, ")");
        proof {
            assert(out@ =~= usage_text(self.total(), context_size as nat));
        }
        string_of(&out)
    }

    /// The summary: the token total, its share of two context windows, and
    /// the filters when they were set.
    pub fn print_summary(&self) -> (r: String)
        ensures
            r@ == summary_text(self.total(), self.extension_list(), self.exclude_list()),
    {
        let mut out: Vec<char> = Vec::new();
        push_str(&mut out, "\nAnalysis Summary\n");
        push_repeat(&mut out, '=', 64);
        push_str(&mut out, "\n");
        push_str(&mut out, "Total tokens processed: ");
        push_decimal(&mut out, self.total_tokens as u128);
        push_str(&mut out, "\n");
        push_str(&mut out, "GPT-4 context window sizes for reference:\n");
        push_str(&mut out, "- 8K context: ");
        let u8k = self.format_token_usage(8192);
        push_str(&mut out, u8k.as_str());
        push_str(&mut out, "\n");
        push_str(&mut out, "- 32K context: ");
        let u32k = self.format_token_usage(32768);
        push_str(&mut out, u32k.as_str());
        push_str(&mut out, "\n");
        let ghost mid = out@;
        match &self.extensions {
            Some(exts) => {
                push_str(&mut out, "File extensions: ");
                push_joined(&mut out, exts);
                push_str(&mut out, "\n");
            },
            None => {},
        }
        let ghost mid2 = out@;
        match &self.excludes {
            Some(patterns) => {
                let mut names: Vec<String> = Vec::new();
                let mut k: usize = 0;
                while k < patterns.len()
                    invariant
                        k <= patterns.len(),
                        names@.map_values(|s: String| s@) == patterns@.take(k as int).map_values(|p: Pattern| p@),
                    decreases patterns.len() - k,
                {
                    let ghost before = names@.map_values(|s: String| s@);
                    names.push(String::from_str(patterns[k].as_str()));
                    k = k + 1;
                    proof {
                        assert(patterns@.take(k as int) =~= patterns@.take(k - 1).push(patterns@[k - 1]));
                        assert(names@.map_values(|s: String| s@) =~= before.push(patterns@[k - 1]@));
                        assert(names@.map_values(|s: String| s@) =~= patterns@.take(k as int).map_values(
                            |p: Pattern| p@,
                        ));
                    }
                }
                proof {
                    assert(patterns@.take(patterns@.len() as int) =~= patterns@);
                }
                push_str(&mut out, "Exclude patterns: ");
                push_joined(&mut out, &names);
                push_str(&mut out, "\n");
            },
            None => {},
        }
        proof {
            assert(out@ =~= summary_text(self.total(), self.extension_list(), self.exclude_list()));
        }
        string_of(&out)
    }

    /// Adds `tokens` to the total as one more emitted section.
    pub(crate) fn record_section(&mut self, tokens: usize)
        requires
            old(self).wf(),
        ensures
            final(self).wf(),
            final(self).sections() == old(self).sections().push(tokens as nat),
            final(self).extension_list() == old(self).extension_list(),
            final(self).exclude_list() == old(self).exclude_list(),
            final(self).strips_comments() == old(self).strips_comments(),
    {
        self.total_tokens = self.total_tokens.saturating_add(tokens);
        self.sections = Ghost(self.sections@.push(tokens as nat));
        proof {
            let s = self.sections@;
            assert(s.drop_last() =~= old(self).sections@);
        }
    }

    /// Emits a per-file section for `text` at `path`, whatever the filters
    /// say, and adds its token count to the total.
    pub fn print_section(&mut self, path: &str, text: &str) -> (r: String)
        requires
            old(self).wf(),
            countable(text@),
        ensures
            final(self).wf(),
            r@ == section_text(path@, text@),
            final(self).sections() == old(self).sections().push(token_count(text@)),
            final(self).extension_list() == old(self).extension_list(),
            final(self).exclude_list() == old(self).exclude_list(),
            final(self).strips_comments() == old(self).strips_comments(),
    {
        let tokens = self.count_tokens(text);
        self.record_section(tokens);
        let mut out: Vec<char> = Vec::new();
        push_str(&mut out, "\n");
        push_repeat(&mut out, '=', 80);
        push_str(&mut out, "\n");
        push_str(&mut out, "File: ");
        push_str(&mut out, path);
        push_str(&mut out, " (≈");
        push_decimal(&mut out, tokens as u128);
        push_str(&mut out, " tokens)\n");
        push_repeat(&mut out, '=', 80);
        push_str(&mut out, "\n");
        proof {
            assert(out@ =~= section_head(path@, token_count(text@)));
        }
        let chars = chars_of(text);
        let lines = split_lines(&chars);
        let ghost ls = lines@.map_values(|l: Vec<char>| l@);
        let mut i: usize = 0;
        while i < lines.len()
            invariant
                i <= lines.len(),
                ls == lines@.map_values(|l: Vec<char>| l@),
                ls == lines_of(text@),
                out@ == section_head(path@, token_count(text@)) + numbered(ls, i as int),
            decreases lines.len() - i,
        {
            push_number4(&mut out, (i + 1) as u128);
            push_str(&mut out, "│ ");
            push_chars(&mut out, &lines[i]);
            push_str(&mut out, "\n");
            proof {
                assert(ls[i as int] == lines@[i as int]@);
                assert(out@ =~= section_head(path@, token_count(text@)) + numbered(ls, i + 1));
            }
            i = i + 1;
        }
        string_of(&out)
    }

    /// The text a section shows for `contents` at `path`: the comments removed
    /// when stripping is on and the extension names a language; `contents`
    /// otherwise.
    pub fn shown_contents(&self, path: &str, contents: &str) -> (r: String)
        ensures
            r@ == self.shown_text(path@, contents@),
    {
        if !self.strip_comments {
            return String::from_str(contents);
        }
        let ext = crate::filter::path_extension(path);
        match SupportedLanguage::from_name(ext.as_str()) {
            Some(lang) => {
                let mut parser = CodeParser::new();
                let _ = parser.set_language(lang);
                parser.remove_comments(contents)
            },
            None => String::from_str(contents),
        }
    }

    /// Emits the section for a file when its path passes the filters and the
    /// token counter accepts the text shown, and adds its token count to the
    /// total; `None` otherwise.
    pub fn print_file_contents(&mut self, path: &str, contents: &str) -> (r: Option<String>)
        requires
            old(self).wf(),
        ensures
            final(self).wf(),
            final(self).extension_list() == old(self).extension_list(),
            final(self).exclude_list() == old(self).exclude_list(),
            final(self).strips_comments() == old(self).strips_comments(),
            ({
                let shown = old(self).shown_text(path@, contents@);
                if old(self).includes(path@) && countable(shown) {
                    &&& r matches Some(t) && t@ == section_text(path@, shown)
                    &&& final(self).sections() == old(self).sections().push(token_count(shown))
                } else {
                    r is None && final(self).sections() == old(self).sections()
                }
            }),
    {
        if !self.should_include_file(path) {
            return None;
        }
        let shown = self.shown_contents(path, contents);
        if !countable_text(shown.as_str()) {
            return None;
        }
        let t = self.print_section(path, shown.as_str());
        Some(t)
    }

    /// The output for one file that the walk found: nothing when the path is
    /// filtered out or the file is empty; the match report when a pattern is
    /// set; the file's section otherwise.
    pub fn print_walked_file(&mut self, path: &str, contents: &str, pattern: &Option<Pattern>, context_lines: usize) -> (r: String)
        requires
            old(self).wf(),
        ensures
            final(self).wf(),
            final(self).extension_list() == old(self).extension_list(),
            final(self).exclude_list() == old(self).exclude_list(),
            final(self).strips_comments() == old(self).strips_comments(),
            !old(self).includes(path@) || contents@.len() == 0 ==> r@.len() == 0 && final(self).sections()
                == old(self).sections(),
            old(self).includes(path@) && contents@.len() > 0 && pattern is Some ==> r@
                == crate::context::context_report(path@, contents@, pattern->0@, context_lines as int)
                && final(self).sections() == old(self).sections() + crate::context::match_counts_upto(
                lines_of(contents@),
                pattern->0@,
                context_lines as int,
                lines_of(contents@).len() as int,
            ),
            old(self).includes(path@) && contents@.len() > 0 && pattern is None ==> ({
                let shown = old(self).shown_text(path@, contents@);
                if countable(shown) {
                    &&& r@ == section_text(path@, shown)
                    &&& final(self).sections() == old(self).sections().push(token_count(shown))
                } else {
                    r@.len() == 0 && final(self).sections() == old(self).sections()
                }
            }),
    {
        if !self.should_include_file(path) || contents.is_empty() {
            return String::new();
        }
        match pattern {
            Some(p) => self.print_file_contents_with_context(path, contents, p, context_lines),
            None => match self.print_file_contents(path, contents) {
                Some(t) => t,
                None => String::new(),
            },
        }
    }
}

impl Default for OutputFormatter {
    fn default() -> (r: OutputFormatter)
        ensures
            r.wf(),
            r.total() == 0,
            r.sections() == Seq::<nat>::empty(),
            r.extension_list() is None,
            r.exclude_list() is None,
            !r.strips_comments(),
    {
        OutputFormatter::new()
    }
}

} // verus!
