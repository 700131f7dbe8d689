//! Match reports: for each line that a pattern matches, a numbered window of
//! the lines around it and the groups it captured.
use vstd::prelude::*;

use crate::output::{countable, countable_text, section_head, token_count, OutputFormatter};
use crate::pattern::{regex_captures, regex_is_match, Pattern};
use crate::text::{chars_of, decimal, lines_of, pad4, push_chars, push_decimal, push_number4, push_str, split_lines, string_of};

verus! {

/// First line of the window around line `i`.
pub open spec fn window_start(i: int, context: int) -> int {
    if i >= context { i - context } else { 0 }
}

/// One past the last line of the window around line `i`, within `n` lines.
pub open spec fn window_end(i: int, context: int, n: int) -> int {
    if i + context + 1 < n { i + context + 1 } else { n }
}

/// Line `j` of the window around the match on line `i`, numbered from one.
pub open spec fn window_line(lines: Seq<Seq<char>>, j: int, i: int) -> Seq<char> {
    pad4(decimal((j + 1) as nat)) + (if j == i { "│ > "@ } else { "│   "@ }) + lines[j] + "\n"@
}

/// Lines `from..to` of the window around line `i`.
pub open spec fn window_upto(lines: Seq<Seq<char>>, i: int, from: int, to: int) -> Seq<char>
    decreases to - from,
{
    if to <= from {
        seq![]
    } else {
        window_upto(lines, i, from, to - 1) + window_line(lines, to - 1, i)
    }
}

/// The window of `context` lines on each side of line `i`, clamped to the text.
pub open spec fn window_text(lines: Seq<Seq<char>>, i: int, context: int) -> Seq<char> {
    window_upto(lines, i, window_start(i, context), window_end(i, context, lines.len() as int))
}

/// The report lines of the capture groups `1..k` that took part in the match.
pub open spec fn group_lines(groups: Seq<Option<Seq<char>>>, k: int) -> Seq<char>
    decreases k,
{
    if k <= 1 || k > groups.len() {
        seq![]
    } else {
        group_lines(groups, k - 1) + match groups[k - 1] {
            Some(t) => "  Group "@ + decimal((k - 1) as nat) + ": "@ + t + "\n"@,
            None => seq![],
        }
    }
}

/// The report of the match on line `i`: a section holding its window, then
/// the captured groups and a blank line.
pub open spec fn match_block(path: Seq<char>, lines: Seq<Seq<char>>, pattern: Seq<char>, i: int, context: int) -> Seq<char> {
    let w = window_text(lines, i, context);
    let groups = regex_captures(pattern, lines[i]);
    section_head(path, token_count(w)) + w + "Captured:\n"@ + group_lines(groups, groups.len() as int) + "\n"@
}

/// Whether line `i` matches and the token counter accepts its window.
pub open spec fn reported(lines: Seq<Seq<char>>, pattern: Seq<char>, i: int, context: int) -> bool {
    regex_is_match(pattern, lines[i]) && countable(window_text(lines, i, context))
}

/// The reports of the matches among the first `n` lines.
pub open spec fn matches_upto(path: Seq<char>, lines: Seq<Seq<char>>, pattern: Seq<char>, context: int, n: int) -> Seq<char>
    decreases n,
{
    if n <= 0 || n > lines.len() {
        seq![]
    } else {
        matches_upto(path, lines, pattern, context, n - 1) + if reported(lines, pattern, n - 1, context) {
            match_block(path, lines, pattern, n - 1, context)
        } else {
            seq![]
        }
    }
}

/// The token counts of the windows of the matches among the first `n` lines.
pub open spec fn match_counts_upto(lines: Seq<Seq<char>>, pattern: Seq<char>, context: int, n: int) -> Seq<nat>
    decreases n,
{
    if n <= 0 || n > lines.len() {
        seq![]
    } else if reported(lines, pattern, n - 1, context) {
        match_counts_upto(lines, pattern, context, n - 1).push(token_count(window_text(lines, n - 1, context)))
    } else {
        match_counts_upto(lines, pattern, context, n - 1)
    }
}

/// Whether the pattern matches one of the lines.
pub open spec fn any_match(lines: Seq<Seq<char>>, pattern: Seq<char>) -> bool {
    exists|i: int| 0 <= i < lines.len() && #[trigger] regex_is_match(pattern, lines[i])
}

/// The match report of a whole text: a report for each matching line whose
/// window the token counter accepts, and a note when no line matches.
pub open spec fn context_report(path: Seq<char>, contents: Seq<char>, pattern: Seq<char>, context: int) -> Seq<char> {
    let lines = lines_of(contents);
    matches_upto(path, lines, pattern, context, lines.len() as int) + if any_match(lines, pattern) {
        seq![]
    } else {
        "No matches found in this file.\n\n"@
    }
}

/// Renders the window of `context` lines around line `i`.
pub fn context_window(lines: &Vec<Vec<char>>, i: usize, context: usize) -> (r: Vec<char>)
    requires
        i < lines@.len(),
    ensures
        r@ == window_text(lines@.map_values(|l: Vec<char>| l@), i as int, context as int),
{
    let ghost ls = lines@.map_values(|l: Vec<char>| l@);
    let n = lines.len();
    let start = if i >= context { i - context } else { 0 };
    let end = if context < n - i - 1 { i + context + 1 } else { n };
    let mut out: Vec<char> = Vec::new();
    let mut j: usize = start;
    while j < end
        invariant
            start <= j <= end,
            end <= n,
            n == lines@.len(),
            i < n,
            ls == lines@.map_values(|l: Vec<char>| l@),
            out@ == window_upto(ls, i as int, start as int, j as int),
        decreases end - j,
    {
        push_number4(&mut out, (j + 1) as u128);
        if j == i {
            push_str(&mut out, "│ > ");
        } else {
            push_str(&mut out, "│   ");
        }
        push_chars(&mut out, &lines[j]);
        push_str(&mut out, "\n");
        proof {
            assert(ls[j as int] == lines@[j as int]@);
            assert(out@ =~= window_upto(ls, i as int, start as int, j + 1));
        }
        j = j + 1;
    }
    out
}

/// Renders the report lines of the capture groups, skipping group 0 and the
/// groups that took no part in the match.
pub fn captured_groups(groups: &Vec<Option<String>>) -> (r: Vec<char>)
    ensures
        r@ == group_lines(
            groups@.map_values(|g: Option<String>| match g {
                Some(s) => Some(s@),
                None => None,
            }),
            groups@.len() as int,
        ),
{
    let ghost gs = groups@.map_values(|g: Option<String>| match g {
        Some(s) => Some(s@),
        None => None,
    });
    let mut out: Vec<char> = Vec::new();
    let mut k: usize = 1;
    while k < groups.len()
        invariant
            1 <= k,
            k <= groups.len() || groups.len() == 0,
            gs == groups@.map_values(|g: Option<String>| match g {
                Some(s) => Some(s@),
                None => None,
            }),
            out@ == group_lines(gs, k as int),
        decreases groups.len() - k,
    {
        match &groups[k] {
            Some(t) => {
                push_str(&mut out, "  Group ");
                push_decimal(&mut out, k as u128);
                push_str(&mut out, ": ");
                push_str(&mut out, t.as_str());
                push_str(&mut out, "\n");
            },
            None => {},
        }
        proof {
            assert(gs[k as int] == match groups@[k as int] {
                Some(s) => Some(s@),
                None => None::<Seq<char>>,
            });
            assert(out@ =~= group_lines(gs, k + 1));
        }
        k = k + 1;
    }
    out
}

impl OutputFormatter {
    /// The match report of `contents`: for each line that `pattern` matches, a
    /// section with the numbered window of `context_lines` lines on each side
    /// (the match marked `>`), then the captured groups; a note when nothing matches.
    pub fn print_file_contents_with_context(&mut self, path: &str, contents: &str, pattern: &Pattern, context_lines: usize) -> (r: String)
        requires
            old(self).wf(),
        ensures
            final(self).wf(),
            r@ == context_report(path@, contents@, pattern@, context_lines as int),
            final(self).sections() == old(self).sections() + match_counts_upto(
                lines_of(contents@),
                pattern@,
                context_lines as int,
                lines_of(contents@).len() as int,
            ),
            final(self).extension_list() == old(self).extension_list(),
            final(self).exclude_list() == old(self).exclude_list(),
            final(self).strips_comments() == old(self).strips_comments(),
    {
        let chars = chars_of(contents);
        let lines = split_lines(&chars);
        let ghost ls = lines@.map_values(|l: Vec<char>| l@);
        let mut out: Vec<char> = Vec::new();
        let mut found = false;
        let mut i: usize = 0;
        while i < lines.len()
            invariant
                i <= lines.len(),
                self.wf(),
                ls == lines@.map_values(|l: Vec<char>| l@),
                ls == lines_of(contents@),
                out@ == matches_upto(path@, ls, pattern@, context_lines as int, i as int),
                self.sections() == old(self).sections() + match_counts_upto(ls, pattern@, context_lines as int, i as int),
                found == exists|j: int| 0 <= j < i && #[trigger] regex_is_match(pattern@, ls[j]),
                self.extension_list() == old(self).extension_list(),
                self.exclude_list() == old(self).exclude_list(),
                self.strips_comments() == old(self).strips_comments(),
            decreases lines.len() - i,
        {
            let line = string_of(&lines[i]);
            proof {
                assert(ls[i as int] == lines@[i as int]@);
            }
            let ghost before = self.sections();
            match pattern.captures(line.as_str()) {
                Some(groups) => {
                    found = true;
                    let window = context_window(&lines, i, context_lines);
                    let wtext = string_of(&window);
                    if !countable_text(wtext.as_str()) {
                        proof {
                            assert(!reported(ls, pattern@, i as int, context_lines as int));
                            assert(out@ =~= matches_upto(path@, ls, pattern@, context_lines as int, i + 1));
                            assert(self.sections() =~= old(self).sections() + match_counts_upto(ls, pattern@,
                                context_lines as int, i + 1));
                        }
                        i = i + 1;
                        continue;
                    }
                    let tokens = self.count_tokens(wtext.as_str());
                    self.record_section(tokens);
                    let mut block: Vec<char> = Vec::new();
                    push_str(&mut block, "\n");
                    crate::text::push_repeat(&mut block, '=', 80);
                    push_str(&mut block, "\n");
                    push_str(&mut block, "File: ");
                    push_str(&mut block, path);
                    push_str(&mut block, " (≈");
                    push_decimal(&mut block, tokens as u128);
                    push_str(&mut block, " tokens)\n");
                    crate::text::push_repeat(&mut block, '=', 80);
                    push_str(&mut block, "\n");
                    push_chars(&mut block, &window);
                    push_str(&mut block, "Captured:\n");
                    let caps = captured_groups(&groups);
                    push_chars(&mut block, &caps);
                    push_str(&mut block, "\n");
                    proof {
                        assert(block@ =~= match_block(path@, ls, pattern@, i as int, context_lines as int));
                    }
                    push_chars(&mut out, &block);
                    proof {
                        assert(self.sections() =~= old(self).sections() + match_counts_upto(ls, pattern@,
                            context_lines as int, i + 1));
                    }
                },
                None => {
                    proof {
                        assert(!regex_is_match(pattern@, ls[i as int]));
                    }
                },
            }
            proof {
                assert(out@ =~= matches_upto(path@, ls, pattern@, context_lines as int, i + 1));
            }
            i = i + 1;
        }
        if !found {
            push_str(&mut out, "No matches found in this file.\n\n");
        }
        proof {
            assert(out@ =~= context_report(path@, contents@, pattern@, context_lines as int));
        }
        string_of(&out)
    }
}

} // verus!
