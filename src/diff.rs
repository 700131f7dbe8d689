//! Diff mode: the changes between two trees become records in a fixed order,
//! and each record's blob is shown line by line with a `+` or `-` prefix.
use vstd::prelude::*;
use vstd::utf8::{decode_utf8, valid_utf8};

use crate::output::OutputFormatter;
use crate::parser::utf8_string;
use crate::pattern::{regex_is_match, Pattern};
use crate::text::{byte_lines, push_str, split_byte_lines, string_of};

verus! {

/// One changed leaf path between two trees, with raw object ids.
pub enum TreeChange {
    Addition { path: Vec<u8>, entry_mode: u16, oid: Vec<u8> },
    Deletion { path: Vec<u8>, entry_mode: u16, oid: Vec<u8> },
    Modification {
        path: Vec<u8>,
        previous_entry_mode: u16,
        previous_oid: Vec<u8>,
        entry_mode: u16,
        oid: Vec<u8>,
    },
}

/// Where a diff record comes from.
#[derive(Debug, Clone, Copy, PartialEq, Eq, Structural)]
pub enum Origin {
    Addition,
    Deletion,
    ModificationOld,
    ModificationNew,
}

/// One blob to show in diff mode.
pub struct DiffRecord {
    pub path: String,
    pub oid: Vec<u8>,
    pub previous_oid: Option<Vec<u8>>,
    pub origin: Origin,
}

/// What a diff record holds, as values.
pub struct RecordView {
    pub path: Seq<char>,
    pub oid: Seq<u8>,
    pub previous_oid: Option<Seq<u8>>,
    pub origin: Origin,
}

impl View for DiffRecord {
    type V = RecordView;

    open spec fn view(&self) -> RecordView {
        RecordView {
            path: self.path@,
            oid: self.oid@,
            previous_oid: match self.previous_oid {
                Some(o) => Some(o@),
                None => None,
            },
            origin: self.origin,
        }
    }
}

/// The prefix of the lines of a record: `+` for the new side, `-` for the old.
pub open spec fn origin_prefix(o: Origin) -> char {
    match o {
        Origin::Addition | Origin::ModificationNew => '+',
        Origin::Deletion | Origin::ModificationOld => '-',
    }
}

/// The path of a change as text; `None` when its bytes are not UTF-8.
pub open spec fn path_text(b: Seq<u8>) -> Option<Seq<char>> {
    if valid_utf8(b) { Some(decode_utf8(b)) } else { None }
}

/// The path bytes of a change.
pub open spec fn change_path(c: TreeChange) -> Seq<u8> {
    match c {
        TreeChange::Addition { path, .. } => path@,
        TreeChange::Deletion { path, .. } => path@,
        TreeChange::Modification { path, .. } => path@,
    }
}

/// The records of one change whose path is `p`: one for an addition or a
/// deletion, the old side then the new side for a modification.
pub open spec fn records_of(c: TreeChange, p: Seq<char>) -> Seq<RecordView> {
    match c {
        TreeChange::Addition { oid, .. } => seq![
            RecordView { path: p, oid: oid@, previous_oid: None, origin: Origin::Addition },
        ],
        TreeChange::Deletion { oid, .. } => seq![
            RecordView { path: p, oid: oid@, previous_oid: None, origin: Origin::Deletion },
        ],
        TreeChange::Modification { previous_oid, oid, .. } => seq![
            RecordView { path: p, oid: previous_oid@, previous_oid: None, origin: Origin::ModificationOld },
            RecordView { path: p, oid: oid@, previous_oid: Some(previous_oid@), origin: Origin::ModificationNew },
        ],
    }
}

/// The records of one change under the formatter's filters: none when its
/// path is not UTF-8 or is filtered out.
pub open spec fn change_records(f: OutputFormatter, c: TreeChange) -> Seq<RecordView> {
    match path_text(change_path(c)) {
        Some(p) => if f.includes(p) { records_of(c, p) } else { seq![] },
        None => seq![],
    }
}

/// The records of the first `n` changes, in order.
pub open spec fn planned(f: OutputFormatter, changes: Seq<TreeChange>, n: int) -> Seq<RecordView>
    decreases n,
{
    if n <= 0 || n > changes.len() {
        seq![]
    } else {
        planned(f, changes, n - 1) + change_records(f, changes[n - 1])
    }
}

proof fn lemma_planned_prefix(f: OutputFormatter, changes: Seq<TreeChange>, n: int, m: int)
    requires
        0 <= n <= m <= changes.len(),
    ensures
        planned(f, changes, m).subrange(0, planned(f, changes, n).len() as int) == planned(f, changes, n),
        planned(f, changes, n).len() <= planned(f, changes, m).len(),
    decreases m - n,
{
    if n < m {
        lemma_planned_prefix(f, changes, n, m - 1);
        let a = planned(f, changes, m - 1);
        let b = planned(f, changes, m);
        assert(b == a + change_records(f, changes[m - 1]));
        assert(b.subrange(0, planned(f, changes, n).len() as int) =~= a.subrange(0, planned(f, changes, n).len() as int));
    }
}

/// For every modification whose path passes the filters, the record of its
/// old side comes right before the record of its new side, which names the
/// old object.
pub proof fn lemma_modification_old_before_new(f: OutputFormatter, changes: Seq<TreeChange>, k: int)
    requires
        0 <= k < changes.len(),
        changes[k] is Modification,
        path_text(change_path(changes[k])) is Some,
        f.includes(path_text(change_path(changes[k]))->0),
    ensures
        ({
            let r = planned(f, changes, changes.len() as int);
            let m = planned(f, changes, k).len() as int;
            &&& m + 1 < r.len()
            &&& r[m].origin == Origin::ModificationOld
            &&& r[m + 1].origin == Origin::ModificationNew
            &&& r[m].path == path_text(change_path(changes[k]))->0
            &&& r[m + 1].path == r[m].path
            &&& r[m + 1].previous_oid == Some(r[m].oid)
        }),
{
    lemma_planned_prefix(f, changes, k + 1, changes.len() as int);
    let a = planned(f, changes, k);
    let b = planned(f, changes, k + 1);
    let r = planned(f, changes, changes.len() as int);
    assert(b == a + change_records(f, changes[k]));
    assert(r[a.len() as int] == r.subrange(0, b.len() as int)[a.len() as int]);
    assert(r[a.len() as int + 1] == r.subrange(0, b.len() as int)[a.len() as int + 1]);
}

/// Every planned record names a path that passes the formatter's filters:
/// a change whose path is filtered out gives no record.
pub proof fn lemma_planned_paths_pass_filters(f: OutputFormatter, changes: Seq<TreeChange>, n: int)
    requires
        0 <= n <= changes.len(),
    ensures
        forall|i: int| 0 <= i < planned(f, changes, n).len() ==> f.includes(#[trigger] planned(f, changes, n)[i].path),
    decreases n,
{
    if n > 0 {
        lemma_planned_paths_pass_filters(f, changes, n - 1);
        let a = planned(f, changes, n - 1);
        let c = change_records(f, changes[n - 1]);
        assert(planned(f, changes, n) == a + c);
        assert forall|i: int| 0 <= i < (a + c).len() implies f.includes(#[trigger] (a + c)[i].path) by {
            if i >= a.len() {
                assert((a + c)[i] == c[i - a.len()]);
            } else {
                assert((a + c)[i] == a[i]);
            }
        }
    }
}

/// When the two trees have no change between them, no record is planned.
pub proof fn lemma_no_change_no_record(f: OutputFormatter, changes: Seq<TreeChange>)
    requires
        changes.len() == 0,
    ensures
        planned(f, changes, changes.len() as int).len() == 0,
{
}

/// Lowercase hexadecimal digit.
pub open spec fn hex_digit(d: nat) -> char {
    if d < 10 { crate::text::digit(d) }
    else if d == 10 { 'a' }
    else if d == 11 { 'b' }
    else if d == 12 { 'c' }
    else if d == 13 { 'd' }
    else if d == 14 { 'e' }
    else { 'f' }
}

/// Two lowercase hexadecimal digits per byte, high digit first.
pub open spec fn hex_text(b: Seq<u8>) -> Seq<char>
    decreases b.len(),
{
    if b.len() == 0 {
        seq![]
    } else {
        hex_text(b.drop_last()) + seq![hex_digit((b.last() / 16) as nat), hex_digit((b.last() % 16) as nat)]
    }
}

/// Relies on `hex::encode`: two lowercase digits per byte, high digit first.
#[verifier::external_body]
fn hex_encode(b: &[u8]) -> (r: String)
    ensures
        r@ == hex_text(b@),
{
    hex::encode(b)
}

/// How one line of a blob is shown: with the prefix when it is UTF-8 and the
/// pattern, if any, matches it; as hexadecimal when it is not UTF-8.
pub open spec fn blob_line(prefix: char, line: Seq<u8>, pattern: Option<Seq<char>>) -> Seq<char> {
    if valid_utf8(line) {
        if pattern matches Some(p) && !regex_is_match(p, decode_utf8(line)) {
            seq![]
        } else {
            seq![prefix] + decode_utf8(line) + "\n"@
        }
    } else {
        seq![prefix] + "[Non-UTF-8 data: "@ + hex_text(line) + "]\n"@
    }
}

/// The first `n` lines of a blob as shown.
pub open spec fn blob_lines_upto(prefix: char, lines: Seq<Seq<u8>>, pattern: Option<Seq<char>>, n: int) -> Seq<char>
    decreases n,
{
    if n <= 0 || n > lines.len() {
        seq![]
    } else {
        blob_lines_upto(prefix, lines, pattern, n - 1) + blob_line(prefix, lines[n - 1], pattern)
    }
}

/// A blob as shown: each of its lines in turn.
pub open spec fn blob_text(prefix: char, content: Seq<u8>, pattern: Option<Seq<char>>) -> Seq<char> {
    let lines = byte_lines(content);
    blob_lines_upto(prefix, lines, pattern, lines.len() as int)
}

/// The view of an optional pattern.
pub open spec fn pattern_view(p: Option<Pattern>) -> Option<Seq<char>> {
    match p {
        Some(q) => Some(q@),
        None => None,
    }
}

/// The section of one record: its object ids and the fenced diff of its blob.
pub open spec fn record_text(r: RecordView, content: Seq<u8>, pattern: Option<Seq<char>>) -> Seq<char> {
    "OID: "@ + hex_text(r.oid) + "\n"@ + (match r.previous_oid {
        Some(o) => "Previous OID: "@ + hex_text(o) + "\n"@,
        None => seq![],
    }) + "```diff\n"@ + blob_text(origin_prefix(r.origin), content, pattern) + "```\n\n"@
}

/// The revision name, or `HEAD` when none is given.
pub open spec fn revision_or_head_spec(r: Option<Seq<char>>) -> Seq<char> {
    match r {
        Some(s) => s,
        None => "HEAD"@,
    }
}

/// The revision name, or `HEAD` when none is given.
pub fn revision_or_head(r: &Option<String>) -> (s: String)
    ensures
        s@ == revision_or_head_spec(match r {
            Some(x) => Some(x@),
            None => None,
        }),
{
    match r {
        Some(x) => x.clone(),
        None => String::from_str("HEAD"),
    }
}

/// The revision text of the diff header: `<from> → <to>`, each side `HEAD`
/// when not given.
pub fn diff_revspec(from: &Option<String>, to: &Option<String>) -> (s: String)
    ensures
        s@ == revision_or_head_spec(match from {
            Some(x) => Some(x@),
            None => None,
        }) + " → "@ + revision_or_head_spec(match to {
            Some(x) => Some(x@),
            None => None,
        }),
{
    let a = revision_or_head(from);
    let b = revision_or_head(to);
    let mut out: Vec<char> = Vec::new();
    push_str(&mut out, a.as_str());
    push_str(&mut out, " → ");
    push_str(&mut out, b.as_str());
    string_of(&out)
}

/// Shows a blob line by line, each line with `prefix`: only the lines that
/// `pattern` matches when one is given, and lines that are not UTF-8 as hexadecimal.
pub fn print_file_content(content: &[u8], prefix: char, pattern: &Option<Pattern>) -> (r: String)
    ensures
        r@ == blob_text(prefix, content@, pattern_view(*pattern)),
{
    let lines = split_byte_lines(content);
    let ghost ls = lines@.map_values(|l: Vec<u8>| l@);
    let ghost pv = pattern_view(*pattern);
    let mut out: Vec<char> = Vec::new();
    let mut i: usize = 0;
    while i < lines.len()
        invariant
            i <= lines.len(),
            ls == lines@.map_values(|l: Vec<u8>| l@),
            ls == byte_lines(content@),
            pv == pattern_view(*pattern),
            out@ == blob_lines_upto(prefix, ls, pv, i as int),
        decreases lines.len() - i,
    {
        proof {
            assert(ls[i as int] == lines@[i as int]@);
        }
        let ghost before = out@;
        match utf8_string(lines[i].clone()) {
            Some(text) => {
                let shown = match pattern {
                    Some(p) => p.is_match(text.as_str()),
                    None => true,
                };
                if shown {
                    out.push(prefix);
                    push_str(&mut out, text.as_str());
                    push_str(&mut out, "\n");
                }
            },
            None => {
                out.push(prefix);
                push_str(&mut out, "[Non-UTF-8 data: ");
                let h = hex_encode(lines[i].as_slice());
                push_str(&mut out, h.as_str());
                push_str(&mut out, "]\n");
            },
        }
        proof {
            assert(out@ =~= before + blob_line(prefix, ls[i as int], pv));
        }
        i = i + 1;
    }
    string_of(&out)
}

impl OutputFormatter {
    /// The records to show for the changes, in order: each change whose path
    /// is UTF-8 and passes the filters gives one record, or two for a
    /// modification (the old side first).
    pub fn plan_diff(&self, changes: &Vec<TreeChange>) -> (r: Vec<DiffRecord>)
        ensures
            r@.map_values(|d: DiffRecord| d@) == planned(*self, changes@, changes@.len() as int),
    {
        let mut out: Vec<DiffRecord> = Vec::new();
        let mut k: usize = 0;
        while k < changes.len()
            invariant
                k <= changes.len(),
                out@.map_values(|d: DiffRecord| d@) == planned(*self, changes@, k as int),
            decreases changes.len() - k,
        {
            let ghost before = out@.map_values(|d: DiffRecord| d@);
            let c = &changes[k];
            let path_bytes = match c {
                TreeChange::Addition { path, .. } => path,
                TreeChange::Deletion { path, .. } => path,
                TreeChange::Modification { path, .. } => path,
            };
            match utf8_string(path_bytes.clone()) {
                Some(p) => {
                    if self.should_include_file(p.as_str()) {
                        match c {
                            TreeChange::Addition { oid, .. } => {
                                out.push(DiffRecord { path: p, oid: oid.clone(), previous_oid: None, origin: Origin::Addition });
                            },
                            TreeChange::Deletion { oid, .. } => {
                                out.push(DiffRecord { path: p, oid: oid.clone(), previous_oid: None, origin: Origin::Deletion });
                            },
                            TreeChange::Modification { previous_oid, oid, .. } => {
                                out.push(DiffRecord {
                                    path: p.clone(),
                                    oid: previous_oid.clone(),
                                    previous_oid: None,
                                    origin: Origin::ModificationOld,
                                });
                                out.push(DiffRecord {
                                    path: p,
                                    oid: oid.clone(),
                                    previous_oid: Some(previous_oid.clone()),
                                    origin: Origin::ModificationNew,
                                });
                            },
                        }
                    }
                },
                None => {},
            }
            proof {
                assert(out@.map_values(|d: DiffRecord| d@) =~= before + change_records(*self, changes@[k as int]));
            }
            k = k + 1;
        }
        out
    }

    /// The section of one record: `OID:`, `Previous OID:` for the new side of
    /// a modification, and the fenced diff of the blob's content.
    pub fn process_change(&self, record: &DiffRecord, content: &[u8], pattern: &Option<Pattern>) -> (r: String)
        ensures
            r@ == record_text(record@, content@, pattern_view(*pattern)),
    {
        let mut out: Vec<char> = Vec::new();
        push_str(&mut out, "OID: ");
        let h = hex_encode(record.oid.as_slice());
        push_str(&mut out, h.as_str());
        push_str(&mut out, "\n");
        match &record.previous_oid {
            Some(prev) => {
                push_str(&mut out, "Previous OID: ");
                let hp = hex_encode(prev.as_slice());
                push_str(&mut out, hp.as_str());
                push_str(&mut out, "\n");
            },
            None => {},
        }
        push_str(&mut out, "```diff\n");
        let prefix = match record.origin {
            Origin::Addition | Origin::ModificationNew => '+',
            Origin::Deletion | Origin::ModificationOld => '-',
        };
        let body = print_file_content(content, prefix, pattern);
        push_str(&mut out, body.as_str());
        push_str(&mut out, "```\n\n");
        proof {
            assert(out@ =~= record_text(record@, content@, pattern_view(*pattern)));
        }
        string_of(&out)
    }
}

} // verus!
