//! Inclusion predicates on paths: extension, binary suffix and exclude patterns.
use vstd::prelude::*;

use crate::pattern::Pattern;
use crate::text::{chars_of, lowercase_of, to_lower};

verus! {

/// The index of the last `c` in `s[..i]`, or -1 when there is none.
pub open spec fn last_index(s: Seq<char>, c: char, i: int) -> int
    decreases i,
{
    if i <= 0 {
        -1
    } else if s[i - 1] == c {
        i - 1
    } else {
        last_index(s, c, i - 1)
    }
}

/// The last component of a `/`-separated path.
pub open spec fn file_name_of(p: Seq<char>) -> Seq<char> {
    p.skip(last_index(p, '/', p.len() as int) + 1)
}

/// The extension of a path: what follows the last `.` of its file name, where
/// that dot is not the name's first character; empty otherwise.
pub open spec fn extension_of(p: Seq<char>) -> Seq<char> {
    let name = file_name_of(p);
    let d = last_index(name, '.', name.len() as int);
    if d > 0 {
        name.skip(d + 1)
    } else {
        seq![]
    }
}

/// The suffixes that mark a file as binary.
pub open spec fn binary_suffixes() -> Seq<Seq<char>> {
    seq![
        "jpg"@, "jpeg"@, "png"@, "gif"@, "bmp"@, "tiff"@, "pdf"@, "doc"@, "docx"@, "xls"@,
        "xlsx"@, "ppt"@, "pptx"@, "zip"@, "tar"@, "gz"@, "7z"@, "rar"@, "exe"@, "dll"@,
        "so"@, "dylib"@, "mp3"@, "mp4"@, "avi"@, "mov"@, "flv"@, "db"@, "sqlite"@,
    ]
}

/// Whether the lowercased extension `e` is one of the binary suffixes.
pub open spec fn is_binary_suffix(e: Seq<char>) -> bool {
    binary_suffixes().contains(e)
}

/// Whether the path passes an allowed-extension list: its extension is not
/// empty and equals one of the list's entries, ignoring case.
pub open spec fn extension_allowed(p: Seq<char>, exts: Seq<Seq<char>>) -> bool {
    extension_of(p).len() > 0 && exists|k: int|
        0 <= k < exts.len() && #[trigger] lowercase_of(exts[k]) == lowercase_of(extension_of(p))
}

/// Whether the path counts as binary by its suffix.
pub open spec fn binary_path(p: Seq<char>) -> bool {
    is_binary_suffix(lowercase_of(extension_of(p)))
}

/// Whether one of the exclude patterns matches the path.
pub open spec fn excluded_by(p: Seq<char>, excludes: Seq<Seq<char>>) -> bool {
    exists|k: int| 0 <= k < excludes.len() && #[trigger] crate::pattern::regex_is_match(excludes[k], p)
}

proof fn lemma_last_index_range(s: Seq<char>, c: char, i: int)
    requires
        i <= s.len(),
    ensures
        -1 <= last_index(s, c, i) < i || (i <= 0 && last_index(s, c, i) == -1),
    decreases i,
{
    if i > 0 && s[i - 1] != c {
        lemma_last_index_range(s, c, i - 1);
    }
}

/// One past the index of the last `c` in `s`, or 0 when there is none.
fn find_last(s: &Vec<char>, c: char) -> (r: usize)
    ensures
        r as int == last_index(s@, c, s@.len() as int) + 1,
        r <= s@.len(),
{
    proof {
        lemma_last_index_range(s@, c, s@.len() as int);
    }
    let mut i: usize = s.len();
    while i > 0
        invariant
            i <= s.len(),
            last_index(s@, c, s@.len() as int) == last_index(s@, c, i as int),
        decreases i,
    {
        if s[i - 1] == c {
            return i;
        }
        i = i - 1;
    }
    0
}

fn tail(s: &Vec<char>, from: usize) -> (r: Vec<char>)
    requires
        from <= s@.len(),
    ensures
        r@ == s@.skip(from as int),
{
    let mut out: Vec<char> = Vec::new();
    let mut i: usize = from;
    while i < s.len()
        invariant
            from <= i <= s.len(),
            out@ == s@.subrange(from as int, i as int),
        decreases s.len() - i,
    {
        out.push(s[i]);
        i = i + 1;
        proof {
            assert(out@ =~= s@.subrange(from as int, i as int));
        }
    }
    proof {
        assert(out@ =~= s@.skip(from as int));
    }
    out
}

/// Computes the extension of `path` as `extension_of` defines it.
pub fn path_extension(path: &str) -> (r: String)
    ensures
        r@ == extension_of(path@),
{
    let p = chars_of(path);
    let slash = find_last(&p, '/');
    let name = tail(&p, slash);
    let dot = find_last(&name, '.');
    if dot > 1 {
        let e = tail(&name, dot);
        crate::text::string_of(&e)
    } else {
        String::new()
    }
}

/// Whether the extension of `path` is in `extensions`, compared without
/// regard to case; a path without extension matches nothing.
pub fn file_extension_matches(path: &str, extensions: &Vec<String>) -> (r: bool)
    ensures
        r == extension_allowed(path@, extensions@.map_values(|e: String| e@)),
{
    let ghost exts = extensions@.map_values(|e: String| e@);
    let ext = path_extension(path);
    if ext.as_str().is_empty() {
        return false;
    }
    let lowered = to_lower(ext.as_str());
    let mut k: usize = 0;
    while k < extensions.len()
        invariant
            k <= extensions.len(),
            exts == extensions@.map_values(|e: String| e@),
            lowered@ == lowercase_of(extension_of(path@)),
            extension_of(path@).len() > 0,
            forall|j: int| 0 <= j < k ==> #[trigger] lowercase_of(exts[j]) != lowered@,
        decreases extensions.len() - k,
    {
        let cand = to_lower(extensions[k].as_str());
        assert(exts[k as int] == extensions@[k as int]@);
        if cand.eq(&lowered) {
            assert(lowercase_of(exts[k as int]) == lowercase_of(extension_of(path@)));
            return true;
        }
        k = k + 1;
    }
    false
}

/// Whether `path` carries one of the binary suffixes, compared without regard to case.
pub fn is_likely_binary(path: &str) -> (r: bool)
    ensures
        r == binary_path(path@),
{
    let ext = path_extension(path);
    let lowered = to_lower(ext.as_str());
    let names: Vec<&str> = vec![
        "jpg", "jpeg", "png", "gif", "bmp", "tiff", "pdf", "doc", "docx", "xls",
        "xlsx", "ppt", "pptx", "zip", "tar", "gz", "7z", "rar", "exe", "dll",
        "so", "dylib", "mp3", "mp4", "avi", "mov", "flv", "db", "sqlite",
    ];
    assert(names@.map_values(|n: &str| n@) =~= binary_suffixes());
    let mut k: usize = 0;
    while k < names.len()
        invariant
            k <= names.len(),
            names@.map_values(|n: &str| n@) == binary_suffixes(),
            lowered@ == lowercase_of(extension_of(path@)),
            forall|j: int| 0 <= j < k ==> #[trigger] binary_suffixes()[j] != lowered@,
        decreases names.len() - k,
    {
        let cand = String::from_str(names[k]);
        assert(names@.map_values(|n: &str| n@)[k as int] == names@[k as int]@);
        if cand.eq(&lowered) {
            assert(binary_suffixes()[k as int] == lowered@);
            return true;
        }
        k = k + 1;
    }
    false
}

/// Whether any of `excludes` matches `path`.
pub fn matches_any(excludes: &Vec<Pattern>, path: &str) -> (r: bool)
    ensures
        r == excluded_by(path@, excludes@.map_values(|p: Pattern| p@)),
{
    let ghost pats = excludes@.map_values(|p: Pattern| p@);
    let mut k: usize = 0;
    while k < excludes.len()
        invariant
            k <= excludes.len(),
            pats == excludes@.map_values(|p: Pattern| p@),
            forall|j: int| 0 <= j < k ==> !#[trigger] crate::pattern::regex_is_match(pats[j], path@),
        decreases excludes.len() - k,
    {
        if excludes[k].is_match(path) {
            assert(crate::pattern::regex_is_match(pats[k as int], path@));
            return true;
        }
        k = k + 1;
    }
    false
}

} // verus!
