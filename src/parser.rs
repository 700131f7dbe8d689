//! Language-aware comment removal: a grammar-driven parser finds the comment
//! nodes, and the bytes outside them are kept in order.
use vstd::prelude::*;
use vstd::utf8::{decode_utf8, encode_utf8, valid_utf8};

use crate::spans::{covered, kept, kept_prefix, remove_spans};
use crate::text::{lowercase_of, push_str, string_of, to_lower};

verus! {

#[verifier::external_type_specification]
#[verifier::external_body]
pub struct ExParser(tree_sitter::Parser);

#[verifier::external_type_specification]
#[verifier::external_body]
pub struct ExQuery(tree_sitter::Query);

#[verifier::external_type_specification]
#[verifier::external_body]
pub struct ExLanguage(tree_sitter::Language);

/// A language whose comments can be removed.
#[derive(Debug, Clone, Copy, PartialEq, Eq, Structural)]
pub enum SupportedLanguage {
    Rust,
    JavaScript,
    Python,
    Go,
}

/// The language that a name or file extension denotes, after lowercasing.
pub open spec fn language_named(lower: Seq<char>) -> Option<SupportedLanguage> {
    if lower == "rs"@ || lower == "rust"@ {
        Some(SupportedLanguage::Rust)
    } else if lower == "js"@ || lower == "javascript"@ {
        Some(SupportedLanguage::JavaScript)
    } else if lower == "py"@ || lower == "python"@ {
        Some(SupportedLanguage::Python)
    } else if lower == "go"@ {
        Some(SupportedLanguage::Go)
    } else {
        None
    }
}

/// The byte spans `[start, end)` of the comment nodes that the grammar of
/// `lang` finds in `source`, in the order the query reports them; `None` when
/// the parser returns no tree or a tree that holds syntax errors.
pub uninterp spec fn comment_spans(lang: SupportedLanguage, source: Seq<char>) -> Option<Seq<(usize, usize)>>;

/// The text with the given comment spans removed from its UTF-8 bytes; the
/// text itself when what remains is not valid UTF-8.
pub open spec fn without_spans(source: Seq<char>, spans: Seq<(usize, usize)>) -> Seq<char> {
    let rest = kept(encode_utf8(source), spans);
    if valid_utf8(rest) {
        decode_utf8(rest)
    } else {
        source
    }
}

/// The text with the comments of `lang` removed; the text itself when it
/// cannot be parsed without errors.
pub open spec fn strip(lang: SupportedLanguage, source: Seq<char>) -> Seq<char> {
    match comment_spans(lang, source) {
        Some(spans) => without_spans(source, spans),
        None => source,
    }
}

proof fn lemma_kept_uncovered(src: Seq<u8>, spans: Seq<(usize, usize)>, n: int)
    requires
        0 <= n <= src.len(),
        forall|i: int| 0 <= i < n ==> !covered(i, spans),
    ensures
        kept_prefix(src, spans, n) == src.take(n),
    decreases n,
{
    if n > 0 {
        lemma_kept_uncovered(src, spans, n - 1);
        assert(src.take(n) =~= src.take(n - 1).push(src[n - 1]));
    }
}

/// Removing comments is idempotent: stripping the stripped text again changes
/// nothing, provided the parser finds no comment bytes left in it.
pub proof fn lemma_strip_idempotent(lang: SupportedLanguage, s: Seq<char>)
    requires
        comment_spans(lang, strip(lang, s)) matches Some(spans) ==> forall|i: int|
            0 <= i < encode_utf8(strip(lang, s)).len() ==> !covered(i, spans),
    ensures
        strip(lang, strip(lang, s)) == strip(lang, s),
{
    let t = strip(lang, s);
    if let Some(spans) = comment_spans(lang, t) {
        let b = encode_utf8(t);
        lemma_kept_uncovered(b, spans, b.len() as int);
        assert(b.take(b.len() as int) =~= b);
        vstd::utf8::encode_utf8_valid_utf8(t);
        vstd::utf8::encode_utf8_decode_utf8(t);
    }
}

/// The bytes of the stripped text are exactly the bytes of the source that no
/// comment span covers, in their order, whenever those bytes form valid UTF-8.
pub proof fn lemma_strip_keeps_other_bytes(lang: SupportedLanguage, s: Seq<char>, spans: Seq<(usize, usize)>)
    requires
        comment_spans(lang, s) == Some(spans),
        valid_utf8(kept(encode_utf8(s), spans)),
    ensures
        encode_utf8(strip(lang, s)) == kept(encode_utf8(s), spans),
{
    vstd::utf8::decode_utf8_encode_utf8(kept(encode_utf8(s), spans));
}

/// Relies on `String::from_utf8`: it succeeds exactly on valid UTF-8, with
/// the characters that the bytes encode.
#[verifier::external_body]
pub(crate) fn utf8_string(bytes: Vec<u8>) -> (r: Option<String>)
    ensures
        r is Some <==> valid_utf8(bytes@),
        r matches Some(s) ==> s@ == decode_utf8(bytes@),
{
    String::from_utf8(bytes).ok()
}

/// Removes the given comment spans from the UTF-8 bytes of `source`; returns
/// `source` unchanged when the rest would not be valid UTF-8.
pub fn remove_comment_spans(source: &str, spans: &Vec<(usize, usize)>) -> (r: String)
    ensures
        r@ == without_spans(source@, spans@),
{
    let rest = remove_spans(source.as_bytes(), spans);
    match utf8_string(rest) {
        Some(s) => s,
        None => String::from_str(source),
    }
}

/// The query that captures the comment nodes of a grammar.
pub open spec fn comment_query(lang: SupportedLanguage) -> Seq<char> {
    match lang {
        SupportedLanguage::Rust => "[(line_comment) (block_comment)] @comment"@,
        _ => "(comment) @comment"@,
    }
}

fn comment_query_text(lang: SupportedLanguage) -> (r: &'static str)
    ensures
        r@ == comment_query(lang),
{
    match lang {
        SupportedLanguage::Rust => "[(line_comment) (block_comment)] @comment",
        _ => "(comment) @comment",
    }
}

/// Relies on `tree_sitter::Parser::new`.
#[verifier::external_body]
fn new_parser() -> tree_sitter::Parser {
    tree_sitter::Parser::new()
}

/// Relies on `tree_sitter_rust::language`, `tree_sitter::Parser::set_language`
/// and `tree_sitter::Query::new`: the grammar has ABI version 14, which
/// `set_language` accepts (13 to 14), and it has the `line_comment` and
/// `block_comment` nodes that the query captures.
#[verifier::external_body]
fn load_rust(parser: &mut tree_sitter::Parser, text: &str) -> (r: Option<tree_sitter::Query>)
    requires
        text@ == "[(line_comment) (block_comment)] @comment"@,
    ensures
        r is Some,
{
    let language = tree_sitter_rust::language();
    parser.set_language(language).ok()?;
    tree_sitter::Query::new(language, text).ok()
}

/// Relies on `tree_sitter_javascript::language`, `tree_sitter::Parser::set_language`
/// and `tree_sitter::Query::new`: the grammar has ABI version 14, which
/// `set_language` accepts (13 to 14), and it has the `comment` node that the
/// query captures.
#[verifier::external_body]
fn load_javascript(parser: &mut tree_sitter::Parser, text: &str) -> (r: Option<tree_sitter::Query>)
    requires
        text@ == "(comment) @comment"@,
    ensures
        r is Some,
{
    let language = tree_sitter_javascript::language();
    parser.set_language(language).ok()?;
    tree_sitter::Query::new(language, text).ok()
}

/// Relies on `tree_sitter_python::language`, `tree_sitter::Parser::set_language`
/// and `tree_sitter::Query::new`: the grammar has ABI version 14, which
/// `set_language` accepts (13 to 14), and it has the `comment` node that the
/// query captures.
#[verifier::external_body]
fn load_python(parser: &mut tree_sitter::Parser, text: &str) -> (r: Option<tree_sitter::Query>)
    requires
        text@ == "(comment) @comment"@,
    ensures
        r is Some,
{
    let language = tree_sitter_python::language();
    parser.set_language(language).ok()?;
    tree_sitter::Query::new(language, text).ok()
}

/// Relies on `tree_sitter_go::language`, `tree_sitter::Parser::set_language`
/// and `tree_sitter::Query::new`: the grammar has ABI version 14, which
/// `set_language` accepts (13 to 14), and it has the `comment` node that the
/// query captures.
#[verifier::external_body]
fn load_go(parser: &mut tree_sitter::Parser, text: &str) -> (r: Option<tree_sitter::Query>)
    requires
        text@ == "(comment) @comment"@,
    ensures
        r is Some,
{
    let language = tree_sitter_go::language();
    parser.set_language(language).ok()?;
    tree_sitter::Query::new(language, text).ok()
}

/// Loads the grammar of `lang` into `parser` and compiles its comment query.
fn load_language(parser: &mut tree_sitter::Parser, lang: SupportedLanguage) -> (r: tree_sitter::Query) {
    let text = comment_query_text(lang);
    let q = match lang {
        SupportedLanguage::Rust => load_rust(parser, text),
        SupportedLanguage::JavaScript => load_javascript(parser, text),
        SupportedLanguage::Python => load_python(parser, text),
        SupportedLanguage::Go => load_go(parser, text),
    };
    match q {
        Some(q) => q,
        None => vstd::pervasive::unreached(),
    }
}

/// Parses source text with one grammar and removes its comments.
pub struct CodeParser {
    parser: tree_sitter::Parser,
    query: tree_sitter::Query,
    language: SupportedLanguage,
}

impl SupportedLanguage {
    /// The language that `name` denotes, compared without regard to case:
    /// `rs` or `rust`, `js` or `javascript`, `py` or `python`, and `go`.
    pub fn from_name(name: &str) -> (r: Option<SupportedLanguage>)
        ensures
            r == language_named(lowercase_of(name@)),
    {
        let lower = to_lower(name);
        if lower.eq(&String::from_str("rs")) || lower.eq(&String::from_str("rust")) {
            Some(SupportedLanguage::Rust)
        } else if lower.eq(&String::from_str("js")) || lower.eq(&String::from_str("javascript")) {
            Some(SupportedLanguage::JavaScript)
        } else if lower.eq(&String::from_str("py")) || lower.eq(&String::from_str("python")) {
            Some(SupportedLanguage::Python)
        } else if lower.eq(&String::from_str("go")) {
            Some(SupportedLanguage::Go)
        } else {
            None
        }
    }
}

impl SupportedLanguage {
    /// The language that `name` denotes, as `from_name` finds it; otherwise an
    /// error that names `name`.
    pub fn parse_name(name: &str) -> (r: Result<SupportedLanguage, String>)
        ensures
            r matches Ok(l) ==> language_named(lowercase_of(name@)) == Some(l),
            r matches Err(msg) ==> language_named(lowercase_of(name@)) is None && msg@ == "Unsupported language: "@
                + name@,
            r is Ok <==> language_named(lowercase_of(name@)) is Some,
    {
        match SupportedLanguage::from_name(name) {
            Some(lang) => Ok(lang),
            None => {
                let mut msg: Vec<char> = Vec::new();
                push_str(&mut msg, "Unsupported language: ");
                push_str(&mut msg, name);
                Err(string_of(&msg))
            },
        }
    }
}

impl std::str::FromStr for SupportedLanguage {
    type Err = String;

    fn from_str(s: &str) -> Result<SupportedLanguage, String> {
        SupportedLanguage::parse_name(s)
    }
}

impl CodeParser {
    /// The language whose grammar the parser holds.
    pub closed spec fn language(&self) -> SupportedLanguage {
        self.language
    }

    /// Relies on `tree_sitter::Parser::parse`, `tree_sitter::Node::has_error`
    /// and on running the comment query over the tree with a
    /// `tree_sitter::QueryCursor`: the spans of the captured nodes, as the
    /// grammar of `self.language()` gives them; `None` when there is no tree or
    /// the tree holds errors. The parser and the query hold that grammar: only
    /// `new` and `set_language` set the three fields, together.
    #[verifier::external_body]
    fn find_comment_spans(&mut self, source: &str) -> (r: Option<Vec<(usize, usize)>>)
        ensures
            final(self).language() == old(self).language(),
            r matches Some(v) ==> comment_spans(old(self).language(), source@) == Some(v@),
            r is None ==> comment_spans(old(self).language(), source@) is None,
    {
        let tree = self.parser.parse(source, None)?;
        if tree.root_node().has_error() {
            return None;
        }
        let mut cursor = tree_sitter::QueryCursor::new();
        let matches = cursor.matches(&self.query, tree.root_node(), source.as_bytes());
        Some(matches.flat_map(|m| m.captures.iter().map(|c| (c.node.start_byte(), c.node.end_byte()))
            .collect::<Vec<_>>()).collect())
    }

    /// A parser for Rust source.
    pub fn new() -> (r: CodeParser)
        ensures
            r.language() == SupportedLanguage::Rust,
    {
        let mut parser = new_parser();
        let query = load_language(&mut parser, SupportedLanguage::Rust);
        CodeParser { parser, query, language: SupportedLanguage::Rust }
    }

    /// Switches to the grammar of `lang`.
    pub fn set_language(&mut self, lang: SupportedLanguage) -> (r: Result<(), String>)
        ensures
            r is Ok,
            final(self).language() == lang,
    {
        self.query = load_language(&mut self.parser, lang);
        self.language = lang;
        Ok(())
    }

    /// Removes the comments of the parser's language from `source`; returns
    /// `source` unchanged when the text cannot be parsed without errors.
    pub fn remove_comments(&mut self, source: &str) -> (r: String)
        ensures
            final(self).language() == old(self).language(),
            r@ == strip(old(self).language(), source@),
    {
        match self.find_comment_spans(source) {
            Some(spans) => remove_comment_spans(source, &spans),
            None => String::from_str(source),
        }
    }
}

impl Default for CodeParser {
    fn default() -> (r: CodeParser)
        ensures
            r.language() == SupportedLanguage::Rust,
    {
        CodeParser::new()
    }
}

} // verus!
