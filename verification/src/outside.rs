//! Calls into std functions that vstd leaves unspecified and into the
//! outside crates `regex`, `kdl`, `shlex` and `chrono`.
//!
//! Each item here is trusted: its contract is taken as given.
use vstd::prelude::*;
use crate::text::{ascii_lowered, concat3, is_ascii_text, is_ws};

verus! {

/// Full Unicode lower-casing of a text, as `str::to_lowercase` computes it.
pub uninterp spec fn lowercase(s: Seq<char>) -> Seq<char>;

/// Calls `str::to_lowercase`; claims that the result is the Unicode
/// lower-casing of the argument's characters (left unstated in general),
/// which for ASCII text maps `A`-`Z` to `a`-`z` and keeps every other
/// character.
#[verifier::external_body]
pub(crate) fn to_lowercase(s: &str) -> (r: String)
    ensures
        r@ == lowercase(s@),
        is_ascii_text(s@) ==> r@ == ascii_lowered(s@),
{
    s.to_lowercase()
}

/// Unicode `Alphabetic` or `Numeric` property of a character.
pub uninterp spec fn alphanumeric(c: char) -> bool;

/// Calls `char::is_alphanumeric`; claims only that the answer is the
/// (unstated) Unicode property of the character.
#[verifier::external_body]
pub(crate) fn is_alphanumeric(c: char) -> (r: bool)
    ensures
        r == alphanumeric(c),
{
    c.is_alphanumeric()
}

/// Whether `pattern` compiles as a `regex` and matches somewhere in `text`
/// (false where the pattern does not compile).
pub uninterp spec fn regex_match(pattern: Seq<char>, text: Seq<char>) -> bool;

/// The pattern `^[a-zA-Z0-9_\-.\s/:]+$`: a whole text of one or more
/// characters of the class.
pub open spec fn safe_command_pattern() -> Seq<char> {
    "^[a-zA-Z0-9_\\-.\\s/:]+$"@
}

/// The characters of the class `[a-zA-Z0-9_\-.\s/:]`: ASCII letters and
/// digits, `_`, `-`, `.`, `/`, `:` and Unicode white space (`\s`).
pub open spec fn in_safe_command_class(c: char) -> bool {
    ('a' <= c && c <= 'z') || ('A' <= c && c <= 'Z') || ('0' <= c && c <= '9') || c == '_' || c == '-'
        || c == '.' || c == '/' || c == ':' || is_ws(c)
}

/// Calls `regex::Regex::new(pattern)` and then `Regex::is_match(text)`;
/// claims that the answer is `regex_match` of the two texts, with an
/// uncompilable pattern answering false, and, for `safe_command_pattern`
/// (anchored at both ends of the text, as `^` and `$` are without the `m`
/// flag), that it matches exactly a non-empty text of class characters.
#[verifier::external_body]
pub(crate) fn regex_is_match(pattern: &str, text: &str) -> (r: bool)
    ensures
        r == regex_match(pattern@, text@),
        pattern@ == safe_command_pattern() ==> r == (text@.len() > 0
            && forall|i: int| 0 <= i < text@.len() ==> in_safe_command_class(#[trigger] text@[i])),
{
    regex::Regex::new(pattern).map(|re| re.is_match(text)).unwrap_or(false)
}

/// The characters `regex_syntax::is_meta_character` accepts.
pub open spec fn regex_meta(c: char) -> bool {
    c == '\\' || c == '.' || c == '+' || c == '*' || c == '?' || c == '(' || c == ')' || c == '|'
        || c == '[' || c == ']' || c == '{' || c == '}' || c == '^' || c == '$' || c == '#'
        || c == '&' || c == '-' || c == '~'
}

/// `s` with a backslash put before every regex meta character.
pub open spec fn regex_escaped(s: Seq<char>) -> Seq<char>
    decreases s.len(),
{
    if s.len() == 0 {
        Seq::empty()
    } else {
        (if regex_meta(s[0]) {
            seq!['\\', s[0]]
        } else {
            seq![s[0]]
        }) + regex_escaped(s.drop_first())
    }
}

/// Calls `regex::escape`; claims what its source (`regex_syntax::escape_into`)
/// does: a backslash before each meta character, other characters unchanged.
#[verifier::external_body]
pub(crate) fn regex_escape(text: &str) -> (r: String)
    ensures
        r@ == regex_escaped(text@),
{
    regex::escape(text)
}

/// The text `text` after its leftmost-first match of `pattern` is followed
/// by a newline and `line` (the text itself where nothing matches or the
/// pattern does not compile).
pub uninterp spec fn regex_line_after_match(
    pattern: Seq<char>,
    text: Seq<char>,
    line: Seq<char>,
) -> Seq<char>;

/// Calls `regex::Regex::new(pattern)` and `Regex::replace(text, ..)` with a
/// replacer that puts the matched text, a newline and `line`.
/// Claims that the result is `regex_line_after_match` of the three texts, that
/// the text comes back unchanged where nothing matches (as `replace` documents),
/// and that a match grows the text by the newline and `line`.
#[verifier::external_body]
pub(crate) fn regex_insert_after_match(pattern: &str, text: &str, line: &str) -> (r: String)
    ensures
        r@ == regex_line_after_match(pattern@, text@, line@),
        !regex_match(pattern@, text@) ==> r@ == text@,
        regex_match(pattern@, text@) ==> r@.len() == text@.len() + 1 + line@.len(),
{
    match regex::Regex::new(pattern) {
        Ok(re) => re.replace(text, |caps: &regex::Captures| concat3(&caps[0], "\n", line)).into_owned(),
        Err(_) => text.to_owned(),
    }
}

/// One node of a parsed KDL document: its name, the string values of its
/// entries in order (`None` for a non-string value), and its child nodes.
#[derive(Debug)]
pub struct KdlNodeData {
    pub name: String,
    pub values: Vec<Option<String>>,
    pub children: Option<Vec<KdlNodeData>>,
}

/// The top-level nodes of `text` read as a KDL document, or the parser's
/// error message.
pub uninterp spec fn kdl_parsed(text: Seq<char>) -> Result<Seq<KdlNodeData>, Seq<char>>;

/// Calls `kdl::KdlDocument::parse(text)` and copies the document into
/// `KdlNodeData` values (via `kdl_node_data`). Claims that the outcome is
/// `kdl_parsed` of the text, and that the error text is the constant that
/// `KdlError`'s `Display` writes.
#[verifier::external_body]
pub(crate) fn kdl_parse(text: &str) -> (r: Result<Vec<KdlNodeData>, String>)
    ensures
        match r {
            Ok(nodes) => kdl_parsed(text@) == Ok::<Seq<KdlNodeData>, Seq<char>>(nodes@),
            Err(e) => kdl_parsed(text@) == Err::<Seq<KdlNodeData>, Seq<char>>(e@)
                && e@ == "Failed to parse KDL document"@,
        },
{
    match kdl::KdlDocument::parse(text) {
        Ok(doc) => Ok(doc.nodes().iter().map(kdl_node_data).collect()),
        Err(e) => Err(e.to_string()),
    }
}

/// The outside type `kdl::KdlNode`, carried opaquely.
#[verifier::external_type_specification]
#[verifier::external_body]
pub struct ExKdlNode(kdl::KdlNode);

/// Copies one `kdl::KdlNode` (name, `KdlValue::as_string` of each entry,
/// children) into a `KdlNodeData`; the conversion half of `kdl_parse`.
#[verifier::external_body]
fn kdl_node_data(node: &kdl::KdlNode) -> KdlNodeData {
    KdlNodeData {
        name: node.name().value().to_owned(),
        values: node.entries().iter().map(|e| e.value().as_string().map(str::to_owned)).collect(),
        children: node.children().map(|d| d.nodes().iter().map(kdl_node_data).collect()),
    }
}

/// The words of `text` under POSIX-shell quoting rules, or `None` where the
/// quoting is malformed.
pub uninterp spec fn shlex_words(text: Seq<char>) -> Option<Seq<Seq<char>>>;

/// Calls `shlex::split`; claims only that the outcome is `shlex_words` of the text.
#[verifier::external_body]
pub(crate) fn shlex_split(text: &str) -> (r: Option<Vec<String>>)
    ensures
        match r {
            Some(words) => shlex_words(text@) == Some(words@.map_values(|w: String| w@)),
            None => shlex_words(text@) is None,
        },
{
    shlex::split(text)
}

/// Calls `chrono::Local::now()` and formats it as `%Y-%m-%d`. Nothing is
/// claimed of the result: it depends on the clock and the time zone.
#[verifier::external_body]
pub(crate) fn local_date() -> String {
    chrono::Local::now().format("%Y-%m-%d").to_string()
}

/// Returns `std::path::MAIN_SEPARATOR`. Nothing is claimed: it depends on
/// the platform the crate was built for.
#[verifier::external_body]
pub(crate) fn main_separator() -> char {
    std::path::MAIN_SEPARATOR
}

/// The `Debug` form of a string: the text in double quotes, with quotes,
/// backslashes and non-printable characters escaped.
pub uninterp spec fn debug_quoted(s: Seq<char>) -> Seq<char>;

/// Formats a string with `{:?}` (`<str as Debug>::fmt`); claims only that
/// the result is the (unstated) `Debug` form of the argument.
#[verifier::external_body]
pub(crate) fn debug_quote(s: &str) -> (r: String)
    ensures
        r@ == debug_quoted(s@),
{
    format!("{:?}", s)
}

/// The text `kdl::KdlDocument`'s `Display` writes for the document parsed
/// from `text`.
pub uninterp spec fn kdl_rendered(text: Seq<char>) -> Seq<char>;

/// Calls `kdl::KdlDocument::parse(text)` and writes the document back with
/// `to_string`. Claims that it succeeds exactly when `kdl_parse` does, with
/// the same error text, and that the written text is `kdl_rendered(text)`.
#[verifier::external_body]
pub(crate) fn kdl_render(text: &str) -> (r: Result<String, String>)
    ensures
        match r {
            Ok(s) => kdl_parsed(text@) is Ok && s@ == kdl_rendered(text@),
            Err(e) => kdl_parsed(text@) == Err::<Seq<KdlNodeData>, Seq<char>>(e@),
        },
{
    match kdl::KdlDocument::parse(text) {
        Ok(doc) => Ok(doc.to_string()),
        Err(e) => Err(e.to_string()),
    }
}

} // verus!
