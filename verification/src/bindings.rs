//! The calls this library makes into `regex`, `url`, `arrayvec` and the
//! parts of `std` that have no specification in `vstd`.
//!
//! Every contract in this file is taken on trust from the documentation or
//! source of the function it wraps; nothing here is proved.

use vstd::prelude::*;
use crate::text::byte_len;

verus! {

/// Capacity, in bytes, of the wide bounded fields (url and extract).
pub const WIDE_CAPACITY: usize = 200;

/// Capacity, in bytes, of the narrow bounded field (title).
pub const NARROW_CAPACITY: usize = 100;

#[verifier::external_type_specification]
#[verifier::external_body]
pub struct ExArrayString<const CAP: usize>(arrayvec::ArrayString<CAP>);

#[verifier::external_type_specification]
#[verifier::external_body]
pub struct ExRegex(regex::Regex);

#[verifier::external_type_specification]
#[verifier::external_body]
pub struct ExRegexError(regex::Error);

/// The text held by a wide bounded string.
pub uninterp spec fn wide_text(s: arrayvec::ArrayString<WIDE_CAPACITY>) -> Seq<char>;

/// The text held by a narrow bounded string.
pub uninterp spec fn narrow_text(s: arrayvec::ArrayString<NARROW_CAPACITY>) -> Seq<char>;

/// `ArrayString::from` at the wide capacity: the string is stored unchanged
/// when it fits in the capacity, and refused otherwise.
#[verifier::external_body]
pub(crate) fn wide_from(s: &str) -> (r: Option<arrayvec::ArrayString<WIDE_CAPACITY>>)
    ensures
        r is Some <==> byte_len(s@) <= WIDE_CAPACITY,
        r matches Some(a) ==> wide_text(a) == s@,
{
    arrayvec::ArrayString::from(s).ok()
}

/// `ArrayString::from` at the narrow capacity: the string is stored
/// unchanged when it fits in the capacity, and refused otherwise.
#[verifier::external_body]
pub(crate) fn narrow_from(s: &str) -> (r: Option<arrayvec::ArrayString<NARROW_CAPACITY>>)
    ensures
        r is Some <==> byte_len(s@) <= NARROW_CAPACITY,
        r matches Some(a) ==> narrow_text(a) == s@,
{
    arrayvec::ArrayString::from(s).ok()
}

/// `ArrayString::as_str` at the wide capacity: the text that is held, which
/// never takes more bytes than the capacity.
#[verifier::external_body]
pub(crate) fn wide_as_str(a: &arrayvec::ArrayString<WIDE_CAPACITY>) -> (r: &str)
    ensures
        r@ == wide_text(*a),
        byte_len(r@) <= WIDE_CAPACITY,
{
    a.as_str()
}

/// `ArrayString::as_str` at the narrow capacity: the text that is held,
/// which never takes more bytes than the capacity.
#[verifier::external_body]
pub(crate) fn narrow_as_str(a: &arrayvec::ArrayString<NARROW_CAPACITY>) -> (r: &str)
    ensures
        r@ == narrow_text(*a),
        byte_len(r@) <= NARROW_CAPACITY,
{
    a.as_str()
}

/// The pattern text that a compiled regex was built from.
pub uninterp spec fn regex_source(re: regex::Regex) -> Seq<char>;

/// The byte spans `(start, end)` of the successive non-overlapping matches
/// of a compiled regex in `text`, from left to right.
pub uninterp spec fn match_spans(re: regex::Regex, text: Seq<char>) -> Seq<(usize, usize)>;

/// The lower-case form of `s` under the Unicode case mapping.
pub uninterp spec fn lowercased(s: Seq<char>) -> Seq<char>;

/// The domain and the path of `url` once parsed as an absolute URL, or
/// `None` when it does not parse. The domain is `None` when the URL has no
/// host or its host is an IP address.
pub uninterp spec fn url_parts(url: Seq<char>) -> Option<(Option<Seq<char>>, Seq<char>)>;

/// The texts of a vector of strings.
pub open spec fn texts(v: Seq<String>) -> Seq<Seq<char>> {
    Seq::new(v.len(), |i: int| v[i]@)
}

/// Whether every span lies inside a text of `len` bytes, start before end.
pub open spec fn spans_within(spans: Seq<(usize, usize)>, len: nat) -> bool {
    forall|i: int| 0 <= i < spans.len() ==> (#[trigger] spans[i]).0 <= spans[i].1 <= len
}

/// The characters that carry the Unicode `White_Space` property.
pub open spec fn is_whitespace(c: char) -> bool {
    let u = c as u32;
    ||| 0x09 <= u <= 0x0D
    ||| u == 0x20
    ||| u == 0x85
    ||| u == 0xA0
    ||| u == 0x1680
    ||| 0x2000 <= u <= 0x200A
    ||| u == 0x2028
    ||| u == 0x2029
    ||| u == 0x202F
    ||| u == 0x205F
    ||| u == 0x3000
}

/// The word under construction, as a sequence of at most one finished word.
pub open spec fn flushed(word: Seq<char>) -> Seq<Seq<char>> {
    if word.len() > 0 {
        seq![word]
    } else {
        seq![]
    }
}

/// The words of `s` from left to right, where `word` holds the characters
/// of the current word that were read before `s`.
pub open spec fn words_after(s: Seq<char>, word: Seq<char>) -> Seq<Seq<char>>
    decreases s.len(),
{
    if s.len() == 0 {
        flushed(word)
    } else if is_whitespace(s[0]) {
        flushed(word) + words_after(s.drop_first(), seq![])
    } else {
        words_after(s.drop_first(), word.push(s[0]))
    }
}

/// The maximal runs of non-whitespace characters of `s`, from left to right.
pub open spec fn tokens(s: Seq<char>) -> Seq<Seq<char>> {
    words_after(s, seq![])
}

/// The characters that have a meaning of their own in a regex.
pub open spec fn is_meta_character(c: char) -> bool {
    ||| c == '\\'
    ||| c == '.'
    ||| c == '+'
    ||| c == '*'
    ||| c == '?'
    ||| c == '('
    ||| c == ')'
    ||| c == '|'
    ||| c == '['
    ||| c == ']'
    ||| c == '{'
    ||| c == '}'
    ||| c == '^'
    ||| c == '$'
    ||| c == '#'
    ||| c == '&'
    ||| c == '-'
    ||| c == '~'
}

/// `s` with a backslash put before each of its meta characters.
pub open spec fn escaped(s: Seq<char>) -> Seq<char>
    decreases s.len(),
{
    if s.len() == 0 {
        seq![]
    } else if is_meta_character(s[0]) {
        seq!['\\', s[0]] + escaped(s.drop_first())
    } else {
        seq![s[0]] + escaped(s.drop_first())
    }
}

/// What the URL parser reads out of a URL: its domain, if it has one, and
/// its path.
pub struct UrlParts {
    pub domain: Option<String>,
    pub path: String,
}

impl UrlParts {
    /// The parts as plain character sequences.
    pub open spec fn view(&self) -> (Option<Seq<char>>, Seq<char>) {
        (
            match self.domain {
                Some(d) => Some(d@),
                None => None,
            },
            self.path@,
        )
    }
}

/// `str::split_whitespace`, collected: the sub-slices of `s` that are
/// separated by any amount of whitespace, in order, none of them empty.
#[verifier::external_body]
pub(crate) fn split_on_whitespace(s: &str) -> (r: Vec<String>)
    ensures
        texts(r@) == tokens(s@),
{
    s.split_whitespace().map(|w| w.to_string()).collect()
}

/// `str::to_lowercase`: the lower-case equivalent of `s`.
#[verifier::external_body]
pub(crate) fn lowercase(s: &str) -> (r: String)
    ensures
        r@ == lowercased(s@),
{
    s.to_lowercase()
}

/// `regex::escape`: every meta character of `term` is preceded by a
/// backslash and every other character is copied.
#[verifier::external_body]
pub(crate) fn escape_term(term: &str) -> (r: String)
    ensures
        r@ == escaped(term@),
{
    regex::escape(term)
}

/// `Regex::new`: a regex that was compiled remembers the pattern it was
/// given. Nothing is claimed about which patterns compile.
#[verifier::external_body]
pub(crate) fn compile_pattern(pattern: &str) -> (r: Result<regex::Regex, regex::Error>)
    ensures
        r matches Ok(re) ==> regex_source(re) == pattern@,
{
    regex::Regex::new(pattern)
}

/// `Regex::find_iter`, collected: the start and end byte offsets of each
/// successive non-overlapping match in `text`. Every match starts no later
/// than it ends and ends inside the text.
#[verifier::external_body]
pub(crate) fn find_spans(re: &regex::Regex, text: &str) -> (r: Vec<(usize, usize)>)
    ensures
        r@ == match_spans(*re, text@),
        spans_within(r@, byte_len(text@)),
{
    re.find_iter(text).map(|m| (m.start(), m.end())).collect()
}

/// `Url::parse`, read through `Url::domain` and `Url::path`: the domain and
/// path of the parsed URL, or `None` when `url` is not an absolute URL.
#[verifier::external_body]
pub(crate) fn split_url(url: &str) -> (r: Option<UrlParts>)
    ensures
        match r {
            Some(parts) => url_parts(url@) == Some(parts@),
            None => url_parts(url@) is None,
        },
{
    match url::Url::parse(url) {
        Ok(u) => Some(
            UrlParts { domain: u.domain().map(|d| d.to_string()), path: u.path().to_string() },
        ),
        Err(_) => None,
    }
}

} // verus!
