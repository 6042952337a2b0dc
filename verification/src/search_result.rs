//! A candidate search result, held in bounded fields.

use vstd::prelude::*;
use arrayvec::ArrayString;
use crate::bindings::{
    narrow_as_str, narrow_from, narrow_text, wide_as_str, wide_from, wide_text, NARROW_CAPACITY,
    WIDE_CAPACITY,
};
use crate::text::{byte_len, byte_length, shorten_string, shortened};

verus! {

/// Most bytes of a url that a result keeps.
pub const MAX_URL_LENGTH: usize = WIDE_CAPACITY;

/// Most bytes of a title that a result keeps.
pub const MAX_TITLE_LENGTH: usize = NARROW_CAPACITY;

/// Most bytes of an extract that a result keeps.
pub const MAX_EXTRACT_LENGTH: usize = WIDE_CAPACITY;

/// One candidate result. Each field holds its text cut down to the field's
/// bound, never in the middle of a character.
#[derive(Clone, Copy, Debug)]
pub struct SearchResult {
    pub url: ArrayString<WIDE_CAPACITY>,
    pub title: ArrayString<NARROW_CAPACITY>,
    pub extract: ArrayString<WIDE_CAPACITY>,
}

impl SearchResult {
    /// The url that is held.
    pub open spec fn url_text(self) -> Seq<char> {
        wide_text(self.url)
    }

    /// The title that is held.
    pub open spec fn title_text(self) -> Seq<char> {
        narrow_text(self.title)
    }

    /// The extract that is held.
    pub open spec fn extract_text(self) -> Seq<char> {
        wide_text(self.extract)
    }

    /// Normalizes a raw result: each field is kept as it is when it fits in
    /// its bound and is otherwise cut at the last character boundary within
    /// the bound. Nothing is trimmed and no case is changed.
    pub fn new(url: &str, title: &str, extract: &str) -> (r: SearchResult)
        ensures
            r.url_text() == shortened(url@, MAX_URL_LENGTH as int),
            r.title_text() == shortened(title@, MAX_TITLE_LENGTH as int),
            r.extract_text() == shortened(extract@, MAX_EXTRACT_LENGTH as int),
            byte_len(r.url_text()) <= MAX_URL_LENGTH,
            byte_len(r.title_text()) <= MAX_TITLE_LENGTH,
            byte_len(r.extract_text()) <= MAX_EXTRACT_LENGTH,
    {
        SearchResult {
            url: wide_from(shorten_string(url, MAX_URL_LENGTH)).unwrap(),
            title: narrow_from(shorten_string(title, MAX_TITLE_LENGTH)).unwrap(),
            extract: wide_from(shorten_string(extract, MAX_EXTRACT_LENGTH)).unwrap(),
        }
    }

    /// The url, at most `MAX_URL_LENGTH` bytes of it.
    pub fn url(&self) -> (r: &str)
        ensures
            r@ == self.url_text(),
            byte_len(r@) <= MAX_URL_LENGTH,
    {
        wide_as_str(&self.url)
    }

    /// The title, at most `MAX_TITLE_LENGTH` bytes of it.
    pub fn title(&self) -> (r: &str)
        ensures
            r@ == self.title_text(),
            byte_len(r@) <= MAX_TITLE_LENGTH,
    {
        narrow_as_str(&self.title)
    }

    /// The extract, at most `MAX_EXTRACT_LENGTH` bytes of it.
    pub fn extract(&self) -> (r: &str)
        ensures
            r@ == self.extract_text(),
            byte_len(r@) <= MAX_EXTRACT_LENGTH,
    {
        wide_as_str(&self.extract)
    }

    /// The number of bytes of the url that is held.
    pub fn url_len(&self) -> (n: usize)
        ensures
            n == byte_len(self.url_text()),
            n <= MAX_URL_LENGTH,
    {
        byte_length(self.url())
    }
}

} // verus!
