//! Compiling a raw query into its distinct terms and a whole-word pattern.

use vstd::prelude::*;
use vstd::string::StringExecFns;
use regex::Regex;
use crate::bindings::{
    compile_pattern, escape_term, escaped, is_whitespace, regex_source, split_on_whitespace,
    texts, tokens, words_after,
};
use crate::features::{saturate, saturated};
use crate::text::{byte_len, byte_length};

verus! {

/// Why a query could not be compiled.
#[derive(Clone, Copy, Debug, PartialEq, Eq, Structural)]
pub enum QueryError {
    /// The query holds no term: it is empty or all whitespace.
    InvalidQuery,
    /// The regex engine refused the pattern built from the terms.
    PatternRejected,
}

/// `items` without repetitions: each item stays where it first occurs.
pub open spec fn unique_terms(items: Seq<Seq<char>>) -> Seq<Seq<char>>
    decreases items.len(),
{
    if items.len() == 0 {
        Seq::empty()
    } else {
        let before = unique_terms(items.drop_last());
        if before.contains(items.last()) {
            before
        } else {
            before.push(items.last())
        }
    }
}

/// Each item escaped for literal use in a pattern.
pub open spec fn escaped_all(items: Seq<Seq<char>>) -> Seq<Seq<char>> {
    Seq::new(items.len(), |i: int| escaped(items[i]))
}

/// The terms of a query: its whitespace-separated tokens, escaped, without
/// repetitions, in the order in which they first occur.
pub open spec fn query_terms(query: Seq<char>) -> Seq<Seq<char>> {
    unique_terms(escaped_all(tokens(query)))
}

/// The terms joined by `\b|\b`.
pub open spec fn joined(terms: Seq<Seq<char>>) -> Seq<char>
    decreases terms.len(),
{
    if terms.len() == 0 {
        Seq::empty()
    } else if terms.len() == 1 {
        terms[0]
    } else {
        joined(terms.drop_last()) + "\\b|\\b"@ + terms.last()
    }
}

/// The pattern that matches any of the terms as a whole word:
/// `\bterm1\b|\bterm2\b|...`.
pub open spec fn pattern_text(terms: Seq<Seq<char>>) -> Seq<char> {
    "\\b"@ + joined(terms) + "\\b"@
}

/// Sum of the byte lengths of the terms.
pub open spec fn total_length(terms: Seq<Seq<char>>) -> nat
    decreases terms.len(),
{
    if terms.len() == 0 {
        0
    } else {
        total_length(terms.drop_last()) + byte_len(terms.last())
    }
}

/// Each pair of neighbouring items, joined by one space, in order.
pub open spec fn bigrams(items: Seq<Seq<char>>) -> Seq<Seq<char>> {
    Seq::new(
        if items.len() == 0 {
            0nat
        } else {
            (items.len() - 1) as nat
        },
        |i: int| items[i] + " "@ + items[i + 1],
    )
}

/// What is shown for a query: its distinct tokens in order of first
/// occurrence, then its distinct pairs of neighbouring tokens, likewise.
pub open spec fn shown_terms(query: Seq<char>) -> Seq<Seq<char>> {
    unique_terms(tokens(query)) + unique_terms(bigrams(tokens(query)))
}

/// Whether one of `items` has the text of `item`.
fn holds(items: &Vec<String>, item: &String) -> (r: bool)
    ensures
        r == texts(items@).contains(item@),
{
    let mut k: usize = 0;
    while k < items.len()
        invariant
            k <= items.len(),
            forall|j: int| 0 <= j < k ==> (#[trigger] texts(items@)[j]) != item@,
        decreases items.len() - k,
    {
        if items[k] == *item {
            assert(texts(items@)[k as int] == item@);
            return true;
        }
        k += 1;
    }
    false
}

/// Drops every item that repeats an earlier one.
pub fn dedup(items: &Vec<String>) -> (r: Vec<String>)
    ensures
        texts(r@) == unique_terms(texts(items@)),
{
    let mut out: Vec<String> = Vec::new();
    let mut i: usize = 0;
    assert(texts(items@).take(0) =~= Seq::empty());
    assert(texts(out@) =~= Seq::empty());
    while i < items.len()
        invariant
            i <= items.len(),
            texts(out@) == unique_terms(texts(items@).take(i as int)),
        decreases items.len() - i,
    {
        let ghost before = texts(out@);
        let ghost prefix = texts(items@).take(i + 1);
        assert(prefix.drop_last() =~= texts(items@).take(i as int));
        assert(prefix.last() == items[i as int]@);
        if !holds(&out, &items[i]) {
            out.push(items[i].clone());
            assert(texts(out@) =~= before.push(items[i as int]@));
        }
        i += 1;
    }
    assert(texts(items@).take(items.len() as int) =~= texts(items@));
    out
}

/// Escapes every item for literal use in a pattern.
fn escape_all(items: &Vec<String>) -> (r: Vec<String>)
    ensures
        texts(r@) == escaped_all(texts(items@)),
{
    let mut out: Vec<String> = Vec::new();
    let mut i: usize = 0;
    while i < items.len()
        invariant
            i <= items.len(),
            out.len() == i,
            forall|j: int| 0 <= j < i ==> (#[trigger] out[j])@ == escaped(items[j]@),
        decreases items.len() - i,
    {
        out.push(escape_term(items[i].as_str()));
        i += 1;
    }
    assert(texts(out@) =~= escaped_all(texts(items@)));
    out
}

/// Builds the whole-word pattern over the terms.
pub fn build_pattern(terms: &Vec<String>) -> (r: String)
    ensures
        r@ == pattern_text(texts(terms@)),
{
    let mut pattern = String::from_str("\\b");
    let mut i: usize = 0;
    assert(texts(terms@).take(0) =~= Seq::empty());
    assert("\\b"@ + Seq::<char>::empty() =~= "\\b"@);
    while i < terms.len()
        invariant
            i <= terms.len(),
            pattern@ == "\\b"@ + joined(texts(terms@).take(i as int)),
        decreases terms.len() - i,
    {
        let ghost prefix = texts(terms@).take(i + 1);
        assert(prefix.drop_last() =~= texts(terms@).take(i as int));
        assert(prefix.last() == terms[i as int]@);
        if i > 0 {
            pattern.append("\\b|\\b");
        } else {
            assert(prefix[0] == terms[0]@);
        }
        pattern.append(terms[i].as_str());
        assert(pattern@ =~= "\\b"@ + joined(prefix));
        i += 1;
    }
    assert(texts(terms@).take(terms.len() as int) =~= texts(terms@));
    pattern.append("\\b");
    pattern
}

/// Sums the byte lengths of the terms, stopping at 255.
pub fn total_term_length(terms: &Vec<String>) -> (r: u8)
    ensures
        r == saturated(total_length(texts(terms@))),
{
    let mut sum: usize = 0;
    let mut i: usize = 0;
    assert(texts(terms@).take(0) =~= Seq::empty());
    while i < terms.len()
        invariant
            i <= terms.len(),
            sum == saturated(total_length(texts(terms@).take(i as int))),
        decreases terms.len() - i,
    {
        let ghost prefix = texts(terms@).take(i + 1);
        assert(prefix.drop_last() =~= texts(terms@).take(i as int));
        assert(prefix.last() == terms[i as int]@);
        let len = byte_length(terms[i].as_str());
        sum = if len >= 255 - sum {
            255
        } else {
            sum + len
        };
        i += 1;
    }
    assert(texts(terms@).take(terms.len() as int) =~= texts(terms@));
    saturate(sum)
}

/// The escaped, distinct terms of `query`, in order of first occurrence.
pub fn split_terms(query: &str) -> (r: Vec<String>)
    ensures
        texts(r@) == query_terms(query@),
{
    let words = split_on_whitespace(query);
    let escaped_words = escape_all(&words);
    dedup(&escaped_words)
}

/// Joins each pair of neighbouring items by one space.
fn pair_up(items: &Vec<String>) -> (r: Vec<String>)
    ensures
        texts(r@) == bigrams(texts(items@)),
{
    let mut out: Vec<String> = Vec::new();
    let mut i: usize = 1;
    while i < items.len()
        invariant
            1 <= i,
            i <= items.len() || i == 1,
            out.len() == i - 1,
            forall|j: int|
                0 <= j < i - 1 ==> (#[trigger] out[j])@ == items[j]@ + " "@ + items[j + 1]@,
        decreases items.len() - i,
    {
        let mut pair = items[i - 1].clone();
        pair.append(" ");
        pair.append(items[i].as_str());
        out.push(pair);
        i += 1;
    }
    assert(texts(out@).len() == bigrams(texts(items@)).len());
    assert forall|j: int| 0 <= j < out.len() implies texts(out@)[j] == bigrams(
        texts(items@),
    )[j] by {
        assert(out[j]@ == items[j]@ + " "@ + items[j + 1]@);
    }
    assert(texts(out@) =~= bigrams(texts(items@)));
    out
}

/// The terms to show for `query`: its distinct tokens, then its distinct
/// pairs of neighbouring tokens. They play no part in scoring.
pub fn display_terms(query: &str) -> (r: Vec<String>)
    ensures
        texts(r@) == shown_terms(query@),
{
    let words = split_on_whitespace(query);
    let mut terms = dedup(&words);
    let mut pairs = dedup(&pair_up(&words));
    let ghost singles = texts(terms@);
    let ghost doubles = texts(pairs@);
    terms.append(&mut pairs);
    assert(texts(terms@) =~= singles + doubles);
    terms
}

/// Puts the outcome of compiling the pattern of `terms` together with the
/// two statistics of the terms: their number and the sum of their byte
/// lengths, each capped at 255. A pattern that the engine refused gives
/// `PatternRejected`.
pub fn finish_query(terms: &Vec<String>, compiled: Result<Regex, regex::Error>) -> (r: Result<
    (Regex, u8, u8),
    QueryError,
>)
    ensures
        compiled is Err ==> r == Err::<(Regex, u8, u8), QueryError>(QueryError::PatternRejected),
        compiled matches Ok(re) ==> r == Ok::<(Regex, u8, u8), QueryError>(
            (
                re,
                saturated(terms.len() as nat),
                saturated(total_length(texts(terms@))),
            ),
        ),
{
    match compiled {
        Ok(re) => Ok((re, saturate(terms.len()), total_term_length(terms))),
        Err(_) => Err(QueryError::PatternRejected),
    }
}

/// Compiles a query: returns the whole-word pattern over its distinct
/// terms, the number of distinct terms and the sum of their byte lengths,
/// both capped at 255. A query without any term is refused as
/// `InvalidQuery`; otherwise the result is `PatternRejected` exactly when
/// the regex engine does not accept the pattern.
pub fn get_query_regex(query: &str) -> (r: Result<(Regex, u8, u8), QueryError>)
    ensures
        tokens(query@).len() == 0 <==> r == Err::<(Regex, u8, u8), QueryError>(
            QueryError::InvalidQuery,
        ),
        r matches Ok((re, num_unique_terms, total_possible_length)) ==> {
            &&& regex_source(re) == pattern_text(query_terms(query@))
            &&& num_unique_terms == saturated(query_terms(query@).len())
            &&& total_possible_length == saturated(total_length(query_terms(query@)))
        },
{
    let terms = split_terms(query);
    proof {
        lemma_terms_empty(escaped_all(tokens(query@)));
    }
    if terms.len() == 0 {
        return Err(QueryError::InvalidQuery);
    }
    let pattern = build_pattern(&terms);
    finish_query(&terms, compile_pattern(pattern.as_str()))
}

/// The pattern compiled for a query.
pub open spec fn query_pattern(query: Seq<char>) -> Seq<char> {
    pattern_text(query_terms(query))
}

/// The number of distinct terms of a query, capped at 255.
pub open spec fn query_term_count(query: Seq<char>) -> u8 {
    saturated(query_terms(query).len())
}

/// The sum of the byte lengths of the distinct terms of a query, capped at
/// 255.
pub open spec fn query_term_length(query: Seq<char>) -> u8 {
    saturated(total_length(query_terms(query)))
}

/// A compiled query: its text, the pattern over its terms and the two
/// statistics of the terms. It never changes once it is made.
pub struct Query {
    text: String,
    regex: Regex,
    num_unique_terms: u8,
    total_possible_length: u8,
}

impl Query {
    /// The pattern and the two statistics are those of the text.
    #[verifier::type_invariant]
    spec fn well_formed(&self) -> bool {
        &&& regex_source(self.regex) == query_pattern(self.text@)
        &&& self.num_unique_terms == query_term_count(self.text@)
        &&& self.total_possible_length == query_term_length(self.text@)
    }

    /// The text that was compiled.
    pub closed spec fn text(&self) -> Seq<char> {
        self.text@
    }

    /// The compiled pattern.
    pub closed spec fn compiled(&self) -> Regex {
        self.regex
    }

    /// Compiles `query`. A query without any term is refused as
    /// `InvalidQuery`; a query with terms is refused only when the regex
    /// engine does not accept their pattern.
    pub fn compile(query: &str) -> (r: Result<Query, QueryError>)
        ensures
            tokens(query@).len() == 0 <==> r matches Err(QueryError::InvalidQuery),
            r matches Ok(compiled) ==> compiled.text() == query@ && regex_source(
                compiled.compiled(),
            ) == query_pattern(query@),
    {
        match get_query_regex(query) {
            Ok((regex, num_unique_terms, total_possible_length)) => Ok(
                Query { text: query.to_owned(), regex, num_unique_terms, total_possible_length },
            ),
            Err(e) => Err(e),
        }
    }

    /// The text that was compiled.
    pub fn as_str(&self) -> (r: &str)
        ensures
            r@ == self.text(),
    {
        self.text.as_str()
    }

    /// The compiled pattern, which was built from the pattern of the text.
    pub fn regex(&self) -> (r: &Regex)
        ensures
            *r == self.compiled(),
            regex_source(*r) == query_pattern(self.text()),
    {
        proof {
            use_type_invariant(self);
        }
        &self.regex
    }

    /// The number of distinct terms, capped at 255.
    pub fn num_unique_terms(&self) -> (n: u8)
        ensures
            n == query_term_count(self.text()),
    {
        proof {
            use_type_invariant(self);
        }
        self.num_unique_terms
    }

    /// The sum of the byte lengths of the distinct terms, capped at 255.
    pub fn total_possible_length(&self) -> (n: u8)
        ensures
            n == query_term_length(self.text()),
    {
        proof {
            use_type_invariant(self);
        }
        self.total_possible_length
    }
}

/// Whether every character of `s` is whitespace; so it is when `s` is empty.
pub open spec fn is_blank(s: Seq<char>) -> bool {
    forall|i: int| 0 <= i < s.len() ==> is_whitespace(#[trigger] s[i])
}

/// Reading on from `s` gives no word exactly when no word was begun and
/// `s` is blank.
proof fn lemma_no_words(s: Seq<char>, word: Seq<char>)
    ensures
        words_after(s, word).len() == 0 <==> word.len() == 0 && is_blank(s),
    decreases s.len(),
{
    if s.len() > 0 {
        let rest = s.drop_first();
        assert forall|i: int| 0 <= i < rest.len() implies rest[i] == s[i + 1] by {}
        if is_whitespace(s[0]) {
            lemma_no_words(rest, seq![]);
            if is_blank(rest) {
                assert forall|i: int| 0 <= i < s.len() implies is_whitespace(
                    #[trigger] s[i],
                ) by {
                    if i > 0 {
                        assert(s[i] == rest[i - 1]);
                    }
                }
            }
            if is_blank(s) {
                assert forall|i: int| 0 <= i < rest.len() implies is_whitespace(
                    #[trigger] rest[i],
                ) by {
                    assert(rest[i] == s[i + 1]);
                }
            }
        } else {
            lemma_no_words(rest, word.push(s[0]));
        }
    }
}

/// A query has no term exactly when it is blank: `InvalidQuery` is the
/// answer to the empty query and to those made of whitespace, and to no
/// other.
pub proof fn lemma_no_terms_iff_blank(query: Seq<char>)
    ensures
        tokens(query).len() == 0 <==> is_blank(query),
        query_terms(query).len() == 0 <==> is_blank(query),
{
    lemma_no_words(query, seq![]);
    lemma_terms_empty(escaped_all(tokens(query)));
}

/// Removing repetitions leaves nothing only if there was nothing.
pub proof fn lemma_terms_empty(items: Seq<Seq<char>>)
    ensures
        unique_terms(items).len() == 0 <==> items.len() == 0,
    decreases items.len(),
{
    if items.len() > 0 {
        lemma_terms_empty(items.drop_last());
        let before = unique_terms(items.drop_last());
        if before.contains(items.last()) {
            assert(before.len() > 0);
        }
    }
}

} // verus!
