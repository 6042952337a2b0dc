//! Match statistics of a pattern over the four text fields of a result.

use vstd::prelude::*;
use vstd::string::StringSliceAdditionalSpecFns;
use vstd::utf8::encode_utf8;
use regex::Regex;
use crate::bindings::{
    find_spans, lowercase, lowercased, match_spans, spans_within, split_url, url_parts, UrlParts,
};
use crate::search_result::SearchResult;
use crate::text::byte_len;

verus! {

/// The statistics of the matches of a pattern in one text field.
#[derive(Clone, Copy, Debug, PartialEq, Eq, Structural)]
pub struct MatchFeatures {
    /// Byte offset of the end of the last match that brought a new term, or
    /// 1 when nothing matched; capped at 255.
    pub last_char: u8,
    /// Sum of the byte lengths of the distinct matched terms, capped at 255.
    pub length: u8,
    /// Sum of the byte lengths of the terms of the query, capped at 255.
    pub total_possible_length: u8,
    /// Number of distinct matched terms, capped at 255.
    pub num_terms: u8,
    /// Number of distinct terms of the query, capped at 255.
    pub num_unique_terms: u8,
}

/// The match statistics of the four fields of one result.
#[derive(Clone, Copy, Debug, PartialEq, Eq, Structural)]
pub struct Features {
    pub title_match: MatchFeatures,
    pub extract_match: MatchFeatures,
    pub domain_match: MatchFeatures,
    pub path_match: MatchFeatures,
}

/// `n`, or 255 when `n` does not fit in eight bits.
pub open spec fn saturated(n: nat) -> u8 {
    if n > 255 {
        255u8
    } else {
        n as u8
    }
}

/// The bytes that a span covers.
pub open spec fn term_at(bytes: Seq<u8>, span: (usize, usize)) -> Seq<u8> {
    bytes.subrange(span.0 as int, span.1 as int)
}

/// Whether the term of match `i` was already matched further left.
pub open spec fn seen_before(bytes: Seq<u8>, spans: Seq<(usize, usize)>, i: int) -> bool {
    exists|j: int| 0 <= j < i && term_at(bytes, #[trigger] spans[j]) == term_at(bytes, spans[i])
}

/// Sum of the lengths of the terms first seen among the first `n` matches.
pub open spec fn matched_length(bytes: Seq<u8>, spans: Seq<(usize, usize)>, n: nat) -> nat
    decreases n,
{
    if n == 0 {
        0
    } else if seen_before(bytes, spans, n - 1) {
        matched_length(bytes, spans, (n - 1) as nat)
    } else {
        matched_length(bytes, spans, (n - 1) as nat) + (spans[n - 1].1 - spans[n - 1].0) as nat
    }
}

/// End of the last of the first `n` matches that brought a new term; 1 when
/// there is none.
pub open spec fn last_match_end(bytes: Seq<u8>, spans: Seq<(usize, usize)>, n: nat) -> nat
    decreases n,
{
    if n == 0 {
        1
    } else if seen_before(bytes, spans, n - 1) {
        last_match_end(bytes, spans, (n - 1) as nat)
    } else {
        spans[n - 1].1 as nat
    }
}

/// Number of distinct terms among the first `n` matches.
pub open spec fn distinct_terms(bytes: Seq<u8>, spans: Seq<(usize, usize)>, n: nat) -> nat
    decreases n,
{
    if n == 0 {
        0
    } else if seen_before(bytes, spans, n - 1) {
        distinct_terms(bytes, spans, (n - 1) as nat)
    } else {
        distinct_terms(bytes, spans, (n - 1) as nat) + 1
    }
}

/// The statistics of a field whose text is `text` and in which the pattern
/// matched at `spans`, for a query of `unique` distinct terms that take
/// `total` bytes together.
pub open spec fn field_features(
    text: Seq<char>,
    spans: Seq<(usize, usize)>,
    total: u8,
    unique: u8,
) -> MatchFeatures {
    let bytes = encode_utf8(text);
    MatchFeatures {
        last_char: saturated(last_match_end(bytes, spans, spans.len())),
        length: saturated(matched_length(bytes, spans, spans.len())),
        total_possible_length: total,
        num_terms: saturated(distinct_terms(bytes, spans, spans.len())),
        num_unique_terms: unique,
    }
}

/// The statistics of the matches of the compiled regex `re` in `text`.
pub open spec fn field_match(re: Regex, text: Seq<char>, total: u8, unique: u8) -> MatchFeatures {
    field_features(text, match_spans(re, text), total, unique)
}

/// The url that stands in for one that does not parse.
pub open spec fn missing_url() -> Seq<char> {
    "https://_.com"@
}

/// Domain and path of `url`; those of the stand-in url when `url` does not
/// parse, and no domain with the root path should the stand-in not parse.
pub open spec fn resolved_parts(url: Seq<char>) -> (Option<Seq<char>>, Seq<char>) {
    match url_parts(url) {
        Some(parts) => parts,
        None => match url_parts(missing_url()) {
            Some(parts) => parts,
            None => (None, "/"@),
        },
    }
}

/// The domain that is searched for a url: empty when the url has none.
pub open spec fn domain_text(url: Seq<char>) -> Seq<char> {
    match resolved_parts(url).0 {
        Some(d) => d,
        None => Seq::empty(),
    }
}

/// The path that is searched for a url.
pub open spec fn path_text(url: Seq<char>) -> Seq<char> {
    resolved_parts(url).1
}

/// The features of `result` under the compiled regex `re`: title and
/// extract are searched in lower case, domain and path as the url gives them.
pub open spec fn features_of(re: Regex, result: SearchResult, total: u8, unique: u8) -> Features {
    Features {
        title_match: field_match(re, lowercased(result.title_text()), total, unique),
        extract_match: field_match(re, lowercased(result.extract_text()), total, unique),
        domain_match: field_match(re, domain_text(result.url_text()), total, unique),
        path_match: field_match(re, path_text(result.url_text()), total, unique),
    }
}

/// The set of the terms of the first `n` matches.
pub open spec fn matched_terms(bytes: Seq<u8>, spans: Seq<(usize, usize)>, n: nat) -> Set<Seq<u8>> {
    Set::new(
        |term: Seq<u8>| exists|j: int| 0 <= j < n && term_at(bytes, #[trigger] spans[j]) == term,
    )
}

/// The number of distinct terms is the size of the set of matched terms:
/// however often a term is matched, it is counted once.
pub proof fn lemma_distinct_terms_count(bytes: Seq<u8>, spans: Seq<(usize, usize)>, n: nat)
    ensures
        matched_terms(bytes, spans, n).finite(),
        matched_terms(bytes, spans, n).len() == distinct_terms(bytes, spans, n),
    decreases n,
{
    if n == 0 {
        assert(matched_terms(bytes, spans, 0) =~= Set::<Seq<u8>>::empty());
    } else {
        let m = (n - 1) as nat;
        let term = term_at(bytes, spans[n - 1]);
        let before = matched_terms(bytes, spans, m);
        lemma_distinct_terms_count(bytes, spans, m);
        assert(before.contains(term) == seen_before(bytes, spans, n - 1));
        assert forall|t: Seq<u8>| matched_terms(bytes, spans, n).contains(t) implies before.insert(
            term,
        ).contains(t) by {
            let j = choose|j: int| 0 <= j < n && term_at(bytes, #[trigger] spans[j]) == t;
            if j < m {
                assert(before.contains(t));
            }
        }
        assert forall|t: Seq<u8>| before.insert(term).contains(t) implies matched_terms(
            bytes,
            spans,
            n,
        ).contains(t) by {
            if t == term {
                assert(term_at(bytes, spans[n - 1]) == t);
            } else {
                let j = choose|j: int| 0 <= j < m && term_at(bytes, #[trigger] spans[j]) == t;
                assert(0 <= j < n);
            }
        }
        assert(matched_terms(bytes, spans, n) =~= before.insert(term));
    }
}

/// Every url that does not parse is searched as the stand-in url is: its
/// domain and path statistics are those of the stand-in, whatever it holds.
pub proof fn lemma_unparsed_url(
    re: Regex,
    result: SearchResult,
    stand_in: SearchResult,
    total: u8,
    unique: u8,
)
    requires
        url_parts(result.url_text()) is None,
        stand_in.url_text() == missing_url(),
    ensures
        features_of(re, result, total, unique).domain_match == features_of(
            re,
            stand_in,
            total,
            unique,
        ).domain_match,
        features_of(re, result, total, unique).path_match == features_of(
            re,
            stand_in,
            total,
            unique,
        ).path_match,
{
    assert(resolved_parts(result.url_text()) == resolved_parts(missing_url()));
}

/// Whether `term` is the term of one of the spans in `seen`.
pub open spec fn term_among(bytes: Seq<u8>, seen: Seq<(usize, usize)>, term: Seq<u8>) -> bool {
    exists|k: int| 0 <= k < seen.len() && term_at(bytes, #[trigger] seen[k]) == term
}

/// Whether `seen` holds the spans of the first `n` matches that brought a
/// new term: each of these matches has its term in `seen`, and each span in
/// `seen` is one of them.
pub open spec fn collects(
    bytes: Seq<u8>,
    spans: Seq<(usize, usize)>,
    n: int,
    seen: Seq<(usize, usize)>,
) -> bool {
    &&& forall|j: int|
        0 <= j < n ==> term_among(bytes, seen, term_at(bytes, #[trigger] spans[j]))
    &&& forall|k: int|
        0 <= k < seen.len() ==> term_among(
            bytes,
            spans.take(n),
            term_at(bytes, #[trigger] seen[k]),
        )
}

/// With the terms of the matches before `i` collected in `seen`, match `i`
/// repeats an earlier term exactly when its term is among `seen`.
proof fn lemma_seen_before(
    bytes: Seq<u8>,
    spans: Seq<(usize, usize)>,
    i: int,
    seen: Seq<(usize, usize)>,
)
    requires
        0 <= i < spans.len(),
        collects(bytes, spans, i, seen),
    ensures
        seen_before(bytes, spans, i) == term_among(bytes, seen, term_at(bytes, spans[i])),
{
    let term = term_at(bytes, spans[i]);
    if term_among(bytes, seen, term) {
        let k = choose|k: int| 0 <= k < seen.len() && term_at(bytes, #[trigger] seen[k]) == term;
        assert(term_among(bytes, spans.take(i), term_at(bytes, seen[k])));
        let j = choose|j: int|
            0 <= j < spans.take(i).len() && term_at(bytes, #[trigger] spans.take(i)[j]) == term;
        assert(spans.take(i)[j] == spans[j]);
        assert(0 <= j < i && term_at(bytes, spans[j]) == term_at(bytes, spans[i]));
    }
    if seen_before(bytes, spans, i) {
        let j = choose|j: int|
            0 <= j < i && term_at(bytes, #[trigger] spans[j]) == term_at(bytes, spans[i]);
        assert(term_among(bytes, seen, term_at(bytes, spans[j])));
    }
}

/// Going on to the next match keeps the collection: a match with a new term
/// has its span added, another leaves `seen` as it is.
proof fn lemma_collects_next(
    bytes: Seq<u8>,
    spans: Seq<(usize, usize)>,
    i: int,
    seen: Seq<(usize, usize)>,
)
    requires
        0 <= i < spans.len(),
        collects(bytes, spans, i, seen),
    ensures
        seen_before(bytes, spans, i) ==> collects(bytes, spans, i + 1, seen),
        !seen_before(bytes, spans, i) ==> collects(bytes, spans, i + 1, seen.push(spans[i])),
{
    lemma_seen_before(bytes, spans, i, seen);
    let next = if seen_before(bytes, spans, i) {
        seen
    } else {
        seen.push(spans[i])
    };
    assert forall|j: int| 0 <= j < i + 1 implies term_among(
        bytes,
        next,
        term_at(bytes, #[trigger] spans[j]),
    ) by {
        let term = term_at(bytes, spans[j]);
        if j < i || seen_before(bytes, spans, i) {
            assert(term_among(bytes, seen, term));
            let k = choose|k: int|
                0 <= k < seen.len() && term_at(bytes, #[trigger] seen[k]) == term;
            assert(next[k] == seen[k]);
        } else {
            assert(next[seen.len() as int] == spans[i]);
        }
    }
    assert forall|k: int| 0 <= k < next.len() implies term_among(
        bytes,
        spans.take(i + 1),
        term_at(bytes, #[trigger] next[k]),
    ) by {
        let term = term_at(bytes, next[k]);
        if k < seen.len() {
            assert(next[k] == seen[k]);
            assert(term_among(bytes, spans.take(i), term));
            let j = choose|j: int|
                0 <= j < spans.take(i).len() && term_at(bytes, #[trigger] spans.take(i)[j])
                    == term;
            assert(spans.take(i + 1)[j] == spans.take(i)[j]);
        } else {
            assert(spans.take(i + 1)[i] == next[k]);
        }
    }
}

/// Narrows a count to eight bits, capping it at 255.
pub fn saturate(n: usize) -> (r: u8)
    ensures
        r == saturated(n as nat),
{
    if n > 255 {
        255
    } else {
        n as u8
    }
}

/// Whether two spans of `bytes` cover the same bytes.
fn same_term(bytes: &[u8], a: (usize, usize), b: (usize, usize)) -> (r: bool)
    requires
        a.0 <= a.1 <= bytes@.len(),
        b.0 <= b.1 <= bytes@.len(),
    ensures
        r == (term_at(bytes@, a) == term_at(bytes@, b)),
{
    if a.1 - a.0 != b.1 - b.0 {
        assert(term_at(bytes@, a).len() != term_at(bytes@, b).len());
        return false;
    }
    let n: usize = a.1 - a.0;
    let mut k: usize = 0;
    while k < n
        invariant
            a.0 <= a.1 <= bytes@.len(),
            b.0 <= b.1 <= bytes@.len(),
            n == a.1 - a.0,
            n == b.1 - b.0,
            k <= n,
            forall|j: int|
                0 <= j < k ==> #[trigger] term_at(bytes@, a)[j] == term_at(bytes@, b)[j],
        decreases n - k,
    {
        if bytes[a.0 + k] != bytes[b.0 + k] {
            assert(term_at(bytes@, a)[k as int] != term_at(bytes@, b)[k as int]);
            return false;
        }
        k += 1;
    }
    assert(term_at(bytes@, a) =~= term_at(bytes@, b));
    true
}

/// Whether the term under `span` is the term of one of the spans in `seen`.
fn is_seen(bytes: &[u8], seen: &Vec<(usize, usize)>, span: (usize, usize)) -> (r: bool)
    requires
        spans_within(seen@, bytes@.len()),
        span.0 <= span.1 <= bytes@.len(),
    ensures
        r == term_among(bytes@, seen@, term_at(bytes@, span)),
{
    let mut k: usize = 0;
    while k < seen.len()
        invariant
            spans_within(seen@, bytes@.len()),
            span.0 <= span.1 <= bytes@.len(),
            k <= seen.len(),
            forall|j: int|
                0 <= j < k ==> term_at(bytes@, #[trigger] seen[j]) != term_at(bytes@, span),
        decreases seen.len() - k,
    {
        if same_term(bytes, seen[k], span) {
            return true;
        }
        k += 1;
    }
    false
}

/// Computes the statistics of one field from its text and the spans at
/// which the pattern matched in it, taken from left to right. A match whose
/// text was already matched further left counts for nothing; every other
/// match adds its length, counts as one term, and moves the last end.
pub fn match_features(text: &str, spans: &Vec<(usize, usize)>, total: u8, unique: u8) -> (r:
    MatchFeatures)
    requires
        spans_within(spans@, byte_len(text@)),
    ensures
        r == field_features(text@, spans@, total, unique),
{
    let bytes = text.as_bytes();
    let mut seen: Vec<(usize, usize)> = Vec::new();
    let mut last: usize = 1;
    let mut length: usize = 0;
    let mut i: usize = 0;
    while i < spans.len()
        invariant
            bytes@ == encode_utf8(text@),
            spans_within(spans@, bytes@.len()),
            spans_within(seen@, bytes@.len()),
            i <= spans.len(),
            seen.len() == distinct_terms(bytes@, spans@, i as nat),
            last == last_match_end(bytes@, spans@, i as nat),
            length == saturated(matched_length(bytes@, spans@, i as nat)),
            collects(bytes@, spans@, i as int, seen@),
        decreases spans.len() - i,
    {
        let span = spans[i];
        let found = is_seen(bytes, &seen, span);
        proof {
            lemma_seen_before(bytes@, spans@, i as int, seen@);
            lemma_collects_next(bytes@, spans@, i as int, seen@);
        }
        if !found {
            seen.push(span);
            last = span.1;
            let len = span.1 - span.0;
            length = if len >= 255 - length {
                255
            } else {
                length + len
            };
        }
        i += 1;
    }
    MatchFeatures {
        last_char: saturate(last),
        length: saturate(length),
        total_possible_length: total,
        num_terms: saturate(seen.len()),
        num_unique_terms: unique,
    }
}

/// The statistics of the matches of `query_regex` in `text`.
fn search_field(query_regex: &Regex, text: &str, total: u8, unique: u8) -> (r: MatchFeatures)
    ensures
        r == field_match(*query_regex, text@, total, unique),
{
    let spans = find_spans(query_regex, text);
    match_features(text, &spans, total, unique)
}

/// Domain and path of `url`, falling back on the stand-in url.
fn resolve_url(url: &str) -> (r: UrlParts)
    ensures
        r@ == resolved_parts(url@),
{
    match split_url(url) {
        Some(parts) => parts,
        None => match split_url("https://_.com") {
            Some(parts) => parts,
            None => UrlParts { domain: None, path: "/".to_owned() },
        },
    }
}

/// Extracts the match statistics of the four fields of a result. Title and
/// extract are lower-cased before they are searched; domain and path are
/// read from the url, or from the stand-in url when it does not parse, and
/// searched as they are. The query's `total_possible_length` and
/// `num_unique_terms` are recorded in each field's statistics.
pub fn get_features(
    query_regex: &Regex,
    search_result: SearchResult,
    total_possible_length: u8,
    num_unique_terms: u8,
) -> (features: Features)
    ensures
        features == features_of(
            *query_regex,
            search_result,
            total_possible_length,
            num_unique_terms,
        ),
{
    let parts = resolve_url(search_result.url());
    let title = lowercase(search_result.title());
    let extract = lowercase(search_result.extract());
    let title_match = search_field(
        query_regex,
        title.as_str(),
        total_possible_length,
        num_unique_terms,
    );
    let extract_match = search_field(
        query_regex,
        extract.as_str(),
        total_possible_length,
        num_unique_terms,
    );
    let domain_match = match &parts.domain {
        Some(d) => search_field(query_regex, d.as_str(), total_possible_length, num_unique_terms),
        None => {
            proof {
                reveal_strlit("");
                assert(""@ =~= Seq::<char>::empty());
            }
            search_field(query_regex, "", total_possible_length, num_unique_terms)
        },
    };
    let path_match = search_field(
        query_regex,
        parts.path.as_str(),
        total_possible_length,
        num_unique_terms,
    );
    Features { title_match, extract_match, domain_match, path_match }
}

} // verus!
