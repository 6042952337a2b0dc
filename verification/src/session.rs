//! A ranking session: one compiled query and the results gathered for it.

use vstd::prelude::*;
use regex::Regex;
use crate::bindings::{regex_source, texts, tokens};
use crate::features::{features_of, get_features, Features};
use crate::query::{
    display_terms, query_pattern, query_term_count, query_term_length, shown_terms, Query,
    QueryError,
};
use crate::ranking::{is_ranking, lemma_ranking_unique, rank_keys};
use crate::search_result::{
    SearchResult, MAX_EXTRACT_LENGTH, MAX_TITLE_LENGTH, MAX_URL_LENGTH,
};
use crate::text::{byte_len, shortened};

verus! {

/// A ranking session. It owns the compiled query and the results added so
/// far, in the order in which they were added.
pub struct Ranker {
    query: Query,
    search_results: Vec<SearchResult>,
}

impl Ranker {
    /// The query of this session.
    pub closed spec fn query_text(&self) -> Seq<char> {
        self.query.text()
    }

    /// The results added so far, in insertion order.
    pub closed spec fn results(&self) -> Seq<SearchResult> {
        self.search_results@
    }

    /// The pattern compiled for the query.
    pub closed spec fn pattern(&self) -> Regex {
        self.query.compiled()
    }

    /// The features of the result at index `i`.
    pub open spec fn features_at(&self, i: int) -> Features {
        features_of(
            self.pattern(),
            self.results()[i],
            query_term_length(self.query_text()),
            query_term_count(self.query_text()),
        )
    }

    /// The byte length of the url of the result at index `i`.
    pub open spec fn url_len_at(&self, i: int) -> usize {
        byte_len(self.results()[i].url_text()) as usize
    }

    /// Whether `keys` are score keys that `score` may give to the results
    /// of this session, one for each, in insertion order.
    pub open spec fn scored_by<F: Fn(Features, usize) -> u32>(&self, score: F, keys: Seq<u32>)
        -> bool {
        &&& keys.len() == self.results().len()
        &&& forall|i: int|
            0 <= i < keys.len() ==> call_ensures(
                score,
                (self.features_at(i), self.url_len_at(i)),
                #[trigger] keys[i],
            )
    }

    /// Opens a session for `query`, with no result yet. A query without any
    /// term is refused as `InvalidQuery`; a query with terms is refused only
    /// when the regex engine does not accept their pattern.
    pub fn new(query: &str) -> (r: Result<Ranker, QueryError>)
        ensures
            tokens(query@).len() == 0 <==> r matches Err(QueryError::InvalidQuery),
            r matches Ok(ranker) ==> {
                &&& ranker.query_text() == query@
                &&& ranker.results() == Seq::<SearchResult>::empty()
                &&& regex_source(ranker.pattern()) == query_pattern(query@)
            },
    {
        match Query::compile(query) {
            Ok(query) => Ok(Ranker { query, search_results: Vec::new() }),
            Err(e) => Err(e),
        }
    }

    /// The terms to show for the query: its distinct tokens, then its
    /// distinct pairs of neighbouring tokens. They play no part in ranking.
    pub fn get_query_terms(&self) -> (r: Vec<String>)
        ensures
            texts(r@) == shown_terms(self.query_text()),
    {
        display_terms(self.query.as_str())
    }

    /// Adds a result at the end, each field cut down to its bound.
    pub fn add_search_result(&mut self, url: &str, title: &str, extract: &str)
        ensures
            final(self).query_text() == old(self).query_text(),
            final(self).pattern() == old(self).pattern(),
            final(self).results().len() == old(self).results().len() + 1,
            final(self).results().drop_last() == old(self).results(),
            final(self).results().last().url_text() == shortened(url@, MAX_URL_LENGTH as int),
            final(self).results().last().title_text() == shortened(
                title@,
                MAX_TITLE_LENGTH as int,
            ),
            final(self).results().last().extract_text() == shortened(
                extract@,
                MAX_EXTRACT_LENGTH as int,
            ),
    {
        let ghost before = self.search_results@;
        self.search_results.push(SearchResult::new(url, title, extract));
        assert(self.search_results@.drop_last() =~= before);
    }

    /// The number of results added so far.
    pub fn len(&self) -> (n: usize)
        ensures
            n == self.results().len(),
    {
        self.search_results.len()
    }

    /// The number of distinct terms of the query, capped at 255.
    pub fn num_unique_terms(&self) -> (n: u8)
        ensures
            n == query_term_count(self.query_text()),
    {
        self.query.num_unique_terms()
    }

    /// The sum of the byte lengths of the distinct terms of the query,
    /// capped at 255.
    pub fn total_possible_match_length(&self) -> (n: u8)
        ensures
            n == query_term_length(self.query_text()),
    {
        self.query.total_possible_length()
    }

    /// The features of the result at index `i`, if there is one.
    pub fn features(&self, i: usize) -> (r: Option<Features>)
        ensures
            i < self.results().len() ==> r == Some(self.features_at(i as int)),
            i >= self.results().len() ==> r is None,
    {
        if i < self.search_results.len() {
            Some(
                get_features(
                    self.query.regex(),
                    self.search_results[i],
                    self.query.total_possible_length(),
                    self.query.num_unique_terms(),
                ),
            )
        } else {
            None
        }
    }

    /// Ranks the results: `score` gives each result a key from its features
    /// and the byte length of its url, and the indices of the results are
    /// returned by descending key, results with equal keys in the order in
    /// which they were added. The session is left as it is and can be
    /// ranked again, or added to.
    pub fn rank<F: Fn(Features, usize) -> u32>(&self, score: F) -> (order: Vec<usize>)
        requires
            forall|i: int|
                0 <= i < self.results().len() ==> call_requires(
                    score,
                    (#[trigger] self.features_at(i), self.url_len_at(i)),
                ),
        ensures
            exists|keys: Seq<u32>| self.scored_by(score, keys) && is_ranking(keys, order@),
    {
        let mut keys: Vec<u32> = Vec::new();
        let mut i: usize = 0;
        while i < self.search_results.len()
            invariant
                i <= self.search_results.len(),
                keys.len() == i,
                forall|j: int|
                    0 <= j < self.results().len() ==> call_requires(
                        score,
                        (#[trigger] self.features_at(j), self.url_len_at(j)),
                    ),
                forall|j: int|
                    0 <= j < i ==> call_ensures(
                        score,
                        (self.features_at(j), self.url_len_at(j)),
                        #[trigger] keys[j],
                    ),
            decreases self.search_results.len() - i,
        {
            let result = self.search_results[i];
            let features = get_features(
                self.query.regex(),
                result,
                self.query.total_possible_length(),
                self.query.num_unique_terms(),
            );
            assert(features == self.features_at(i as int));
            let key = score(features, result.url_len());
            keys.push(key);
            i += 1;
        }
        let order = rank_keys(&keys);
        assert(self.scored_by(score, keys@));
        order
    }

    /// Ranking a session again, with nothing added in between and with a
    /// scorer that gives one key to one result, gives the same order.
    pub proof fn lemma_rank_repeatable<F: Fn(Features, usize) -> u32>(
        &self,
        score: F,
        first: Seq<usize>,
        second: Seq<usize>,
    )
        requires
            forall|features: Features, url_len: usize, a: u32, b: u32|
                call_ensures(score, (features, url_len), a) && call_ensures(
                    score,
                    (features, url_len),
                    b,
                ) ==> a == b,
            exists|keys: Seq<u32>| self.scored_by(score, keys) && is_ranking(keys, first),
            exists|keys: Seq<u32>| self.scored_by(score, keys) && is_ranking(keys, second),
        ensures
            first == second,
    {
        let k1 = choose|keys: Seq<u32>| self.scored_by(score, keys) && is_ranking(keys, first);
        let k2 = choose|keys: Seq<u32>| self.scored_by(score, keys) && is_ranking(keys, second);
        assert forall|i: int| 0 <= i < k1.len() implies k1[i] == k2[i] by {
            assert(call_ensures(score, (self.features_at(i), self.url_len_at(i)), k1[i]));
            assert(call_ensures(score, (self.features_at(i), self.url_len_at(i)), k2[i]));
        }
        assert(k1 =~= k2);
        lemma_ranking_unique(k1, first, second);
    }
}

} // verus!
