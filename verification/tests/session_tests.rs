use ranker::features::{get_features, Features};
use ranker::query::{get_query_regex, QueryError};
use ranker::search_result::SearchResult;
use ranker::session::Ranker;

fn field_score(length: u8, total: u8, last_char: u8) -> f32 {
    let score = f64::powf(2.0, length as f64 - total as f64) / last_char as f64;
    score as f32
}

fn score_bits(features: Features, url_len: usize) -> u32 {
    let t = features.title_match;
    let e = features.extract_match;
    let d = features.domain_match;
    let p = features.path_match;
    let match_score = 4.0 * field_score(t.length, t.total_possible_length, t.last_char)
        + field_score(e.length, e.total_possible_length, e.last_char)
        + 4.0 * field_score(d.length, d.total_possible_length, d.last_char)
        + 2.0 * field_score(p.length, p.total_possible_length, p.last_char);
    let length_penalty = f32::exp(-0.04 * url_len as f32);
    (match_score * length_penalty / 10.0).to_bits()
}

#[test]
fn construct_some_search_results() {
    let mut ranker = Ranker::new("url").unwrap();
    ranker.add_search_result("https://en.wikipedia.org/wiki/URL", "URL", "A URL is a reference to a web resource that specifies its location on a computer network and a mechanism for retrieving it.");

    assert_eq!(ranker.len(), 1);
}

#[test]
fn test_get_query_regex() {
    let query = "web web";
    let (regex, num_unique_terms, max_length) = get_query_regex(query).unwrap();
    assert_eq!(regex.as_str(), "\\bweb\\b");
    assert_eq!(max_length, 3);
    assert_eq!(num_unique_terms, 1);
}

#[test]
fn test_get_features() {
    let query = "url";
    let (regex, num_unique_terms, total_possible_length) = get_query_regex(query).unwrap();
    let search_result = SearchResult::new("https://en.wikipedia.org/wiki/URL", " URL", "A URL is a reference to a web resource that specifies its location on a computer network and a mechanism for retrieving it.");
    let features = get_features(
        &regex,
        search_result,
        total_possible_length,
        num_unique_terms,
    );
    println!("{:#?}", features);
    assert_eq!(features.title_match.length, 3);
    assert_eq!(features.title_match.last_char, 4);
    assert_eq!(features.title_match.num_terms, 1);
    let title = features.title_match;
    assert_eq!(field_score(title.length, title.total_possible_length, title.last_char), 0.25);
    assert_eq!(title.num_terms as f32 / title.num_unique_terms as f32, 1.0);
}

#[test]
fn new_session_is_empty() {
    let ranker = Ranker::new("search engine").unwrap();
    assert_eq!(ranker.len(), 0);
    assert_eq!(ranker.num_unique_terms(), 2);
    assert_eq!(ranker.total_possible_match_length(), 12);
    assert_eq!(ranker.rank(score_bits), Vec::<usize>::new());
    assert_eq!(ranker.features(0), None);
}

#[test]
fn new_session_refuses_a_query_without_terms() {
    assert!(matches!(Ranker::new(""), Err(QueryError::InvalidQuery)));
    assert!(matches!(Ranker::new(" \t\r\n"), Err(QueryError::InvalidQuery)));
    assert!(matches!(Ranker::new("\u{3000}\u{a0}"), Err(QueryError::InvalidQuery)));
    assert!(Ranker::new(" x ").is_ok());
}

#[test]
fn added_results_are_counted_and_cut_to_their_bounds() {
    let mut ranker = Ranker::new("url").unwrap();
    let long = "url ".repeat(100);
    ranker.add_search_result(&long, &long, &long);
    ranker.add_search_result("", "", "");
    assert_eq!(ranker.len(), 2);
    let features = ranker.features(0).unwrap();
    assert_eq!(features.title_match.length, 3);
    assert_eq!(features.title_match.last_char, 3);
    assert_eq!(features.title_match.num_terms, 1);
    assert_eq!(ranker.features(2), None);
}

#[test]
fn session_features_are_those_of_get_features() {
    let mut ranker = Ranker::new("wikipedia url").unwrap();
    ranker.add_search_result("https://en.wikipedia.org/wiki/URL", "URL - Wikipedia", "A URL");
    let (regex, n, total) = get_query_regex("wikipedia url").unwrap();
    let result = SearchResult::new("https://en.wikipedia.org/wiki/URL", "URL - Wikipedia", "A URL");
    assert_eq!(ranker.features(0), Some(get_features(&regex, result, total, n)));
}

#[test]
fn rank_orders_by_descending_score() {
    let mut ranker = Ranker::new("url").unwrap();
    ranker.add_search_result("https://a.com/url", "x", "y");
    ranker.add_search_result("nonsense", "url", "y");
    ranker.add_search_result("https://b.com/", "url url", "url");
    assert_eq!(ranker.rank(score_bits), vec![1, 2, 0]);
}

#[test]
fn rank_twice_gives_the_same_order() {
    let mut ranker = Ranker::new("rust book").unwrap();
    ranker.add_search_result("https://doc.rust-lang.org/book/", "The Rust Book", "the book about rust");
    ranker.add_search_result("https://example.com/", "Example", "nothing here");
    ranker.add_search_result("https://rust.example.org/book", "book", "rust");
    ranker.add_search_result("https://example.com/", "Example", "nothing here");
    let first = ranker.rank(score_bits);
    let second = ranker.rank(score_bits);
    assert_eq!(first, second);
    assert_eq!(first.len(), 4);
    let mut sorted = first.clone();
    sorted.sort();
    assert_eq!(sorted, vec![0, 1, 2, 3]);
}

#[test]
fn rank_keeps_insertion_order_among_equal_scores() {
    let mut ranker = Ranker::new("rust").unwrap();
    ranker.add_search_result("https://example.com/a", "same", "same");
    ranker.add_search_result("https://example.com/b", "same", "same");
    ranker.add_search_result("https://example.com/c", "rust", "same");
    ranker.add_search_result("https://example.com/d", "same", "same");
    assert_eq!(ranker.rank(score_bits), vec![2, 0, 1, 3]);
    assert_eq!(ranker.rank(|_f: Features, _n: usize| 7), vec![0, 1, 2, 3]);
}

#[test]
fn rank_can_follow_further_additions() {
    let mut ranker = Ranker::new("rust").unwrap();
    ranker.add_search_result("https://example.com/a", "nothing", "nothing");
    assert_eq!(ranker.rank(score_bits), vec![0]);
    ranker.add_search_result("https://example.com/b", "rust", "rust");
    assert_eq!(ranker.rank(score_bits), vec![1, 0]);
}

#[test]
fn rank_uses_the_url_length_it_hands_to_the_scorer() {
    let mut ranker = Ranker::new("rust").unwrap();
    ranker.add_search_result("https://example.com/a/long/path", "t", "e");
    ranker.add_search_result("https://example.com/", "t", "e");
    ranker.add_search_result(&"u".repeat(500), "t", "e");
    assert_eq!(ranker.rank(|_f: Features, n: usize| n as u32), vec![2, 0, 1]);
    assert_eq!(ranker.rank(|_f: Features, n: usize| 1000 - n as u32), vec![1, 0, 2]);
}

#[test]
fn rank_survives_a_url_that_does_not_parse() {
    let mut ranker = Ranker::new("com").unwrap();
    ranker.add_search_result("::not a url::", "com", "com");
    ranker.add_search_result("", "", "");
    let order = ranker.rank(score_bits);
    assert_eq!(order, vec![1, 0]);
    assert_eq!(
        ranker.features(0).unwrap().domain_match,
        ranker.features(1).unwrap().domain_match
    );
    assert_eq!(
        ranker.features(0).unwrap().path_match,
        ranker.features(1).unwrap().path_match
    );
}

#[test]
fn query_terms_are_tokens_then_pairs() {
    let ranker = Ranker::new("a b a b c").unwrap();
    assert_eq!(ranker.get_query_terms(), vec!["a", "b", "c", "a b", "b a", "b c"]);
    let single = Ranker::new("  word ").unwrap();
    assert_eq!(single.get_query_terms(), vec!["word"]);
}
