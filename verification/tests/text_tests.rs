use ranker::search_result::{
    SearchResult, MAX_EXTRACT_LENGTH, MAX_TITLE_LENGTH, MAX_URL_LENGTH,
};
use ranker::text::{byte_length, shorten_string};

#[test]
fn short_strings_are_kept() {
    assert_eq!(shorten_string("hello", 10), "hello");
    assert_eq!(shorten_string("hello", 5), "hello");
    assert_eq!(shorten_string("", 0), "");
    assert_eq!(shorten_string("", 7), "");
}

#[test]
fn long_ascii_strings_are_cut_at_the_bound() {
    assert_eq!(shorten_string("hello", 3), "hel");
    assert_eq!(shorten_string("hello", 4), "hell");
    assert_eq!(shorten_string("abc", 0), "");
}

#[test]
fn a_character_is_never_split() {
    assert_eq!(shorten_string("h\u{e9}llo", 2), "h");
    assert_eq!(shorten_string("h\u{e9}llo", 3), "h\u{e9}");
    assert_eq!(shorten_string("\u{65e5}\u{672c}\u{8a9e}", 4), "\u{65e5}");
    assert_eq!(shorten_string("\u{65e5}\u{672c}\u{8a9e}", 5), "\u{65e5}");
    assert_eq!(shorten_string("\u{65e5}\u{672c}\u{8a9e}", 6), "\u{65e5}\u{672c}");
    assert_eq!(shorten_string("\u{65e5}\u{672c}\u{8a9e}", 2), "");
    assert_eq!(shorten_string("a\u{1f600}b", 1), "a");
    assert_eq!(shorten_string("a\u{1f600}b", 2), "a");
    assert_eq!(shorten_string("a\u{1f600}b", 3), "a");
    assert_eq!(shorten_string("a\u{1f600}b", 4), "a");
    assert_eq!(shorten_string("a\u{1f600}b", 5), "a\u{1f600}");
}

#[test]
fn every_cut_is_a_prefix_within_the_bound() {
    let samples = [
        "plain ascii text",
        "caf\u{e9} cr\u{e8}me br\u{fb}l\u{e9}e",
        "\u{65e5}\u{672c}\u{8a9e}\u{306e}\u{30c6}\u{30ad}\u{30b9}\u{30c8}",
        "\u{1f600}\u{1f601}\u{1f602}x\u{1f603}",
        "mixed \u{e9}\u{65e5}\u{1f600} widths",
    ];
    for s in samples {
        for max in 0..s.len() + 2 {
            let cut = shorten_string(s, max);
            assert!(cut.len() <= max);
            assert!(s.starts_with(cut));
            if s.len() <= max {
                assert_eq!(cut, s);
            } else {
                let next = s[cut.len()..].chars().next().unwrap();
                assert!(cut.len() + next.len_utf8() > max);
            }
        }
    }
}

#[test]
fn byte_length_counts_bytes() {
    assert_eq!(byte_length(""), 0);
    assert_eq!(byte_length("abc"), 3);
    assert_eq!(byte_length("h\u{e9}"), 3);
    assert_eq!(byte_length("\u{1f600}"), 4);
}

#[test]
fn result_fields_within_bounds_are_kept() {
    let result = SearchResult::new("https://example.com/", " A Title ", "An Extract.");
    assert_eq!(result.url(), "https://example.com/");
    assert_eq!(result.title(), " A Title ");
    assert_eq!(result.extract(), "An Extract.");
    assert_eq!(result.url_len(), 20);
}

#[test]
fn result_fields_at_their_bounds_are_kept() {
    let url = "u".repeat(MAX_URL_LENGTH);
    let title = "t".repeat(MAX_TITLE_LENGTH);
    let extract = "e".repeat(MAX_EXTRACT_LENGTH);
    let result = SearchResult::new(&url, &title, &extract);
    assert_eq!(result.url(), url);
    assert_eq!(result.title(), title);
    assert_eq!(result.extract(), extract);
    assert_eq!(result.url_len(), 200);
}

#[test]
fn result_fields_over_their_bounds_are_cut() {
    let url = "u".repeat(201);
    let title = "t".repeat(101);
    let extract = "e".repeat(1000);
    let result = SearchResult::new(&url, &title, &extract);
    assert_eq!(result.url(), "u".repeat(200));
    assert_eq!(result.title(), "t".repeat(100));
    assert_eq!(result.extract(), "e".repeat(200));
}

#[test]
fn result_fields_are_cut_before_a_character_that_straddles_the_bound() {
    let url = format!("{}\u{e9}z", "a".repeat(199));
    let title = format!("{}\u{1f600}", "x".repeat(99));
    let extract = format!("{}\u{65e5}\u{672c}", "y".repeat(198));
    let result = SearchResult::new(&url, &title, &extract);
    assert_eq!(result.url(), "a".repeat(199));
    assert_eq!(result.url_len(), 199);
    assert_eq!(result.title(), "x".repeat(99));
    assert_eq!(result.extract(), "y".repeat(198));
}

#[test]
fn result_fields_of_wide_characters_stay_valid_text() {
    let wide = "\u{1f600}".repeat(80);
    let result = SearchResult::new(&wide, &wide, &wide);
    assert_eq!(result.url(), "\u{1f600}".repeat(50));
    assert_eq!(result.title(), "\u{1f600}".repeat(25));
    assert_eq!(result.extract(), "\u{1f600}".repeat(50));
    let three = "\u{65e5}".repeat(80);
    let result = SearchResult::new(&three, &three, &three);
    assert_eq!(result.url(), "\u{65e5}".repeat(66));
    assert_eq!(result.title(), "\u{65e5}".repeat(33));
    assert_eq!(result.extract().len(), 198);
}

#[test]
fn a_result_is_copied_whole() {
    let result = SearchResult::new("https://example.com/", "Title", "Extract");
    let copy = result;
    assert_eq!(copy.url(), result.url());
    assert_eq!(copy.title(), "Title");
    assert_eq!(copy.extract(), "Extract");
}
