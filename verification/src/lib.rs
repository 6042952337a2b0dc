//! Client-side re-ranking of a small batch of search results.
//!
//! A query is compiled into a whole-word pattern over its distinct terms.
//! Each candidate result (url, title, extract) is stored in bounded fields,
//! and per-field match statistics are extracted from it. Results are then
//! ordered by descending score, ties keeping their insertion order.
//!
//! The library works on integers and text only. The score of a result is
//! supplied by the caller as a function from the result's features to an
//! unsigned key, so that any scoring formula can be used with it.

pub mod bindings;
pub mod features;
pub mod query;
pub mod ranking;
pub mod search_result;
pub mod session;
pub mod text;

pub use features::{get_features, match_features, Features, MatchFeatures};
pub use query::{get_query_regex, Query, QueryError};
pub use ranking::rank_keys;
pub use search_result::SearchResult;
pub use session::Ranker;
pub use text::shorten_string;
