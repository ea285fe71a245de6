//! A bot that announces new shogi puzzles: the verified decisions behind
//! scraping the puzzle listing, deduplicating against earlier posts and
//! building the post to publish.

pub mod bsky;
pub mod plan;
pub mod scraper;
