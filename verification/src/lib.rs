//! A verified search library for song lyric documents.
//!
//! A song document carries a tagged header (lines such as `#TITLE:...` and
//! `#ARTIST:...`) ahead of its body. This crate parses such headers, and
//! matches them against multi-word, case-insensitive queries: a document
//! matches a query exactly when every query token occurs as a substring of
//! the case-folded title, artist, or genre of its header.

pub mod header;
pub mod laws;
pub mod search;
pub mod text;
