//! Core of a metasearch aggregator: it fans a user query out to several
//! upstream search engines, merges the results they return under partial
//! failure, and caches the merged result sets for pagination-aware browsing.
//!
//! The crate holds the aggregation and caching logic itself; talking to the
//! network, loading configuration, and rendering pages are left to the
//! embedding application.

pub mod aggregator;
pub mod cache;
pub mod search;
pub mod config;
pub mod engines;
pub mod models;
pub mod seqs;
pub mod server_models;
pub mod text;
