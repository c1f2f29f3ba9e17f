//! In-network post retrieval and ranking decisions.
//!
//! `post_store` keeps the recent posts of every author in per-author deques and
//! serves them back under the reply, retweet and deletion rules; `service` turns an
//! in-network request into a store query and keeps the most recent posts;
//! `ranking_scorer` holds the integer decisions of the ranking stage.

pub mod config;
pub mod post;
pub mod concurrent_map;
pub mod store_spec;
pub mod post_store;
pub mod sorting;
pub mod clock;
pub mod service;
pub mod ranking_scorer;
pub mod laws;
pub mod store_laws;
