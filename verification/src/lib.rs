//! A small automated social-media account library.
//!
//! Two verified pieces: a follow-graph differ that recommends accounts by
//! set-difference sampling, and a content pipeline that normalizes post
//! text, extracts candidate words by morphological classification, picks
//! one uniformly, and publishes it with bounded retry.

pub mod config;
pub mod graph;
pub mod publish;
pub mod rng;
pub mod sampler;
pub mod select;
pub mod text;
pub mod tokens;
