//! Episode identification engine for a television series.
//!
//! The library matches a video file to one episode of a series: it keeps a
//! two-level episode cache (keyed by case-folded production code and by
//! season/episode pair), extracts production-code-shaped candidates from
//! text recognized in video frames, drives the paginated synchronization of
//! the remote episode catalog that fills the cache, and generates the new
//! file name for a matched episode.
//!
//! All input and output (HTTP, frame extraction, optical character
//! recognition, prompting) happens outside this crate; the library works on
//! the plain values those steps produce and states what it computes in its
//! contracts.

pub mod cache;
pub mod matchers;
pub mod models;
pub mod ocr;
pub mod rename;
pub mod subtitles;
pub mod tvdb;
pub mod text;

mod kv;
