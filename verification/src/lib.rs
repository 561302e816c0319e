//! Summarization engine for run-activity reports.
//!
//! The library holds the logic of a small reporting pipeline: it keeps an
//! OAuth2 access token valid across invocations (token lifecycle state
//! machine), picks the most recent run from an activity list, decodes a
//! trackpoint document into heart-rate / cumulative-distance samples, and
//! computes heart-rate statistics and per-kilometer split counts from them.
//! All I/O (HTTP, files, CLI) lives outside the library and hands in plain
//! values.

pub mod activity;
pub mod digits;
pub mod fitbit;
pub mod mastodon;
pub mod misskey;
pub mod scan;
pub mod tcx;
pub mod token;
