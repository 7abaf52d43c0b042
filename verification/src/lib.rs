//! Rating lookup and charting for television shows.
//!
//! The crate resolves a free-text show name to a stable identifier,
//! turns scraped episode listings into per-season rating series,
//! assembles them into one atomic record per show, keeps the records
//! in a freshness-gated cache, and lays the series out as a single
//! continuous numbered-episode chart.
//!
//! Ratings are carried as whole tenths (`86` stands for a rating of
//! 8.6) so that every computation on them is exact; the sentinel
//! `PLACEHOLDER_TENTHS` marks an episode that is listed but not yet
//! rated.

use vstd::prelude::*;

pub mod api;
pub mod assoc;
pub mod error;
pub mod labels;
pub mod parse;
pub mod plot;
pub mod slack;
pub mod state;
pub mod tvshow;

verus! {

/// Sentinel rating value: the episode is listed but has no rating yet.
/// It corresponds to a displayed rating of -1.0.
pub const PLACEHOLDER_TENTHS: i32 = -10;

} // verus!
