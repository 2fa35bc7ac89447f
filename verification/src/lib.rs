//! Core of a terminal market dashboard: a watchlist/portfolio configuration
//! store, a text command language that mutates it, a sortable row model with
//! derived portfolio metrics, and the state machine that a UI event loop
//! drives. All quantities are fixed-point integers at a scale of one
//! millionth, so every computation here is exact integer arithmetic.

use vstd::prelude::*;

pub mod command;
pub mod config;
pub mod decimal;
pub mod fear_greed;
pub mod formatters;
pub mod logger;
pub mod market;
pub mod metrics;
pub mod pipeline;
pub mod rows;
pub mod sort;
pub mod state;
pub mod text;

verus! {

/// Fixed-point scale: raw values count millionths of a unit.
pub const SCALE: i64 = 1_000_000;

/// Largest raw magnitude accepted for owned amounts, prices and buy prices,
/// chosen so that every derived product and aggregate below fits in `i128`.
pub const MAX_MONEY: i64 = 1_000_000_000_000_000;

/// Largest raw magnitude accepted for a percent-change field that enters
/// derived-value arithmetic (ten thousand percent).
pub const MAX_PCT: i64 = 10_000_000_000;

/// Largest row count the aggregate sums are proved overflow-free for.
pub const MAX_ROWS: usize = 10_000;

} // verus!
