//! Cheapest-window selection over hourly electricity prices.
//!
//! The library models an ordered store of hourly price points tagged by
//! provider, the cache-aside guard that fills the store once per missing day,
//! the optimizer that picks the cheapest contiguous window per requested
//! duration, the projector that renders a window in a caller's time zone,
//! and the parser for the comma-separated durations of a request.

pub mod display;
pub mod domain;
pub mod gate;
pub mod moment;
pub mod optimizer;
pub mod params;
pub mod store;
