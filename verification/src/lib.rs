//! An in-memory level-2 order book for a single market: two sides of price
//! levels kept sorted by quantized price key, replaced wholesale by snapshots
//! and updated one level at a time by deltas, with best-bid, best-ask and
//! mid-price queries.

pub mod engine;
pub mod laws;
pub mod level;
pub mod model;
