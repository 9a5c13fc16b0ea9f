//! Extraction of token-transfer events from block execution data, a
//! deduplicating ordinal-guarded store, and projection of store deltas into a
//! relational change log.

pub mod decode;
pub mod hex;
pub mod model;
pub mod normalize;
pub mod numeric;
pub mod pipeline;
pub mod project;
pub mod store;
