//! A streaming transform that bounds the number of distinct values any metric
//! tag key may take, protecting downstream time-series storage from unbounded
//! cardinality growth.
//!
//! Per tag key the limiter tracks the set of accepted values, either exactly
//! (a precise set) or probabilistically (a Bloom filter with bounded memory).
//! Once a key has accepted `value_limit` distinct values, further values for
//! that key are rejected, and the configured action strips the offending tag
//! or drops the whole event.

pub mod bloom_filter;
pub mod config;
pub mod container;
pub mod event;
pub mod limiter;
pub mod model;
pub mod tracker;

pub use config::{
    default_cache_size, default_limit_exceeded_action, default_value_limit, BloomFilterConfig,
    LimitExceededAction, Mode, TagCardinalityLimitConfig,
};
pub use container::{Container, Variant};
pub use event::Event;
pub use limiter::{AcceptOutcome, Signal, TagCardinalityLimit};
pub use tracker::TagValueSet;
