//! Configuration for the tag-cardinality limiter: the per-key value limit,
//! the tracking mode, and the action taken once a key's limit is exceeded.
//! The configuration is immutable for the lifetime of a limiter.

use vstd::prelude::*;

verus! {

/// Bloom filter configuration used by the probabilistic tracking mode.
#[derive(Clone, Debug)]
pub struct BloomFilterConfig {
    /// The size of the per-key cache for detecting duplicate tag values, in
    /// bytes. The larger the cache, the less likely a false positive (a case
    /// where a new value is let through without being counted even after the
    /// configured limit has been reached).
    pub cache_size_per_key: usize,
}

/// The approach taken for tracking the distinct values seen for a tag key.
#[derive(Clone, Debug)]
pub enum Mode {
    /// Tracks cardinality exactly.
    ///
    /// Higher memory requirements than `Probabilistic`, but never lets a new
    /// value through once the limit has been hit.
    Exact,
    /// Tracks cardinality probabilistically with fixed memory per key.
    ///
    /// Lower memory requirements than `Exact`, but may occasionally let a new
    /// value through even after the limit has been hit; the rate at which
    /// this happens shrinks as `cache_size_per_key` grows.
    Probabilistic(BloomFilterConfig),
}

/// The action taken when an event arrives whose tags would exceed the
/// cardinality limit for one or more keys.
#[derive(Clone, Debug)]
pub enum LimitExceededAction {
    /// Drop the tag(s) that would exceed the configured limit.
    DropTag,
    /// Drop the entire event.
    DropEvent,
}

/// Configuration consumed when a limiter is constructed.
#[derive(Clone, Debug)]
pub struct TagCardinalityLimitConfig {
    /// How many distinct values to accept for any given key.
    pub value_limit: u32,
    /// The action taken once a key's limit is exceeded.
    pub limit_exceeded_action: LimitExceededAction,
    /// The tracking strategy.
    pub mode: Mode,
}

impl Mode {
    /// Whether this mode tracks cardinality exactly.
    pub open spec fn is_exact(self) -> bool {
        self is Exact
    }

    /// A mode the limiter can be built from: the probabilistic cache must be
    /// at least one byte, and its size in bits must fit in `usize`.
    pub open spec fn valid(self) -> bool {
        match self {
            Mode::Exact => true,
            Mode::Probabilistic(c) => 1 <= c.cache_size_per_key
                && c.cache_size_per_key <= usize::MAX / 8,
        }
    }
}

impl LimitExceededAction {
    /// Whether this action drops the whole event rather than single tags.
    pub open spec fn is_drop_event(self) -> bool {
        self is DropEvent
    }
}

impl TagCardinalityLimitConfig {
    /// A configuration the limiter can be built from: a positive value limit
    /// and a valid mode.
    pub open spec fn valid(self) -> bool {
        self.value_limit >= 1 && self.mode.valid()
    }
}

/// The default per-key limit on distinct accepted values.
pub fn default_value_limit() -> (r: u32)
    ensures
        r == 500,
{
    500
}

/// The default action once a key's limit is exceeded.
pub fn default_limit_exceeded_action() -> (r: LimitExceededAction)
    ensures
        r is DropTag,
{
    LimitExceededAction::DropTag
}

/// The default probabilistic cache size per key, in bytes: 5,120,000 bytes,
/// about five megabytes. The value is kept as it has always been, although
/// it has at times been described as five kilobytes; resizing it is a
/// product decision, not a code fix.
pub fn default_cache_size() -> (r: usize)
    ensures
        r == 5_120_000usize,
{
    5000 * 1024
}

impl Default for TagCardinalityLimitConfig {
    /// The default configuration: exact tracking, a limit of 500 distinct
    /// values per key, and dropping offending tags on overflow.
    fn default() -> (r: Self)
        ensures
            r.value_limit == 500,
            r.limit_exceeded_action is DropTag,
            r.mode is Exact,
            r.valid(),
    {
        TagCardinalityLimitConfig {
            value_limit: default_value_limit(),
            limit_exceeded_action: default_limit_exceeded_action(),
            mode: Mode::Exact,
        }
    }
}

} // verus!
