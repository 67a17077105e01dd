//! Trusted interface to the `bloom` crate's `BloomFilter`, the storage behind
//! the probabilistic tracking mode.
//!
//! The filter is opaque to verification. Two uninterpreted names describe it:
//! `bloom_inserted`, the set of string values inserted so far, and
//! `bloom_reports`, the answer its membership probe gives for a value. The
//! filter may report a value it never saw (a false positive), so
//! `bloom_reports` is not tied to `bloom_inserted` here; what the crate does
//! guarantee is stated on the wrappers: a fresh filter reports nothing, an
//! insert makes the inserted value report as present from then on, and
//! reporting is monotone because bits are only ever set.

use vstd::prelude::*;
use bloom::ASMS;

verus! {

#[verifier::external_type_specification]
#[verifier::external_body]
#[verifier::reject_recursive_types(R)]
#[verifier::reject_recursive_types(S)]
pub struct ExBloomFilter<R, S>(bloom::BloomFilter<R, S>);

/// The set of string values that have been inserted into the filter.
pub uninterp spec fn bloom_inserted(f: bloom::BloomFilter) -> Set<Seq<char>>;

/// The answer the filter's membership probe gives for a value: whether every
/// bit the value hashes to is set. Deterministic for a given filter state.
pub uninterp spec fn bloom_reports(f: bloom::BloomFilter, v: Seq<char>) -> bool;

/// The number of bits the filter was created with.
pub uninterp spec fn bloom_num_bits(f: bloom::BloomFilter) -> usize;

/// Relies on `bloom::BloomFilter::with_size`: the filter starts with every
/// bit clear, so with at least one hash function its probe reports `false`
/// for every value, and nothing has been inserted.
#[verifier::external_body]
pub(crate) fn bloom_with_size(num_bits: usize, num_hashes: u32) -> (r: bloom::BloomFilter)
    requires
        num_bits >= 1,
        num_hashes >= 1,
    ensures
        bloom_inserted(r) == Set::<Seq<char>>::empty(),
        forall|v: Seq<char>| !bloom_reports(r, v),
        bloom_num_bits(r) == num_bits,
{
    bloom::BloomFilter::with_size(num_bits, num_hashes)
}

/// Relies on `bloom::optimal_num_hashes`: it clamps its rounded estimate to
/// the range from 2 to 200 and never panics.
#[verifier::external_body]
pub(crate) fn bloom_optimal_num_hashes(num_bits: usize, num_items: u32) -> (r: u32)
    ensures
        2 <= r <= 200,
{
    bloom::optimal_num_hashes(num_bits, num_items)
}

/// Relies on `bloom::ASMS::contains` for `BloomFilter`: it probes the bits
/// the value hashes to and panics only on a filter of zero bits.
#[verifier::external_body]
pub(crate) fn bloom_contains(f: &bloom::BloomFilter, value: &String) -> (r: bool)
    requires
        bloom_num_bits(*f) >= 1,
    ensures
        r == bloom_reports(*f, value@),
{
    f.contains(value)
}

/// Relies on `bloom::ASMS::insert` for `BloomFilter`: it sets every bit the
/// value hashes to and returns whether any of them was previously clear,
/// which is exactly the negation of what `contains` reported before. Bits are
/// only set, never cleared, so every value that reported as present still
/// does. Panics only on a filter of zero bits.
#[verifier::external_body]
pub(crate) fn bloom_insert(f: &mut bloom::BloomFilter, value: &String) -> (r: bool)
    requires
        bloom_num_bits(*old(f)) >= 1,
    ensures
        bloom_inserted(*final(f)) == bloom_inserted(*old(f)).insert(value@),
        r == !bloom_reports(*old(f), value@),
        bloom_reports(*final(f), value@),
        forall|w: Seq<char>| bloom_reports(*old(f), w) ==> bloom_reports(*final(f), w),
        bloom_num_bits(*final(f)) == bloom_num_bits(*old(f)),
{
    f.insert(value)
}

} // verus!
