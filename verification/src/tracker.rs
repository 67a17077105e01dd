//! The per-key value tracker: the set of tag values accepted for one tag key,
//! stored either exactly or probabilistically, together with an explicit
//! count of accepted values.
//!
//! The count is kept beside the storage rather than derived from it because
//! the probabilistic storage cannot reliably report its own cardinality; the
//! count is the only way that mode can enforce a hard limit.

use vstd::prelude::*;
use crate::bloom_filter::{
    bloom_contains, bloom_insert, bloom_inserted, bloom_num_bits, bloom_optimal_num_hashes,
    bloom_reports, bloom_with_size,
};
use crate::config::Mode;

verus! {

/// The storage strategy behind a tracker: a precise set of the accepted
/// values, or a fixed-size Bloom filter over them.
pub enum TagValueSetStorage {
    /// Exact storage: every accepted value, each held once.
    Exact(Vec<String>),
    /// Probabilistic storage: fixed memory, possible false positives.
    Bloom(bloom::BloomFilter),
}

/// The set of values accepted for one tag key, with its accepted-count.
pub struct TagValueSet {
    storage: TagValueSetStorage,
    num_elements: usize,
}

/// The views of the strings of a sequence.
pub open spec fn string_views(s: Seq<String>) -> Seq<Seq<char>> {
    s.map_values(|x: String| x@)
}

impl TagValueSet {
    /// Whether this tracker stores its values exactly.
    pub closed spec fn is_exact(self) -> bool {
        self.storage is Exact
    }

    /// The set of values accepted so far.
    pub closed spec fn accepted(self) -> Set<Seq<char>> {
        match self.storage {
            TagValueSetStorage::Exact(values) => string_views(values@).to_set(),
            TagValueSetStorage::Bloom(f) => bloom_inserted(f),
        }
    }

    /// What the membership test answers for a value. Exact storage answers
    /// membership in `accepted()`; probabilistic storage may also answer
    /// `true` for a value never accepted (a false positive).
    pub closed spec fn reports(self, v: Seq<char>) -> bool {
        match self.storage {
            TagValueSetStorage::Exact(values) => string_views(values@).to_set().contains(v),
            TagValueSetStorage::Bloom(f) => bloom_reports(f, v),
        }
    }

    /// The explicit accepted-count.
    pub closed spec fn count(self) -> nat {
        self.num_elements as nat
    }

    /// Well-formedness: the count equals the number of distinct accepted
    /// values, the exact storage holds no duplicates, and the probabilistic
    /// storage has at least one bit and reports every value it accepted.
    pub closed spec fn wf(self) -> bool {
        match self.storage {
            TagValueSetStorage::Exact(values) => {
                &&& string_views(values@).no_duplicates()
                &&& self.num_elements == values@.len()
            },
            TagValueSetStorage::Bloom(f) => {
                &&& self.num_elements == bloom_inserted(f).len()
                &&& bloom_inserted(f).finite()
                &&& bloom_num_bits(f) >= 1
                &&& forall|v: Seq<char>| bloom_inserted(f).contains(v) ==> bloom_reports(f, v)
            },
        }
    }

    /// Exact tracking never errs: the membership answer is exactly
    /// membership in the set of accepted values.
    pub proof fn lemma_exact_membership(self, v: Seq<char>)
        requires
            self.wf(),
            self.is_exact(),
        ensures
            self.reports(v) <==> self.accepted().contains(v),
    {
    }

    /// Neither storage has false negatives: a value accepted once is
    /// reported as present from then on.
    pub proof fn lemma_no_false_negatives(self, v: Seq<char>)
        requires
            self.wf(),
        ensures
            self.accepted().contains(v) ==> self.reports(v),
    {
    }

    /// A well-formed tracker's count equals the number of distinct values it
    /// has accepted.
    pub proof fn lemma_count_is_cardinality(self)
        requires
            self.wf(),
        ensures
            self.accepted().finite(),
            self.count() == self.accepted().len(),
    {
        match self.storage {
            TagValueSetStorage::Exact(values) => {
                string_views(values@).unique_seq_to_set();
            },
            TagValueSetStorage::Bloom(_) => {},
        }
    }

    /// Builds an empty tracker for one key, selecting the storage strategy
    /// from the configured mode: exact storage pre-sized to the value limit,
    /// or a Bloom filter of `cache_size_per_key * 8` bits with the hash count
    /// chosen for the expected number of elements.
    pub fn new(value_limit: u32, mode: &Mode) -> (r: Self)
        requires
            mode.valid(),
        ensures
            r.wf(),
            r.count() == 0,
            r.accepted() =~= Set::<Seq<char>>::empty(),
            forall|v: Seq<char>| !r.reports(v),
            r.is_exact() == mode.is_exact(),
    {
        match mode {
            Mode::Exact => {
                let values: Vec<String> = Vec::with_capacity(value_limit as usize);
                proof {
                    assert(string_views(values@) =~= Seq::<Seq<char>>::empty());
                    assert(string_views(values@).to_set() =~= Set::<Seq<char>>::empty());
                }
                TagValueSet { storage: TagValueSetStorage::Exact(values), num_elements: 0 }
            },
            Mode::Probabilistic(config) => {
                let num_bits: usize = config.cache_size_per_key * 8;
                let num_hashes: u32 = bloom_optimal_num_hashes(num_bits, value_limit);
                let filter = bloom_with_size(num_bits, num_hashes);
                TagValueSet { storage: TagValueSetStorage::Bloom(filter), num_elements: 0 }
            },
        }
    }

    /// Pure membership test against the current storage; no mutation. For
    /// exact storage the answer is precise; for probabilistic storage it may
    /// be a false positive, never a false negative.
    #[verifier::loop_isolation(false)]
    pub fn contains(&self, value: &String) -> (r: bool)
        requires
            self.wf(),
        ensures
            r == self.reports(value@),
    {
        match &self.storage {
            TagValueSetStorage::Exact(values) => {
                let n: usize = values.len();
                let mut i: usize = 0;
                while i < n
                    invariant
                        n == values@.len(),
                        0 <= i <= n,
                        forall|j: int| 0 <= j < i ==> values@[j]@ != value@,
                    decreases n - i,
                {
                    if values[i] == *value {
                        proof {
                            assert(string_views(values@).contains(value@)) by {
                                assert(string_views(values@)[i as int] == value@);
                            }
                            assert(string_views(values@).to_set().contains(value@));
                        }
                        return true;
                    }
                    i += 1;
                }
                proof {
                    if string_views(values@).to_set().contains(value@) {
                        let j = choose|j: int| 0 <= j < string_views(values@).len()
                            && string_views(values@)[j] == value@;
                        assert(values@[j]@ == value@);
                    }
                }
                false
            },
            TagValueSetStorage::Bloom(f) => bloom_contains(f, value),
        }
    }

    /// The explicit accepted-count, not a property of the storage.
    pub fn len(&self) -> (r: usize)
        ensures
            r == self.count(),
    {
        self.num_elements
    }

    /// Accepts a value the membership test did not report as present: adds
    /// it to the storage and increments the accepted-count. Returns whether
    /// the value was newly added, which under this contract is always the
    /// case; the caller performs the separate `contains` check first.
    pub fn insert(&mut self, value: String) -> (r: bool)
        requires
            old(self).wf(),
            !old(self).reports(value@),
            old(self).count() < usize::MAX,
        ensures
            final(self).wf(),
            r == true,
            final(self).accepted() =~= old(self).accepted().insert(value@),
            final(self).count() == old(self).count() + 1,
            final(self).reports(value@),
            forall|w: Seq<char>| old(self).reports(w) ==> final(self).reports(w),
            final(self).is_exact() == old(self).is_exact(),
    {
        let inserted: bool = match &mut self.storage {
            TagValueSetStorage::Exact(values) => {
                let ghost old_views = string_views(values@);
                values.push(value);
                proof {
                    assert(string_views(values@) =~= old_views.push(value@));
                    old_views.lemma_push_to_set_commute(value@);
                    assert(!old_views.contains(value@));
                    assert(string_views(values@).no_duplicates());
                }
                true
            },
            TagValueSetStorage::Bloom(f) => {
                let ghost old_f = *f;
                let r = bloom_insert(f, &value);
                proof {
                    // The value was not reported, so it was never inserted,
                    // and the inserted set grows by exactly one.
                    assert(!bloom_inserted(old_f).contains(value@));
                    assert(bloom_inserted(*f).len() == bloom_inserted(old_f).len() + 1);
                }
                r
            },
        };
        if inserted {
            self.num_elements = self.num_elements + 1;
        }
        inserted
    }
}

} // verus!
