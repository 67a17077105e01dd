//! The limiter: owns the cardinality table (one value tracker per tag key,
//! created lazily) and the configuration, makes the irreversible
//! accept/reject decision for each tag pair, and applies the configured
//! exceeded-limit policy to whole events.

use vstd::prelude::*;
use crate::config::{LimitExceededAction, TagCardinalityLimitConfig};
use crate::event::{pair_views, Event};
use crate::model::{drop_event_run, drop_tag_run, kept_pairs, model_get, step_accepts, step_map, step_signal};
use crate::tracker::{string_views, TagValueSet};

verus! {

/// An observability signal emitted while transforming events. Signals are
/// fire-and-forget: the caller forwards them to a telemetry sink; they are
/// not part of the data stream.
#[derive(Debug, Clone, PartialEq)]
pub enum Signal {
    /// A key has just accepted its last value under the limit. Fired exactly
    /// once per key, at the transition.
    LimitReached { key: String },
    /// A tag was stripped from an event under the drop-tag action.
    TagRejected { key: String, value: String },
    /// A whole event was discarded under the drop-event action, carrying the
    /// pair that caused the rejection.
    EventRejected { key: String, value: String },
}

/// Whether a signal reports the tag with key `k` as rejected.
pub open spec fn is_tag_rejected_for(s: Signal, k: Seq<char>) -> bool {
    match s {
        Signal::TagRejected { key, value } => key@ == k,
        _ => false,
    }
}

/// The keys of all tags reported as rejected by a batch of signals.
pub open spec fn tag_rejected_keys(signals: Seq<Signal>) -> Set<Seq<char>> {
    Set::new(|k: Seq<char>|
        exists|i: int| 0 <= i < signals.len() && is_tag_rejected_for(signals[i], k))
}

/// Appending a signal that rejects key `k` adds exactly `k` to the rejected
/// key set; appending any other signal leaves it unchanged.
proof fn lemma_rejected_keys_push(signals: Seq<Signal>, s: Signal)
    ensures
        (s matches Signal::TagRejected { key, value }
            ==> tag_rejected_keys(signals.push(s))
                =~= tag_rejected_keys(signals).insert(key@)),
        (!(s is TagRejected)
            ==> tag_rejected_keys(signals.push(s)) =~= tag_rejected_keys(signals)),
{
    assert forall|k: Seq<char>| tag_rejected_keys(signals).contains(k) implies
        tag_rejected_keys(signals.push(s)).contains(k) by {
        let i = choose|i: int| 0 <= i < signals.len() && is_tag_rejected_for(signals[i], k);
        assert(signals.push(s)[i] == signals[i]);
    }
    assert forall|k: Seq<char>| tag_rejected_keys(signals.push(s)).contains(k) implies
        tag_rejected_keys(signals).contains(k) || is_tag_rejected_for(s, k) by {
        let i = choose|i: int|
            0 <= i < signals.push(s).len() && is_tag_rejected_for(signals.push(s)[i], k);
        if i < signals.len() {
            assert(signals.push(s)[i] == signals[i]);
        } else {
            assert(signals.push(s)[i] == s);
        }
    }
    if s is TagRejected {
        let i = signals.len() as int;
        assert(signals.push(s)[i] == s);
    }
}

/// The outcome of offering one (key, value) pair to the limiter.
pub struct AcceptOutcome {
    /// Whether the value is accepted for the key.
    pub accepted: bool,
    /// Whether this very call made the key's accepted count reach the
    /// limit; the caller emits the one-time limit-reached signal for it.
    pub limit_reached: bool,
}

/// The cardinality limiter: the configuration and the cardinality table,
/// a mapping from tag key to its value tracker. The table starts empty,
/// grows one tracker per distinct key ever seen, and never shrinks.
pub struct TagCardinalityLimit {
    config: TagCardinalityLimitConfig,
    keys: Vec<String>,
    trackers: Vec<TagValueSet>,
}

impl TagCardinalityLimit {
    /// The configuration the limiter was built with; immutable thereafter.
    pub closed spec fn configuration(self) -> TagCardinalityLimitConfig {
        self.config
    }

    /// The per-key limit on distinct accepted values.
    pub open spec fn limit(self) -> nat {
        self.configuration().value_limit as nat
    }

    /// Whether the limiter tracks values exactly.
    pub open spec fn is_exact_mode(self) -> bool {
        self.configuration().mode.is_exact()
    }

    /// The configured exceeded-limit action.
    pub open spec fn action(self) -> LimitExceededAction {
        self.configuration().limit_exceeded_action
    }

    /// Whether the table holds a tracker for key `k`.
    pub closed spec fn has_key(self, k: Seq<char>) -> bool {
        exists|i: int| 0 <= i < self.keys@.len() && self.keys@[i]@ == k
    }

    /// The table index of key `k`.
    pub closed spec fn idx_of(self, k: Seq<char>) -> int {
        choose|i: int| 0 <= i < self.keys@.len() && self.keys@[i]@ == k
    }

    /// The tracker for key `k`.
    pub closed spec fn tracker_of(self, k: Seq<char>) -> TagValueSet {
        self.trackers@[self.idx_of(k)]
    }

    /// The set of values accepted so far for key `k`.
    pub open spec fn accepted_of(self, k: Seq<char>) -> Set<Seq<char>> {
        if self.has_key(k) {
            self.tracker_of(k).accepted()
        } else {
            Set::<Seq<char>>::empty()
        }
    }

    /// The accepted count for key `k`.
    pub open spec fn count_of(self, k: Seq<char>) -> nat {
        if self.has_key(k) {
            self.tracker_of(k).count()
        } else {
            0
        }
    }

    /// Whether the tracker for key `k` reports value `v` as present. In
    /// exact mode this is membership in `accepted_of(k)`; in probabilistic
    /// mode it may also hold for a value never accepted (a false positive).
    pub open spec fn reports_of(self, k: Seq<char>, v: Seq<char>) -> bool {
        self.has_key(k) && self.tracker_of(k).reports(v)
    }

    /// Whether offering `(k, v)` now would make `k` reach its limit: the
    /// condition under which the one-time limit-reached signal fires.
    pub open spec fn signal_fires(self, k: Seq<char>, v: Seq<char>) -> bool {
        !self.reports_of(k, v) && self.count_of(k) + 1 == self.limit()
    }

    /// Well-formedness: a valid configuration, one tracker per key, no key
    /// twice, and every tracker well formed, within the limit, and of the
    /// configured mode.
    pub closed spec fn wf(self) -> bool {
        &&& self.config.valid()
        &&& self.keys@.len() == self.trackers@.len()
        &&& string_views(self.keys@).no_duplicates()
        &&& forall|i: int| 0 <= i < self.trackers@.len() ==> (#[trigger] self.trackers@[i]).wf()
        &&& forall|i: int| 0 <= i < self.trackers@.len()
            ==> (#[trigger] self.trackers@[i]).count() <= self.limit()
        &&& forall|i: int| 0 <= i < self.trackers@.len()
            ==> (#[trigger] self.trackers@[i]).is_exact() == self.config.mode.is_exact()
    }

    /// The model state the table realises: per key seen, its accepted set.
    pub open spec fn model(self) -> Map<Seq<char>, Set<Seq<char>>> {
        Map::<Seq<char>, Set<Seq<char>>>::new(
            |k: Seq<char>| self.has_key(k),
            |k: Seq<char>| self.accepted_of(k),
        )
    }

    /// If `k` stands at index `i` of the table, then `k` is present and `i`
    /// is its index.
    proof fn lemma_key_at(self, k: Seq<char>, i: int)
        requires
            string_views(self.keys@).no_duplicates(),
            0 <= i < self.keys@.len(),
            self.keys@[i]@ == k,
        ensures
            self.has_key(k),
            self.idx_of(k) == i,
    {
        assert(self.has_key(k));
        let j = self.idx_of(k);
        assert(string_views(self.keys@)[i] == k);
        assert(string_views(self.keys@)[j] == k);
    }

    /// No key ever exceeds `value_limit` distinct accepted values.
    pub proof fn lemma_counts_bounded(self, k: Seq<char>)
        requires
            self.wf(),
        ensures
            self.accepted_of(k).finite(),
            self.accepted_of(k).len() == self.count_of(k),
            self.accepted_of(k).len() <= self.limit(),
    {
        if self.has_key(k) {
            self.tracker_of(k).lemma_count_is_cardinality();
        }
    }

    /// Exact mode never errs: the tracker for a key reports exactly the
    /// accepted values.
    pub proof fn lemma_exact_reports(self, k: Seq<char>, v: Seq<char>)
        requires
            self.wf(),
            self.is_exact_mode(),
        ensures
            self.reports_of(k, v) <==> self.accepted_of(k).contains(v),
    {
        if self.has_key(k) {
            self.tracker_of(k).lemma_exact_membership(v);
        }
    }

    /// Neither mode has false negatives: an accepted value is reported as
    /// present from then on.
    pub proof fn lemma_no_false_negatives(self, k: Seq<char>, v: Seq<char>)
        requires
            self.wf(),
        ensures
            self.accepted_of(k).contains(v) ==> self.reports_of(k, v),
    {
        if self.has_key(k) {
            self.tracker_of(k).lemma_no_false_negatives(v);
        }
    }

    /// Once a key's count stands at the limit, no further call can fire the
    /// limit-reached signal for it: together with the transition condition
    /// in `try_accept_tag`, the signal fires exactly once per key.
    pub proof fn lemma_signal_never_again(self, k: Seq<char>, v: Seq<char>)
        requires
            self.count_of(k) >= self.limit(),
        ensures
            !self.signal_fires(k, v),
    {
    }

    /// A fresh limiter: the configuration and an empty cardinality table.
    pub fn new(config: TagCardinalityLimitConfig) -> (r: Self)
        requires
            config.valid(),
        ensures
            r.wf(),
            r.configuration() == config,
            forall|k: Seq<char>| !r.has_key(k),
            forall|k: Seq<char>| r.accepted_of(k) == Set::<Seq<char>>::empty()
                && r.count_of(k) == 0,
            forall|k: Seq<char>, v: Seq<char>| !r.reports_of(k, v),
            r.model() =~= Map::<Seq<char>, Set<Seq<char>>>::empty(),
    {
        let r = TagCardinalityLimit { config, keys: Vec::new(), trackers: Vec::new() };
        proof {
            assert(string_views(r.keys@) =~= Seq::<Seq<char>>::empty());
        }
        r
    }

    /// The table index holding `key`, if the key has been seen.
    #[verifier::loop_isolation(false)]
    fn find_key(&self, key: &String) -> (r: Option<usize>)
        ensures
            match r {
                Some(i) => 0 <= i < self.keys@.len() && self.keys@[i as int]@ == key@,
                None => !self.has_key(key@),
            },
    {
        let n: usize = self.keys.len();
        let mut i: usize = 0;
        while i < n
            invariant
                0 <= i <= n,
                forall|j: int| 0 <= j < i ==> self.keys@[j]@ != key@,
            decreases n - i,
        {
            if self.keys[i] == *key {
                return Some(i);
            }
            i += 1;
        }
        None
    }

    /// Offers one (key, value) tag pair to the limiter. If the value is
    /// already reported for the key, it is accepted with no state change.
    /// Otherwise, if the key's accepted count is below the limit, the value
    /// is accepted and recorded, and the outcome says whether this filled
    /// the key's last free slot. Otherwise the value is rejected with no
    /// state change. A tracker is created for the key on first sight.
    pub fn try_accept_tag(&mut self, key: &String, value: &String) -> (r: AcceptOutcome)
        requires
            old(self).wf(),
        ensures
            final(self).wf(),
            final(self).configuration() == old(self).configuration(),
            // the decision
            r.accepted == (old(self).reports_of(key@, value@)
                || old(self).count_of(key@) < old(self).limit()),
            // acceptance is permanent
            forall|k: Seq<char>, v: Seq<char>|
                old(self).reports_of(k, v) ==> final(self).reports_of(k, v),
            r.accepted ==> final(self).reports_of(key@, value@),
            // per-key independence: every other key is untouched
            forall|k: Seq<char>| k != key@
                ==> final(self).accepted_of(k) == old(self).accepted_of(k)
                    && final(self).count_of(k) == old(self).count_of(k)
                    && final(self).has_key(k) == old(self).has_key(k),
            forall|k: Seq<char>, v: Seq<char>| k != key@
                ==> final(self).reports_of(k, v) == old(self).reports_of(k, v),
            // the touched key
            old(self).reports_of(key@, value@)
                ==> final(self).accepted_of(key@) == old(self).accepted_of(key@)
                    && final(self).count_of(key@) == old(self).count_of(key@)
                    && (forall|v: Seq<char>|
                        final(self).reports_of(key@, v) == old(self).reports_of(key@, v)),
            (!old(self).reports_of(key@, value@)
                && old(self).count_of(key@) < old(self).limit())
                ==> final(self).accepted_of(key@) == old(self).accepted_of(key@).insert(value@)
                    && final(self).count_of(key@) == old(self).count_of(key@) + 1,
            !r.accepted
                ==> final(self).accepted_of(key@) == old(self).accepted_of(key@)
                    && final(self).count_of(key@) == old(self).count_of(key@)
                    && (forall|v: Seq<char>|
                        final(self).reports_of(key@, v) == old(self).reports_of(key@, v)),
            // counts never decrease and never pass the limit
            forall|k: Seq<char>| old(self).count_of(k) <= #[trigger] final(self).count_of(k),
            forall|k: Seq<char>| #[trigger] final(self).count_of(k) <= old(self).limit(),
            // the limit-reached signal fires exactly at the transition
            r.limit_reached == old(self).signal_fires(key@, value@),
            // exact mode follows the model step for step
            old(self).is_exact_mode() ==> {
                &&& final(self).model() == step_map(old(self).model(), old(self).limit(), key@, value@)
                &&& r.accepted == step_accepts(old(self).model(), old(self).limit(), key@, value@)
                &&& r.limit_reached == step_signal(old(self).model(), old(self).limit(), key@, value@)
            },
    {
        let ghost pre = *self;
        let i: usize = match self.find_key(key) {
            Some(i) => i,
            None => {
                let tracker = TagValueSet::new(self.config.value_limit, &self.config.mode);
                self.keys.push(key.clone());
                self.trackers.push(tracker);
                proof {
                    let n = pre.keys@.len() as int;
                    assert(string_views(self.keys@) =~= string_views(pre.keys@).push(key@));
                    assert(string_views(self.keys@).no_duplicates());
                    self.lemma_key_at(key@, n);
                    assert forall|k: Seq<char>| k != key@ implies
                        #[trigger] self.has_key(k) == pre.has_key(k)
                        && self.accepted_of(k) == pre.accepted_of(k)
                        && self.count_of(k) == pre.count_of(k) by {
                        if pre.has_key(k) {
                            let j = pre.idx_of(k);
                            pre.lemma_key_at(k, j);
                            self.lemma_key_at(k, j);
                        } else if self.has_key(k) {
                            let j = self.idx_of(k);
                            assert(self.keys@[j]@ == k);
                            assert(j == n);
                        }
                    }
                    assert forall|k: Seq<char>, v: Seq<char>| k != key@ implies
                        #[trigger] self.reports_of(k, v) == pre.reports_of(k, v) by {
                        if pre.has_key(k) {
                            let j = pre.idx_of(k);
                            pre.lemma_key_at(k, j);
                            self.lemma_key_at(k, j);
                        }
                    }
                    assert(!pre.has_key(key@));
                    assert(self.count_of(key@) == 0);
                    assert(self.accepted_of(key@) =~= Set::<Seq<char>>::empty());
                }
                self.keys.len() - 1
            },
        };
        proof {
            self.lemma_key_at(key@, i as int);
            assert(self.tracker_of(key@) == self.trackers@[i as int]);
        }
        let ghost mid = *self;

        if self.trackers[i].contains(value) {
            proof {
                assert(mid.reports_of(key@, value@));
                assert(pre.reports_of(key@, value@) || !pre.has_key(key@));
                if !pre.has_key(key@) {
                    // a fresh tracker reports nothing, so this branch cannot
                    // be reached for an unseen key
                    assert(!mid.tracker_of(key@).reports(value@));
                }
                assert(pre.reports_of(key@, value@));
                if pre.is_exact_mode() {
                    pre.lemma_exact_reports(key@, value@);
                    pre.lemma_counts_bounded(key@);
                    assert(pre.model().contains_key(key@));
                    assert(model_get(pre.model(), key@) == pre.accepted_of(key@));
                    assert(pre.accepted_of(key@).insert(value@) =~= pre.accepted_of(key@));
                    assert(step_map(pre.model(), pre.limit(), key@, value@)
                        =~= pre.model());
                }
            }
            return AcceptOutcome { accepted: true, limit_reached: false };
        }

        // The value is not yet reported for this key.
        let current: usize = self.trackers[i].len();
        if current < self.config.value_limit as usize {
            let _ = self.trackers[i].insert(value.clone());
            let reached: bool = self.trackers[i].len() == self.config.value_limit as usize;
            proof {
                assert(self.keys@ == mid.keys@);
                assert(self.trackers@ == mid.trackers@.update(i as int, self.trackers@[i as int]));
                self.lemma_key_at(key@, i as int);
                assert(self.tracker_of(key@) == self.trackers@[i as int]);
                assert forall|k: Seq<char>| k != key@ implies
                    #[trigger] self.has_key(k) == mid.has_key(k)
                    && self.accepted_of(k) == mid.accepted_of(k)
                    && self.count_of(k) == mid.count_of(k) by {
                    if mid.has_key(k) {
                        let j = mid.idx_of(k);
                        mid.lemma_key_at(k, j);
                        self.lemma_key_at(k, j);
                        assert(j != i);
                    }
                }
                assert forall|k: Seq<char>, v: Seq<char>| k != key@ implies
                    #[trigger] self.reports_of(k, v) == mid.reports_of(k, v) by {
                    if mid.has_key(k) {
                        let j = mid.idx_of(k);
                        mid.lemma_key_at(k, j);
                        self.lemma_key_at(k, j);
                        assert(j != i);
                    }
                }
                if pre.is_exact_mode() {
                    pre.lemma_exact_reports(key@, value@);
                    pre.lemma_counts_bounded(key@);
                    assert(self.model() =~= step_map(pre.model(), pre.limit(), key@, value@));
                }
            }
            AcceptOutcome { accepted: true, limit_reached: reached }
        } else {
            proof {
                assert(mid == pre);
                assert(mid.count_of(key@) >= mid.limit());
                if pre.is_exact_mode() {
                    pre.lemma_exact_reports(key@, value@);
                    pre.lemma_counts_bounded(key@);
                }
            }
            AcceptOutcome { accepted: false, limit_reached: false }
        }
    }
    /// The number of values accepted so far for `key`: zero for a key never
    /// seen, and never more than the configured limit.
    pub fn accepted_count(&self, key: &String) -> (r: usize)
        requires
            self.wf(),
        ensures
            r == self.count_of(key@),
    {
        match self.find_key(key) {
            Some(i) => {
                proof {
                    self.lemma_key_at(key@, i as int);
                }
                self.trackers[i].len()
            },
            None => 0,
        }
    }

    /// Applies the configured policy to one event. Untagged events pass
    /// through unchanged. Under the drop-event action the event's tag pairs
    /// are offered in order and the first rejection discards the whole
    /// event; pairs accepted before it stay accepted — there is no
    /// rollback. Under the drop-tag action all pairs are offered, and every
    /// key with a rejected pair is stripped from the forwarded event.
    /// Returns the surviving event, if any, and the observability signals
    /// raised while deciding.
    #[verifier::loop_isolation(false)]
    pub fn transform_one(&mut self, event: Event) -> (r: (Option<Event>, Vec<Signal>))
        requires
            old(self).wf(),
        ensures
            final(self).wf(),
            final(self).configuration() == old(self).configuration(),
            // acceptance is permanent, counts never decrease nor pass the limit
            forall|k: Seq<char>, v: Seq<char>|
                old(self).reports_of(k, v) ==> final(self).reports_of(k, v),
            forall|k: Seq<char>| old(self).count_of(k) <= #[trigger] final(self).count_of(k),
            forall|k: Seq<char>| #[trigger] final(self).count_of(k) <= old(self).limit(),
            // untagged events pass through with no state change
            event.tags is None
                ==> r.0 == Some(event) && r.1@ == Seq::<Signal>::empty()
                    && *final(self) == *old(self),
            // drop-event: forward unchanged or discard whole
            (event.tags is Some && old(self).action() is DropEvent && r.0 is Some)
                ==> r.0 == Some(event),
            (event.tags is Some && old(self).action() is DropEvent && r.0 is Some)
                ==> (forall|j: int|
                    0 <= j < event.tag_views()->Some_0.len()
                        ==> final(self).reports_of(
                            (#[trigger] event.tag_views()->Some_0[j]).0,
                            event.tag_views()->Some_0[j].1,
                        )),
            (event.tags is Some && old(self).action() is DropEvent && r.0 is None)
                ==> (exists|j: int|
                    0 <= j < event.tag_views()->Some_0.len()
                        && !final(self).reports_of(
                            (#[trigger] event.tag_views()->Some_0[j]).0,
                            event.tag_views()->Some_0[j].1,
                        )
                        && final(self).count_of(event.tag_views()->Some_0[j].0)
                            == old(self).limit()),
            (event.tags is Some && old(self).action() is DropEvent
                && old(self).is_exact_mode()) ==> {
                let run = drop_event_run(
                    old(self).model(),
                    old(self).limit(),
                    event.tag_views()->Some_0,
                );
                &&& final(self).model() == run.0
                &&& r.0 is Some <==> run.1
            },
            // drop-tag: always forward, with every rejected key stripped
            (event.tags is Some && old(self).action() is DropTag)
                ==> (r.0 matches Some(out) && out.tags matches Some(outp)
                    && pair_views(outp@) == kept_pairs(
                        event.tag_views()->Some_0,
                        tag_rejected_keys(r.1@),
                    )),
            (event.tags is Some && old(self).action() is DropTag)
                ==> (forall|j: int|
                    (0 <= j < event.tag_views()->Some_0.len()
                        && !tag_rejected_keys(r.1@).contains(
                            (#[trigger] event.tag_views()->Some_0[j]).0,
                        )) ==> final(self).reports_of(
                        event.tag_views()->Some_0[j].0,
                        event.tag_views()->Some_0[j].1,
                    )),
            (event.tags is Some && old(self).action() is DropTag)
                ==> (forall|k: Seq<char>| #[trigger] tag_rejected_keys(r.1@).contains(k)
                    ==> final(self).count_of(k) == old(self).limit()),
            (event.tags is Some && old(self).action() is DropTag
                && old(self).is_exact_mode()) ==> {
                let run = drop_tag_run(
                    old(self).model(),
                    old(self).limit(),
                    event.tag_views()->Some_0,
                );
                &&& final(self).model() == run.0
                &&& tag_rejected_keys(r.1@) == run.1
            },
    {
        let ghost pre = *self;
        let mut signals: Vec<Signal> = Vec::new();
        let tags = event.tags;
        let pairs: Vec<(String, String)> = match tags {
            None => {
                return (Some(Event { tags: None }), signals);
            },
            Some(pairs) => pairs,
        };
        let ghost pv = pair_views(pairs@);
        let n: usize = pairs.len();

        match self.config.limit_exceeded_action {
            LimitExceededAction::DropEvent => {
                proof {
                    assert(pv.skip(0) =~= pv);
                }
                let mut idx: usize = 0;
                while idx < n
                    invariant
                        self.wf(),
                        self.configuration() == pre.configuration(),
                        0 <= idx <= n,
                        n == pairs@.len(),
                        pv == pair_views(pairs@),
                        forall|k: Seq<char>, v: Seq<char>|
                            pre.reports_of(k, v) ==> self.reports_of(k, v),
                        forall|k: Seq<char>| pre.count_of(k) <= #[trigger] self.count_of(k),
                        forall|j: int| 0 <= j < idx
                            ==> self.reports_of((#[trigger] pv[j]).0, pv[j].1),
                        pre.is_exact_mode() ==> drop_event_run(pre.model(), pre.limit(), pv)
                            == drop_event_run(self.model(), self.limit(), pv.skip(idx as int)),
                    decreases n - idx,
                {
                    let ghost cur = *self;
                    let pair = &pairs[idx];
                    let outcome = self.try_accept_tag(&pair.0, &pair.1);
                    proof {
                        assert(pv.skip(idx as int).len() > 0);
                        assert(pv.skip(idx as int)[0] == pv[idx as int]);
                        assert(pv.skip(idx as int).drop_first() =~= pv.skip(idx as int + 1));
                    }
                    if outcome.limit_reached {
                        signals.push(Signal::LimitReached { key: pair.0.clone() });
                    }
                    if !outcome.accepted {
                        signals.push(Signal::EventRejected {
                            key: pair.0.clone(),
                            value: pair.1.clone(),
                        });
                        proof {
                            assert(!self.reports_of(pv[idx as int].0, pv[idx as int].1));
                            assert(self.count_of(pv[idx as int].0) == pre.limit());
                            assert(event.tag_views()->Some_0 == pv);
                            assert((idx as int) < event.tag_views()->Some_0.len()
                                && !self.reports_of(
                                    (event.tag_views()->Some_0[idx as int]).0,
                                    event.tag_views()->Some_0[idx as int].1,
                                )
                                && self.count_of(event.tag_views()->Some_0[idx as int].0)
                                    == pre.limit());
                            if pre.is_exact_mode() {
                                assert(!step_accepts(cur.model(), cur.limit(), pv[idx as int].0,
                                    pv[idx as int].1));
                                assert(drop_event_run(cur.model(), cur.limit(),
                                    pv.skip(idx as int)) == (cur.model(), false));
                            }
                        }
                        return (None, signals);
                    }
                    idx += 1;
                }
                proof {
                    assert(pv.skip(n as int) =~= Seq::<(Seq<char>, Seq<char>)>::empty());
                    assert(event.tags == Some(pairs));
                }
                (Some(Event { tags: Some(pairs) }), signals)
            },
            LimitExceededAction::DropTag => {
                let mut to_delete: Vec<String> = Vec::new();
                proof {
                    assert(string_views(to_delete@).to_set() =~= Set::<Seq<char>>::empty());
                    assert(tag_rejected_keys(signals@) =~= Set::<Seq<char>>::empty());
                    assert(pv.skip(0) =~= pv);
                    if pre.is_exact_mode() {
                        let rest = drop_tag_run(self.model(), self.limit(), pv.skip(0));
                        assert(string_views(to_delete@).to_set().union(rest.1) =~= rest.1);
                    }
                }
                let mut idx: usize = 0;
                while idx < n
                    invariant
                        self.wf(),
                        self.configuration() == pre.configuration(),
                        0 <= idx <= n,
                        n == pairs@.len(),
                        pv == pair_views(pairs@),
                        forall|k: Seq<char>, v: Seq<char>|
                            pre.reports_of(k, v) ==> self.reports_of(k, v),
                        forall|k: Seq<char>| pre.count_of(k) <= #[trigger] self.count_of(k),
                        tag_rejected_keys(signals@) == string_views(to_delete@).to_set(),
                        forall|j: int| 0 <= j < idx
                            ==> string_views(to_delete@).to_set().contains(
                                (#[trigger] pv[j]).0,
                            ) || self.reports_of(pv[j].0, pv[j].1),
                        forall|k: Seq<char>|
                            #[trigger] string_views(to_delete@).to_set().contains(k)
                                ==> self.count_of(k) == pre.limit(),
                        pre.is_exact_mode() ==> {
                            let rest = drop_tag_run(self.model(), self.limit(),
                                pv.skip(idx as int));
                            drop_tag_run(pre.model(), pre.limit(), pv)
                                == (rest.0, string_views(to_delete@).to_set().union(rest.1))
                        },
                    decreases n - idx,
                {
                    let ghost cur = *self;
                    let ghost td = string_views(to_delete@).to_set();
                    let pair = &pairs[idx];
                    let outcome = self.try_accept_tag(&pair.0, &pair.1);
                    proof {
                        assert(pv.skip(idx as int).len() > 0);
                        assert(pv.skip(idx as int)[0] == pv[idx as int]);
                        assert(pv.skip(idx as int).drop_first() =~= pv.skip(idx as int + 1));
                    }
                    if outcome.limit_reached {
                        let s = Signal::LimitReached { key: pair.0.clone() };
                        proof {
                            lemma_rejected_keys_push(signals@, s);
                        }
                        signals.push(s);
                    }
                    if !outcome.accepted {
                        let s = Signal::TagRejected {
                            key: pair.0.clone(),
                            value: pair.1.clone(),
                        };
                        proof {
                            lemma_rejected_keys_push(signals@, s);
                        }
                        signals.push(s);
                        let ghost old_td_views = string_views(to_delete@);
                        to_delete.push(pair.0.clone());
                        proof {
                            assert(string_views(to_delete@)
                                =~= old_td_views.push(pair.0@));
                            old_td_views.lemma_push_to_set_commute(pair.0@);
                            if pre.is_exact_mode() {
                                let rest = drop_tag_run(self.model(), self.limit(),
                                    pv.skip(idx as int + 1));
                                assert(drop_tag_run(cur.model(), cur.limit(),
                                    pv.skip(idx as int))
                                    == (rest.0, rest.1.insert(pv[idx as int].0)));
                                assert(td.union(rest.1.insert(pv[idx as int].0))
                                    =~= td.insert(pv[idx as int].0).union(rest.1));
                            }
                        }
                    }
                    idx += 1;
                }
                proof {
                    assert(pv.skip(n as int) =~= Seq::<(Seq<char>, Seq<char>)>::empty());
                    if pre.is_exact_mode() {
                        let rest = drop_tag_run(self.model(), self.limit(),
                            pv.skip(n as int));
                        assert(rest.0 == self.model() && rest.1 =~= Set::<Seq<char>>::empty());
                        assert(string_views(to_delete@).to_set().union(rest.1)
                            =~= string_views(to_delete@).to_set());
                    }
                }
                let ghost rej = string_views(to_delete@).to_set();
                let mut kept: Vec<(String, String)> = Vec::new();
                let mut j: usize = 0;
                proof {
                    assert(pair_views(kept@) =~= Seq::<(Seq<char>, Seq<char>)>::empty());
                    assert(pv.skip(0) =~= pv);
                    assert(pair_views(kept@) + kept_pairs(pv.skip(0), rej)
                        =~= kept_pairs(pv, rej));
                }
                while j < n
                    invariant
                        0 <= j <= n,
                        n == pairs@.len(),
                        pv == pair_views(pairs@),
                        kept_pairs(pv, rej) == pair_views(kept@) + kept_pairs(
                            pv.skip(j as int), rej),
                    decreases n - j,
                {
                    proof {
                        assert(pv.skip(j as int).len() > 0);
                        assert(pv.skip(j as int)[0] == pv[j as int]);
                        assert(pv.skip(j as int).drop_first() =~= pv.skip(j as int + 1));
                    }
                    let pair = &pairs[j];
                    let ghost old_kept_views = pair_views(kept@);
                    if !contains_string(&to_delete, &pair.0) {
                        kept.push((pair.0.clone(), pair.1.clone()));
                        proof {
                            assert(pair_views(kept@)
                                =~= old_kept_views.push(pv[j as int]));
                            assert(old_kept_views.push(pv[j as int])
                                + kept_pairs(pv.skip(j as int + 1), rej)
                                =~= old_kept_views + (seq![pv[j as int]]
                                    + kept_pairs(pv.skip(j as int + 1), rej)));
                        }
                    } else {
                        proof {
                            assert(rej.contains(pv[j as int].0));
                        }
                    }
                    j += 1;
                }
                proof {
                    assert(pv.skip(n as int) =~= Seq::<(Seq<char>, Seq<char>)>::empty());
                    assert(kept_pairs(pv.skip(n as int), rej)
                        =~= Seq::<(Seq<char>, Seq<char>)>::empty());
                    assert(pair_views(kept@) + kept_pairs(pv.skip(n as int), rej)
                        =~= pair_views(kept@));
                }
                (Some(Event { tags: Some(kept) }), signals)
            },
        }
    }
}

/// The model outcome of one event under a policy: the state after its pairs
/// have been offered, and the forwarded event's tag views — `None` when the
/// event is discarded, `Some(None)` when an untagged event passes through.
pub open spec fn event_run(
    m: Map<Seq<char>, Set<Seq<char>>>,
    limit: nat,
    action: LimitExceededAction,
    ev: Option<Seq<(Seq<char>, Seq<char>)>>,
) -> (Map<Seq<char>, Set<Seq<char>>>, Option<Option<Seq<(Seq<char>, Seq<char>)>>>) {
    match ev {
        None => (m, Some(None)),
        Some(pairs) => match action {
            LimitExceededAction::DropEvent => {
                let run = drop_event_run(m, limit, pairs);
                (run.0, if run.1 { Some(Some(pairs)) } else { None })
            },
            LimitExceededAction::DropTag => {
                let run = drop_tag_run(m, limit, pairs);
                (run.0, Some(Some(kept_pairs(pairs, run.1))))
            },
        },
    }
}

/// The model of the stream adapter: one limiter state folded over a sequence
/// of events, forwarding the survivors in order.
pub open spec fn stream_run(
    m: Map<Seq<char>, Set<Seq<char>>>,
    limit: nat,
    action: LimitExceededAction,
    evs: Seq<Option<Seq<(Seq<char>, Seq<char>)>>>,
) -> (Map<Seq<char>, Set<Seq<char>>>, Seq<Option<Seq<(Seq<char>, Seq<char>)>>>)
    decreases evs.len(),
{
    if evs.len() == 0 {
        (m, Seq::<Option<Seq<(Seq<char>, Seq<char>)>>>::empty())
    } else {
        let st = event_run(m, limit, action, evs[0]);
        let rest = stream_run(st.0, limit, action, evs.drop_first());
        (
            rest.0,
            match st.1 {
                Some(e) => seq![e] + rest.1,
                None => rest.1,
            },
        )
    }
}

/// The tag views of a sequence of events.
pub open spec fn event_views(evs: Seq<Event>) -> Seq<Option<Seq<(Seq<char>, Seq<char>)>>> {
    evs.map_values(|e: Event| e.tag_views())
}

impl TagCardinalityLimit {
    /// Drives the limiter over a batch of events in order, applying
    /// `transform_one` to each and forwarding only the surviving events,
    /// their relative order preserved; no batching, no reordering, no
    /// look-ahead. Returns the survivors and all signals raised, in order.
    #[verifier::loop_isolation(false)]
    pub fn transform(&mut self, events: Vec<Event>) -> (r: (Vec<Event>, Vec<Signal>))
        requires
            old(self).wf(),
        ensures
            final(self).wf(),
            final(self).configuration() == old(self).configuration(),
            forall|k: Seq<char>, v: Seq<char>|
                old(self).reports_of(k, v) ==> final(self).reports_of(k, v),
            forall|k: Seq<char>| old(self).count_of(k) <= #[trigger] final(self).count_of(k),
            forall|k: Seq<char>| #[trigger] final(self).count_of(k) <= old(self).limit(),
            r.0@.len() <= events@.len(),
            // the drop-tag action forwards every event
            old(self).action() is DropTag ==> r.0@.len() == events@.len(),
            // exact mode realises the stream model exactly
            old(self).is_exact_mode() ==> {
                let run = stream_run(
                    old(self).model(),
                    old(self).limit(),
                    old(self).action(),
                    event_views(events@),
                );
                &&& final(self).model() == run.0
                &&& event_views(r.0@) == run.1
            },
    {
        let ghost pre = *self;
        let ghost evs = events@;
        let mut remaining = events;
        let mut out: Vec<Event> = Vec::new();
        let mut signals: Vec<Signal> = Vec::new();
        proof {
            assert(event_views(out@) =~= Seq::<Option<Seq<(Seq<char>, Seq<char>)>>>::empty());
            assert(event_views(out@) + stream_run(self.model(), self.limit(), self.action(),
                event_views(remaining@)).1
                =~= stream_run(self.model(), self.limit(), self.action(),
                    event_views(remaining@)).1);
        }
        while remaining.len() > 0
            invariant
                self.wf(),
                self.configuration() == pre.configuration(),
                forall|k: Seq<char>, v: Seq<char>|
                    pre.reports_of(k, v) ==> self.reports_of(k, v),
                forall|k: Seq<char>| pre.count_of(k) <= #[trigger] self.count_of(k),
                out@.len() + remaining@.len() <= evs.len(),
                pre.action() is DropTag ==> out@.len() + remaining@.len() == evs.len(),
                pre.is_exact_mode() ==> {
                    let run = stream_run(pre.model(), pre.limit(), pre.action(),
                        event_views(evs));
                    let rest = stream_run(self.model(), self.limit(), self.action(),
                        event_views(remaining@));
                    run.0 == rest.0 && run.1 == event_views(out@) + rest.1
                },
            decreases remaining@.len(),
        {
            let ghost cur = *self;
            let ghost old_out_views = event_views(out@);
            let ghost rem0 = remaining@;
            let ev = remaining.remove(0);
            proof {
                assert(event_views(rem0).len() > 0);
                assert(event_views(rem0)[0] == ev.tag_views());
                assert(event_views(rem0).drop_first() =~= event_views(remaining@));
            }
            let (forwarded, mut sigs) = self.transform_one(ev);
            signals.append(&mut sigs);
            match forwarded {
                Some(e) => {
                    out.push(e);
                    proof {
                        assert(event_views(out@) =~= old_out_views.push(e.tag_views()));
                        if pre.is_exact_mode() {
                            let st = event_run(cur.model(), cur.limit(), cur.action(),
                                ev.tag_views());
                            assert(st.0 == self.model());
                            assert(st.1 == Some(e.tag_views()));
                            let rest = stream_run(self.model(), self.limit(), self.action(),
                                event_views(remaining@));
                            assert(old_out_views.push(e.tag_views()) + rest.1
                                =~= old_out_views + (seq![e.tag_views()] + rest.1));
                        }
                    }
                },
                None => {
                    proof {
                        if pre.is_exact_mode() {
                            let st = event_run(cur.model(), cur.limit(), cur.action(),
                                ev.tag_views());
                            assert(st.0 == self.model());
                            assert(st.1 is None);
                        }
                    }
                },
            }
        }
        proof {
            assert(remaining@.len() == 0);
            assert(event_views(remaining@).len() == 0);
            if pre.is_exact_mode() {
                let rest = stream_run(self.model(), self.limit(), self.action(),
                    event_views(remaining@));
                assert(rest.0 == self.model()
                    && rest.1 =~= Seq::<Option<Seq<(Seq<char>, Seq<char>)>>>::empty());
                assert(event_views(out@) + rest.1 =~= event_views(out@));
            }
        }
        (out, signals)
    }
}

/// Whether `items` holds a string equal to `x`.
#[verifier::loop_isolation(false)]
fn contains_string(items: &Vec<String>, x: &String) -> (r: bool)
    ensures
        r == string_views(items@).to_set().contains(x@),
{
    let n: usize = items.len();
    let mut i: usize = 0;
    while i < n
        invariant
            0 <= i <= n,
            n == items@.len(),
            forall|j: int| 0 <= j < i ==> items@[j]@ != x@,
        decreases n - i,
    {
        if items[i] == *x {
            proof {
                assert(string_views(items@).contains(x@)) by {
                    assert(string_views(items@)[i as int] == x@);
                }
                assert(string_views(items@).to_set().contains(x@));
            }
            return true;
        }
        i += 1;
    }
    proof {
        if string_views(items@).to_set().contains(x@) {
            let j = choose|j: int| 0 <= j < string_views(items@).len()
                && string_views(items@)[j] == x@;
            assert(items@[j]@ == x@);
        }
    }
    false
}

} // verus!
