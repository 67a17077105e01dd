//! The mathematical model of the decision procedure: per key, the set of
//! values accepted so far, as a map from key to value set. In exact mode the
//! limiter follows this model step for step; the probabilistic mode may
//! additionally treat an unseen value as already accepted (a false positive)
//! and so is only bounded by it, not equal to it.

use vstd::prelude::*;

verus! {

/// The set of accepted values a model state holds for a key; empty for a key
/// never seen.
pub open spec fn model_get(m: Map<Seq<char>, Set<Seq<char>>>, k: Seq<char>) -> Set<Seq<char>> {
    if m.contains_key(k) {
        m[k]
    } else {
        Set::<Seq<char>>::empty()
    }
}

/// Whether one (key, value) pair is accepted in state `m`: the value was
/// already accepted for the key, or the key still has room under the limit.
pub open spec fn step_accepts(
    m: Map<Seq<char>, Set<Seq<char>>>,
    limit: nat,
    k: Seq<char>,
    v: Seq<char>,
) -> bool {
    model_get(m, k).contains(v) || model_get(m, k).len() < limit
}

/// The state after one (key, value) pair has been offered: on acceptance the
/// value joins the key's set, on rejection nothing changes.
pub open spec fn step_map(
    m: Map<Seq<char>, Set<Seq<char>>>,
    limit: nat,
    k: Seq<char>,
    v: Seq<char>,
) -> Map<Seq<char>, Set<Seq<char>>> {
    if step_accepts(m, limit, k, v) {
        m.insert(k, model_get(m, k).insert(v))
    } else {
        m
    }
}

/// Whether offering one (key, value) pair makes the key's accepted count
/// reach the limit: the pair is new and fills the last free slot. This is
/// the transition at which the one-time limit-reached signal fires.
pub open spec fn step_signal(
    m: Map<Seq<char>, Set<Seq<char>>>,
    limit: nat,
    k: Seq<char>,
    v: Seq<char>,
) -> bool {
    !model_get(m, k).contains(v) && model_get(m, k).len() + 1 == limit
}

/// The drop-event policy over one event's tag pairs, in order: accepted
/// pairs mutate the state; the first rejection stops the pass and discards
/// the event. Returns the final state and whether the event survived. Pairs
/// accepted before the rejecting one stay accepted: there is no rollback.
pub open spec fn drop_event_run(
    m: Map<Seq<char>, Set<Seq<char>>>,
    limit: nat,
    pairs: Seq<(Seq<char>, Seq<char>)>,
) -> (Map<Seq<char>, Set<Seq<char>>>, bool)
    decreases pairs.len(),
{
    if pairs.len() == 0 {
        (m, true)
    } else {
        let k = pairs[0].0;
        let v = pairs[0].1;
        if step_accepts(m, limit, k, v) {
            drop_event_run(step_map(m, limit, k, v), limit, pairs.drop_first())
        } else {
            (m, false)
        }
    }
}

/// The drop-tag policy over one event's tag pairs, in order, without
/// short-circuiting: accepted pairs mutate the state; the keys of rejected
/// pairs are collected. Returns the final state and the rejected key set.
pub open spec fn drop_tag_run(
    m: Map<Seq<char>, Set<Seq<char>>>,
    limit: nat,
    pairs: Seq<(Seq<char>, Seq<char>)>,
) -> (Map<Seq<char>, Set<Seq<char>>>, Set<Seq<char>>)
    decreases pairs.len(),
{
    if pairs.len() == 0 {
        (m, Set::<Seq<char>>::empty())
    } else {
        let k = pairs[0].0;
        let v = pairs[0].1;
        if step_accepts(m, limit, k, v) {
            drop_tag_run(step_map(m, limit, k, v), limit, pairs.drop_first())
        } else {
            let rec = drop_tag_run(m, limit, pairs.drop_first());
            (rec.0, rec.1.insert(k))
        }
    }
}

/// The tag pairs that survive the drop-tag policy: every pair whose key is
/// not among the rejected keys, in their original order. A pair whose value
/// was accepted is still removed when a later value got its key rejected,
/// because removal strips the whole key from the event.
pub open spec fn kept_pairs(
    pairs: Seq<(Seq<char>, Seq<char>)>,
    rejected: Set<Seq<char>>,
) -> Seq<(Seq<char>, Seq<char>)>
    decreases pairs.len(),
{
    if pairs.len() == 0 {
        Seq::<(Seq<char>, Seq<char>)>::empty()
    } else {
        let rest = kept_pairs(pairs.drop_first(), rejected);
        if rejected.contains(pairs[0].0) {
            rest
        } else {
            seq![pairs[0]] + rest
        }
    }
}

} // verus!
