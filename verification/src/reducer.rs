//! Earliest-timestamp reduction over the classified candidate records.
//!
//! The reduction is a pure function of the candidate multiset: an empty set
//! means nothing deployment-related was found; a candidate without a block
//! time poisons the whole reduction (finalized transactions are expected to
//! carry one); otherwise the minimum block time is the answer.
use vstd::prelude::*;

verus! {

use crate::classifier::spec_is_deployment;
use crate::model::{TransactionRecord, TransactionRecordModel};
use crate::LookupFailure;

/// Block time of a candidate that has one.
pub open spec fn time_of(r: TransactionRecordModel) -> i64 {
    r.block_time.unwrap()
}

/// Some candidate carries no block time.
pub open spec fn has_missing_time(s: Seq<TransactionRecordModel>) -> bool {
    exists|k: int| 0 <= k < s.len() && (#[trigger] s[k]).block_time is None
}

/// Minimum block time of a non-empty run of candidates that all carry one.
pub open spec fn min_time(s: Seq<TransactionRecordModel>) -> i64
    decreases s.len(),
{
    if s.len() <= 1 {
        time_of(s[0])
    } else {
        let rest = min_time(s.drop_last());
        if time_of(s.last()) <= rest {
            time_of(s.last())
        } else {
            rest
        }
    }
}

/// The reduction outcome for a sequence of classified candidates.
pub open spec fn spec_earliest(s: Seq<TransactionRecordModel>) -> Result<i64, LookupFailure> {
    if s.len() == 0 {
        Err(LookupFailure::NoDeploymentFound)
    } else if has_missing_time(s) {
        Err(LookupFailure::MissingTimestamp)
    } else {
        Ok(min_time(s))
    }
}

/// The minimum block time is attained by some candidate and bounds them all
/// from below.
pub proof fn lemma_min_time_props(s: Seq<TransactionRecordModel>)
    requires
        s.len() >= 1,
    ensures
        exists|k: int| 0 <= k < s.len() && time_of(#[trigger] s[k]) == min_time(s),
        forall|k: int| 0 <= k < s.len() ==> min_time(s) <= time_of(#[trigger] s[k]),
    decreases s.len(),
{
    if s.len() == 1 {
        assert(time_of(s[0]) == min_time(s));
    } else {
        let prev = s.drop_last();
        lemma_min_time_props(prev);
        let kp = choose|k: int|
            0 <= k < prev.len() && time_of(#[trigger] prev[k]) == min_time(prev);
        assert(prev[kp] == s[kp]);
        if time_of(s.last()) <= min_time(prev) {
            assert(time_of(s[s.len() - 1]) == min_time(s));
        } else {
            assert(time_of(s[kp]) == min_time(s));
        }
        assert forall|k: int| 0 <= k < s.len() implies min_time(s) <= time_of(#[trigger] s[k]) by {
            if k < s.len() - 1 {
                assert(prev[k] == s[k]);
                assert(min_time(prev) <= time_of(prev[k]));
            }
        }
    }
}

/// Select the earliest block time among the classified candidates, or report
/// why none can be selected.
pub fn earliest(candidates: &Vec<TransactionRecord>) -> (r: Result<i64, LookupFailure>)
    ensures
        r == spec_earliest(candidates@.map_values(|t: TransactionRecord| t@)),
{
    let ghost v = candidates@.map_values(|t: TransactionRecord| t@);
    let n = candidates.len();
    if n == 0 {
        return Err(LookupFailure::NoDeploymentFound);
    }
    let mut best: i64;
    match candidates[0].block_time {
        Some(t) => {
            best = t;
        },
        None => {
            assert(v[0].block_time is None);
            return Err(LookupFailure::MissingTimestamp);
        },
    }
    assert(v.take(1).len() == 1 && v.take(1)[0] == v[0]);
    let mut i: usize = 1;
    while i < n
        invariant
            n == candidates@.len(),
            v == candidates@.map_values(|t: TransactionRecord| t@),
            1 <= i <= n,
            forall|j: int| 0 <= j < i as int ==> (#[trigger] v[j]).block_time is Some,
            best == min_time(v.take(i as int)),
        decreases n - i,
    {
        match candidates[i].block_time {
            Some(t) => {
                proof {
                    assert(v.take(i as int + 1).drop_last() =~= v.take(i as int));
                    assert(v.take(i as int + 1).last() == v[i as int]);
                }
                if t < best {
                    best = t;
                }
            },
            None => {
                assert(v[i as int].block_time is None);
                return Err(LookupFailure::MissingTimestamp);
            },
        }
        i += 1;
    }
    assert(v.take(n as int) =~= v);
    Ok(best)
}

/// An element of a filtered run comes from the run itself.
proof fn lemma_filter_element_origin(
    s: Seq<TransactionRecordModel>,
    pred: spec_fn(TransactionRecordModel) -> bool,
    i: int,
)
    requires
        0 <= i < s.filter(pred).len(),
    ensures
        s.contains(s.filter(pred)[i]),
    decreases s.len(),
{
    reveal(Seq::<_>::filter);
    if s.len() > 0 {
        let prev = s.drop_last();
        if pred(s.last()) {
            if i < s.filter(pred).len() - 1 {
                assert(s.filter(pred)[i] == prev.filter(pred)[i]);
                lemma_filter_element_origin(prev, pred, i);
                let j = choose|j: int| 0 <= j < prev.len() && prev[j] == prev.filter(pred)[i];
                assert(s[j] == s.filter(pred)[i]);
            } else {
                assert(s.filter(pred)[i] == s.last());
                assert(s[s.len() - 1] == s.last());
            }
        } else {
            assert(s.filter(pred) == prev.filter(pred));
            lemma_filter_element_origin(prev, pred, i);
            let j = choose|j: int| 0 <= j < prev.len() && prev[j] == prev.filter(pred)[i];
            assert(s[j] == s.filter(pred)[i]);
        }
    }
}

/// Classification and reduction together depend only on the multiset of
/// fetched records: the lookup result is invariant under any permutation of
/// the fetch result set.
pub proof fn lemma_reduction_permutation_over_fetch(
    s1: Seq<TransactionRecordModel>,
    s2: Seq<TransactionRecordModel>,
)
    requires
        s1.to_multiset() == s2.to_multiset(),
    ensures
        spec_earliest(s1.filter(|m: TransactionRecordModel| spec_is_deployment(m)))
            == spec_earliest(
            s2.filter(|m: TransactionRecordModel| spec_is_deployment(m)),
        ),
{
    broadcast use vstd::seq_lib::group_to_multiset_ensures;

    let pred = |m: TransactionRecordModel| spec_is_deployment(m);
    let f1 = s1.filter(pred);
    let f2 = s2.filter(pred);
    assert forall|i: int| 0 <= i < f1.len() implies f2.contains(#[trigger] f1[i]) by {
        lemma_filter_element_origin(s1, pred, i);
        s1.lemma_filter_pred(pred, i);
        assert(s1.to_multiset().count(f1[i]) > 0);
        assert(s2.contains(f1[i]));
        let j = choose|j: int| 0 <= j < s2.len() && s2[j] == f1[i];
        s2.lemma_filter_contains(pred, j);
    }
    assert forall|i: int| 0 <= i < f2.len() implies f1.contains(#[trigger] f2[i]) by {
        lemma_filter_element_origin(s2, pred, i);
        s2.lemma_filter_pred(pred, i);
        assert(s2.to_multiset().count(f2[i]) > 0);
        assert(s1.contains(f2[i]));
        let j = choose|j: int| 0 <= j < s1.len() && s1[j] == f2[i];
        s1.lemma_filter_contains(pred, j);
    }
    if f1.len() == 0 && f2.len() == 0 {
    } else if f1.len() == 0 {
        assert(f1.contains(f2[0]));
        assert(false);
    } else if f2.len() == 0 {
        assert(f2.contains(f1[0]));
        assert(false);
    } else if has_missing_time(f1) {
        let k = choose|k: int| 0 <= k < f1.len() && (#[trigger] f1[k]).block_time is None;
        assert(f2.contains(f1[k]));
        let j = choose|j: int| 0 <= j < f2.len() && f2[j] == f1[k];
        assert(f2[j].block_time is None);
        assert(has_missing_time(f2));
    } else if has_missing_time(f2) {
        let k = choose|k: int| 0 <= k < f2.len() && (#[trigger] f2[k]).block_time is None;
        assert(f1.contains(f2[k]));
        let j = choose|j: int| 0 <= j < f1.len() && f1[j] == f2[k];
        assert(f1[j].block_time is None);
        assert(false);
    } else {
        lemma_min_time_props(f1);
        lemma_min_time_props(f2);
        let a1 = choose|k: int| 0 <= k < f1.len() && time_of(#[trigger] f1[k]) == min_time(f1);
        assert(f2.contains(f1[a1]));
        let b1 = choose|j: int| 0 <= j < f2.len() && f2[j] == f1[a1];
        assert(min_time(f2) <= time_of(f2[b1]));
        let a2 = choose|k: int| 0 <= k < f2.len() && time_of(#[trigger] f2[k]) == min_time(f2);
        assert(f1.contains(f2[a2]));
        let b2 = choose|j: int| 0 <= j < f1.len() && f1[j] == f2[a2];
        assert(min_time(f1) <= time_of(f1[b2]));
    }
}

/// A single candidate carrying block time `t` reduces to exactly `t`.
pub proof fn lemma_earliest_single(r: TransactionRecordModel, t: i64)
    requires
        r.block_time == Some(t),
    ensures
        spec_earliest(seq![r]) == Ok::<i64, LookupFailure>(t),
{
    let s = seq![r];
    assert(s[0] == r);
    assert(!has_missing_time(s)) by {
        if has_missing_time(s) {
            let k = choose|k: int| 0 <= k < s.len() && (#[trigger] s[k]).block_time is None;
            assert(s[k] == r);
        }
    }
    assert(min_time(s) == time_of(s[0]));
}

/// A record at some index of `s1` also stands at some index of `s2`, when
/// the two hold the same multiset.
proof fn lemma_member_carries_over(
    s1: Seq<TransactionRecordModel>,
    s2: Seq<TransactionRecordModel>,
    k1: int,
) -> (k2: int)
    requires
        s1.to_multiset() == s2.to_multiset(),
        0 <= k1 < s1.len(),
    ensures
        0 <= k2 < s2.len(),
        s2[k2] == s1[k1],
{
    broadcast use vstd::seq_lib::group_to_multiset_ensures;

    assert(s1.contains(s1[k1]));
    assert(s1.to_multiset().count(s1[k1]) > 0);
    assert(s2.to_multiset().count(s1[k1]) > 0);
    assert(s2.contains(s1[k1]));
    choose|k: int| 0 <= k < s2.len() && s2[k] == s1[k1]
}

/// The reduction outcome depends only on the multiset of candidates: any
/// permutation (any fetch completion order) reduces to the same result.
pub proof fn lemma_earliest_permutation_invariant(
    s1: Seq<TransactionRecordModel>,
    s2: Seq<TransactionRecordModel>,
)
    requires
        s1.to_multiset() == s2.to_multiset(),
    ensures
        spec_earliest(s1) == spec_earliest(s2),
{
    broadcast use vstd::seq_lib::group_to_multiset_ensures;

    assert(s1.len() == s1.to_multiset().len());
    assert(s2.len() == s2.to_multiset().len());
    if s1.len() == 0 {
    } else if has_missing_time(s1) {
        let k1 = choose|k: int| 0 <= k < s1.len() && (#[trigger] s1[k]).block_time is None;
        let k2 = lemma_member_carries_over(s1, s2, k1);
        assert(s2[k2].block_time is None);
        assert(has_missing_time(s2));
    } else if has_missing_time(s2) {
        let k2 = choose|k: int| 0 <= k < s2.len() && (#[trigger] s2[k]).block_time is None;
        let k1 = lemma_member_carries_over(s2, s1, k2);
        assert(s1[k1].block_time is None);
        assert(has_missing_time(s1));
    } else {
        lemma_min_time_props(s1);
        lemma_min_time_props(s2);
        let a1 = choose|k: int| 0 <= k < s1.len() && time_of(#[trigger] s1[k]) == min_time(s1);
        let b1 = lemma_member_carries_over(s1, s2, a1);
        assert(min_time(s2) <= time_of(s2[b1]));
        let a2 = choose|k: int| 0 <= k < s2.len() && time_of(#[trigger] s2[k]) == min_time(s2);
        let b2 = lemma_member_carries_over(s2, s1, a2);
        assert(min_time(s1) <= time_of(s1[b2]));
    }
}

} // verus!
