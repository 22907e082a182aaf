//! The rate-limited, retrying fetch of transaction details: a work queue
//! seeded with every crawled signature is drained through the gateway, one
//! limiter slot per dispatch.
//!
//! A throttled request re-enqueues the same signature until the attempt cap;
//! any other failure drops the signature immediately. The drain returns only
//! when every signature has produced exactly one record or been permanently
//! dropped. The whole policy is captured by [`replay`]: folding the policy
//! step over the calls actually made must reproduce the returned records
//! with an empty queue.
use vstd::prelude::*;

verus! {

use crate::gateway::{tx_call, SolanaQueries};
use crate::limiter::{spaced, RateLimiter};
use crate::model::{
    fetched_view, FetchFailure, GatewayCall, SignatureSummary, TransactionRecord,
    TransactionRecordModel,
};

/// Cap on attempts per signature: a throttled signature is retried until it
/// has been attempted this many times, then dropped.
pub const MAX_FETCH_ATTEMPTS: usize = 3;

/// One work-queue entry: a signature and the attempts already made for it.
pub struct WorkItem {
    pub signature: String,
    pub attempts: usize,
}

/// Mathematical view of a [`WorkItem`].
#[verifier::ext_equal]
pub struct WorkItemModel {
    pub signature: Seq<char>,
    pub attempts: int,
}

impl View for WorkItem {
    type V = WorkItemModel;

    open spec fn view(&self) -> WorkItemModel {
        WorkItemModel { signature: self.signature@, attempts: self.attempts as int }
    }
}

/// State of the drain: the pending queue (front first) and the records
/// gathered so far.
#[verifier::ext_equal]
pub struct FetchState {
    pub queue: Seq<WorkItemModel>,
    pub records: Seq<TransactionRecordModel>,
}

/// A drain state with the given pending queue and records.
pub open spec fn pending(
    queue: Seq<WorkItemModel>,
    records: Seq<TransactionRecordModel>,
) -> FetchState {
    FetchState { queue, records }
}

/// The state a completed drain must reach: nothing pending.
pub open spec fn drained(records: Seq<TransactionRecordModel>) -> FetchState {
    FetchState { queue: Seq::empty(), records }
}

/// The state a drain starts from: every signature queued, no attempts made.
pub open spec fn initial_state(signatures: Seq<Seq<char>>) -> FetchState {
    FetchState {
        queue: signatures.map_values(|s: Seq<char>| WorkItemModel { signature: s, attempts: 0 }),
        records: Seq::empty(),
    }
}

/// One step of the fetch policy: the call must request the signature at the
/// queue front; a successful call keeps its record, a throttled call under
/// the attempt cap re-enqueues the same signature, anything else drops it.
pub open spec fn policy_step(st: FetchState, c: GatewayCall) -> Option<FetchState> {
    if st.queue.len() == 0 {
        None
    } else if !(c is Tx) {
        None
    } else if c->signature != st.queue[0].signature {
        None
    } else {
        let rest = st.queue.drop_first();
        match c->fetched {
            Ok(rec) => Some(pending(rest, st.records.push(rec))),
            Err(e) => if e == FetchFailure::RateLimited && st.queue[0].attempts + 1
                < MAX_FETCH_ATTEMPTS {
                Some(
                    pending(
                        rest.push(
                            WorkItemModel {
                                signature: st.queue[0].signature,
                                attempts: st.queue[0].attempts + 1,
                            },
                        ),
                        st.records,
                    ),
                )
            } else {
                Some(pending(rest, st.records))
            },
        }
    }
}

/// Fold the fetch policy over a run of calls: `Some(state)` exactly when the
/// run is one the policy generates from `st0`, with `state` what it reaches.
pub open spec fn replay(st0: FetchState, calls: Seq<GatewayCall>) -> Option<FetchState>
    decreases calls.len(),
{
    if calls.len() == 0 {
        Some(st0)
    } else {
        match replay(st0, calls.drop_last()) {
            Some(st) => policy_step(st, calls.last()),
            None => None,
        }
    }
}

/// The limiter slots the calls were dispatched under, in call order.
pub open spec fn dispatch_times(calls: Seq<GatewayCall>) -> Seq<u64> {
    calls.map_values(|c: GatewayCall| c->not_before)
}

/// Every queued entry is under the attempt cap.
pub open spec fn queue_wf(q: Seq<WorkItemModel>) -> bool {
    forall|k: int| 0 <= k < q.len() ==> 0 <= (#[trigger] q[k]).attempts < MAX_FETCH_ATTEMPTS
}

/// Attempts still available to the queue: the drain makes at most this many
/// further calls.
pub open spec fn budget(q: Seq<WorkItemModel>) -> int
    decreases q.len(),
{
    if q.len() == 0 {
        0
    } else {
        (MAX_FETCH_ATTEMPTS - q[0].attempts) + budget(q.drop_first())
    }
}

proof fn lemma_budget_nonneg(q: Seq<WorkItemModel>)
    requires
        queue_wf(q),
    ensures
        budget(q) >= q.len(),
    decreases q.len(),
{
    if q.len() > 0 {
        assert(queue_wf(q.drop_first()));
        lemma_budget_nonneg(q.drop_first());
    }
}

proof fn lemma_budget_push(q: Seq<WorkItemModel>, w: WorkItemModel)
    ensures
        budget(q.push(w)) == budget(q) + (MAX_FETCH_ATTEMPTS - w.attempts),
    decreases q.len(),
{
    assert(q.push(w).len() == q.len() + 1);
    assert(budget(q.push(w)) == (MAX_FETCH_ATTEMPTS - q.push(w)[0].attempts) + budget(
        q.push(w).drop_first(),
    ));
    if q.len() == 0 {
        assert(q.push(w).drop_first() =~= Seq::<WorkItemModel>::empty());
        assert(q.push(w)[0] == w);
        assert(budget(Seq::<WorkItemModel>::empty()) == 0);
    } else {
        assert(q.push(w).drop_first() =~= q.drop_first().push(w));
        assert(q.push(w)[0] == q[0]);
        lemma_budget_push(q.drop_first(), w);
        assert(budget(q) == (MAX_FETCH_ATTEMPTS - q[0].attempts) + budget(q.drop_first()));
    }
}

/// Appending a dispatch granted at or after the limiter's next free instant
/// keeps the run spaced.
proof fn lemma_spaced_push(dt0: Seq<u64>, t: u64, interval: u64, nf: u64)
    requires
        spaced(dt0, interval),
        t >= nf,
        dt0.len() > 0 ==> nf == (if dt0.last() + interval <= u64::MAX {
            dt0.last() + interval
        } else {
            u64::MAX as int
        }),
    ensures
        spaced(dt0.push(t), interval),
        dt0.push(t)[0] == (if dt0.len() == 0 {
            t
        } else {
            dt0[0]
        }),
{
    let dt1 = dt0.push(t);
    assert forall|k: int| 1 <= k < dt1.len() implies ((#[trigger] dt1[k]) >= dt1[k - 1] + interval
        || dt1[k] == u64::MAX) by {
        if k < dt0.len() {
            assert(dt1[k] == dt0[k] && dt1[k - 1] == dt0[k - 1]);
        } else {
            assert(dt1[k] == t);
            assert(dt1[k - 1] == dt0.last());
            if dt0.last() + interval <= u64::MAX {
                assert(t >= dt0.last() + interval);
            } else {
                assert(t == u64::MAX);
            }
        }
    }
}

proof fn lemma_wf_suffix(q: Seq<WorkItemModel>, h: int)
    requires
        queue_wf(q),
        0 <= h <= q.len(),
    ensures
        queue_wf(q.skip(h)),
{
    assert forall|k: int| 0 <= k < q.skip(h).len() implies 0 <= (#[trigger] q.skip(
        h,
    )[k]).attempts < MAX_FETCH_ATTEMPTS by {
        assert(q.skip(h)[k] == q[h + k]);
        assert(0 <= q[h + k].attempts < MAX_FETCH_ATTEMPTS);
    }
}

/// Drain the work queue seeded with the signatures of `transactions`,
/// dispatching each request under a limiter slot. The calls made are exactly
/// a run of the fetch policy ending with an empty queue, and no two of them
/// are scheduled closer together than the limiter interval.
#[verifier::rlimit(100)]
pub fn get_all_transactions<G: SolanaQueries>(
    gateway: &mut G,
    limiter: &mut RateLimiter,
    transactions: &Vec<SignatureSummary>,
) -> (records: Vec<TransactionRecord>)
    ensures
        old(gateway).log().len() <= final(gateway).log().len(),
        final(gateway).log().take(old(gateway).log().len() as int) == old(gateway).log(),
        final(limiter).interval == old(limiter).interval,
        ({
            let appended = final(gateway).log().skip(old(gateway).log().len() as int);
            let sigs = transactions@.map_values(|s: SignatureSummary| s@.signature);
            &&& replay(initial_state(sigs), appended) == Some(
                drained(records@.map_values(|t: TransactionRecord| t@)),
            )
            &&& spaced(dispatch_times(appended), old(limiter).interval)
            &&& appended.len() > 0 ==> dispatch_times(appended)[0] >= old(limiter).next_free
        }),
{
    let ghost base = gateway.log();
    let ghost sigs = transactions@.map_values(|s: SignatureSummary| s@.signature);
    let ghost interval0 = limiter.interval;
    let ghost next_free0 = limiter.next_free;

    let mut queue: Vec<WorkItem> = Vec::new();
    let mut i: usize = 0;
    while i < transactions.len()
        invariant
            i <= transactions.len(),
            queue@.len() == i as int,
            forall|j: int|
                0 <= j < i as int ==> (#[trigger] queue@[j]).signature@
                    == transactions@[j]@.signature && queue@[j].attempts == 0,
        decreases transactions.len() - i,
    {
        queue.push(WorkItem { signature: transactions[i].signature.clone(), attempts: 0 });
        i += 1;
    }
    proof {
        assert(queue@.map_values(|w: WorkItem| w@) =~= initial_state(sigs).queue);
    }

    let mut records: Vec<TransactionRecord> = Vec::new();
    let mut head: usize = 0;
    while head < queue.len()
        invariant
            base == old(gateway).log(),
            interval0 == old(limiter).interval,
            next_free0 == old(limiter).next_free,
            sigs == transactions@.map_values(|s: SignatureSummary| s@.signature),
            head <= queue.len(),
            gateway.log().len() >= base.len(),
            gateway.log().take(base.len() as int) == base,
            limiter.interval == interval0,
            queue_wf(queue@.map_values(|w: WorkItem| w@)),
            replay(initial_state(sigs), gateway.log().skip(base.len() as int)) == Some(
                pending(
                    queue@.map_values(|w: WorkItem| w@).skip(head as int),
                    records@.map_values(|t: TransactionRecord| t@),
                ),
            ),
            spaced(dispatch_times(gateway.log().skip(base.len() as int)), interval0),
            ({
                let dt = dispatch_times(gateway.log().skip(base.len() as int));
                &&& (dt.len() > 0 ==> dt[0] >= next_free0)
                &&& limiter.next_free == (if dt.len() == 0 {
                    next_free0 as int
                } else if dt.last() + interval0 <= u64::MAX {
                    dt.last() + interval0
                } else {
                    u64::MAX as int
                })
            }),
        decreases budget(queue@.map_values(|w: WorkItem| w@).skip(head as int)),
    {
        let ghost app0 = gateway.log().skip(base.len() as int);
        let ghost queue_pre = queue@;
        let ghost full_pre = queue@.map_values(|w: WorkItem| w@);
        let ghost mid_queue = full_pre.skip(head as int);
        let ghost mid_records = records@.map_values(|t: TransactionRecord| t@);
        proof {
            lemma_wf_suffix(full_pre, head as int);
            assert(mid_queue.len() > 0);
            assert(full_pre[head as int] == queue@[head as int]@);
            assert(mid_queue[0] == full_pre[head as int]);
            lemma_budget_nonneg(mid_queue);
            assert(mid_queue.skip(1) =~= mid_queue.drop_first());
            lemma_wf_suffix(mid_queue, 1);
        }

        let ghost log0 = gateway.log();
        let ghost old_nf = limiter.next_free;
        let item_sig = queue[head].signature.clone();
        let attempts = queue[head].attempts;
        let now_reading = gateway.now();
        let slot = limiter.grant(now_reading);
        let outcome = gateway.get_transaction(&item_sig, slot);
        let ghost c = tx_call(item_sig@, slot, fetched_view(outcome));
        proof {
            assert(gateway.log() == log0.push(c));
            assert(gateway.log().take(base.len() as int) =~= base);
            assert(gateway.log().skip(base.len() as int) =~= app0.push(c));
            assert((app0.push(c)).drop_last() =~= app0);
            assert(replay(initial_state(sigs), app0.push(c)) == policy_step(
                pending(mid_queue, mid_records),
                c,
            ));
            assert(c->signature == mid_queue[0].signature);
            // Dispatch spacing.
            assert(dispatch_times(app0.push(c)) =~= dispatch_times(app0).push(slot));
            lemma_spaced_push(dispatch_times(app0), slot, interval0, old_nf);
        }
        head = head + 1;
        match outcome {
            Ok(rec) => {
                let ghost recs_pre = records@;
                let ghost recm = rec@;
                records.push(rec);
                proof {
                    assert(records@.map_values(|t: TransactionRecord| t@) =~= recs_pre.map_values(
                        |t: TransactionRecord| t@,
                    ).push(recm));
                }
            },
            Err(e) => {
                if e == FetchFailure::RateLimited && attempts + 1 < MAX_FETCH_ATTEMPTS {
                    queue.push(WorkItem { signature: item_sig, attempts: attempts + 1 });
                }
            },
        }
        proof {
            let appended = gateway.log().skip(base.len() as int);
            assert(appended =~= app0.push(c));
            let stepped = policy_step(pending(mid_queue, mid_records), c);
            let full_now = queue@.map_values(|w: WorkItem| w@);
            let rest = mid_queue.drop_first();
            assert(rest =~= full_pre.skip(head as int));
            assert(budget(mid_queue) == (MAX_FETCH_ATTEMPTS - mid_queue[0].attempts) + budget(
                rest,
            ));
            lemma_budget_nonneg(rest);
            match fetched_view(outcome) {
                Ok(recm) => {
                    assert(queue@ == queue_pre);
                    assert(full_now =~= full_pre);
                    assert(stepped == Some(
                        pending(
                            full_now.skip(head as int),
                            records@.map_values(|t: TransactionRecord| t@),
                        ),
                    ));
                    assert(budget(full_now.skip(head as int)) < budget(mid_queue));
                },
                Err(e) => {
                    if e == FetchFailure::RateLimited && mid_queue[0].attempts + 1
                        < MAX_FETCH_ATTEMPTS {
                        let item = queue@.last();
                        assert(queue@ == queue_pre.push(item));
                        assert(item@.signature == mid_queue[0].signature);
                        assert(item@.attempts == mid_queue[0].attempts + 1);
                        assert(full_now =~= full_pre.push(item@));
                        assert(full_now.skip(head as int) =~= rest.push(item@));
                        assert(queue_wf(full_now)) by {
                            assert forall|k: int| 0 <= k < full_now.len() implies 0 <= (
                            #[trigger] full_now[k]).attempts < MAX_FETCH_ATTEMPTS by {
                                if k < full_pre.len() {
                                    assert(full_now[k] == full_pre[k]);
                                } else {
                                    assert(full_now[k] == item@);
                                }
                            }
                        }
                        lemma_budget_push(rest, item@);
                        assert(stepped == Some(
                            pending(
                                full_now.skip(head as int),
                                records@.map_values(|t: TransactionRecord| t@),
                            ),
                        ));
                        assert(budget(full_now.skip(head as int)) < budget(mid_queue));
                    } else {
                        assert(queue@ == queue_pre);
                        assert(full_now =~= full_pre);
                        assert(stepped == Some(
                            pending(
                                full_now.skip(head as int),
                                records@.map_values(|t: TransactionRecord| t@),
                            ),
                        ));
                        assert(budget(full_now.skip(head as int)) < budget(mid_queue));
                    }
                },
            }
        }
    }
    proof {
        assert(queue@.map_values(|w: WorkItem| w@).skip(head as int)
            =~= Seq::<WorkItemModel>::empty());
    }
    records
}

/// The requested signatures of the calls of a run that returned a record.
pub open spec fn successful_request_sigs(calls: Seq<GatewayCall>) -> Seq<Seq<char>> {
    calls.filter(|c: GatewayCall| c is Tx && c->fetched is Ok).map_values(
        |c: GatewayCall| c->signature,
    )
}

/// The signatures of a queue's entries, front first.
pub open spec fn queue_sigs(q: Seq<WorkItemModel>) -> Seq<Seq<char>> {
    q.map_values(|w: WorkItemModel| w.signature)
}

/// Across any run of the fetch policy, a signature is fetched successfully
/// at most as often as it was queued to begin with: a retried signature is
/// never duplicated in the record set.
pub proof fn lemma_no_duplicate_success(st0: FetchState, calls: Seq<GatewayCall>, st: FetchState)
    requires
        replay(st0, calls) == Some(st),
    ensures
        successful_request_sigs(calls).to_multiset().add(
            queue_sigs(st.queue).to_multiset(),
        ).subset_of(queue_sigs(st0.queue).to_multiset()),
    decreases calls.len(),
{
    broadcast use vstd::seq_lib::group_to_multiset_ensures;
    broadcast use vstd::multiset::group_multiset_axioms;

    reveal(Seq::<_>::filter);
    let pred = |c: GatewayCall| c is Tx && c->fetched is Ok;
    if calls.len() == 0 {
        assert(st == st0);
        assert(calls.filter(pred) =~= Seq::<GatewayCall>::empty());
        assert(successful_request_sigs(calls) =~= Seq::<Seq<char>>::empty());
        assert forall|x: Seq<char>|
            successful_request_sigs(calls).to_multiset().add(
                queue_sigs(st.queue).to_multiset(),
            ).count(x) <= queue_sigs(st0.queue).to_multiset().count(x) by {
            assert(!successful_request_sigs(calls).contains(x));
            assert(successful_request_sigs(calls).to_multiset().count(x) == 0);
        }
    } else {
        let prev = calls.drop_last();
        let c = calls.last();
        let stp = replay(st0, prev).unwrap();
        assert(replay(st0, prev) is Some);
        assert(policy_step(stp, c) == Some(st));
        lemma_no_duplicate_success(st0, prev, stp);
        let sig0 = stp.queue[0].signature;
        assert(c->signature == sig0);
        // The successful signatures of the run, extended or not by this call.
        assert(calls.drop_last() =~= prev);
        if pred(c) {
            assert(calls.filter(pred) == prev.filter(pred).push(c));
            assert(successful_request_sigs(calls) =~= successful_request_sigs(prev).push(sig0));
            assert(successful_request_sigs(calls).to_multiset() =~= successful_request_sigs(
                prev,
            ).to_multiset().insert(sig0));
        } else {
            assert(calls.filter(pred) == prev.filter(pred));
            assert(successful_request_sigs(calls) == successful_request_sigs(prev));
        }
        // The queue loses its front entry, possibly re-enqueued once more.
        let qs_p = queue_sigs(stp.queue);
        assert(qs_p.len() == stp.queue.len() > 0);
        assert(qs_p[0] == sig0);
        assert(qs_p.remove(0) =~= queue_sigs(stp.queue.drop_first()));
        assert(qs_p.remove(0).to_multiset() =~= qs_p.to_multiset().remove(qs_p[0]));
        assert(qs_p.contains(sig0));
        assert(qs_p.to_multiset().count(sig0) > 0);
        let rest_ms = queue_sigs(stp.queue.drop_first()).to_multiset();
        match c->fetched {
            Ok(recm) => {
                assert(st.queue == stp.queue.drop_first());
                assert forall|x: Seq<char>|
                    successful_request_sigs(calls).to_multiset().add(
                        queue_sigs(st.queue).to_multiset(),
                    ).count(x) <= queue_sigs(st0.queue).to_multiset().count(x) by {
                    assert(successful_request_sigs(prev).to_multiset().add(
                        qs_p.to_multiset(),
                    ).count(x) <= queue_sigs(st0.queue).to_multiset().count(x));
                }
            },
            Err(e) => {
                if e == FetchFailure::RateLimited && stp.queue[0].attempts + 1
                    < MAX_FETCH_ATTEMPTS {
                    let w = WorkItemModel { signature: sig0, attempts: stp.queue[0].attempts + 1 };
                    assert(st.queue == stp.queue.drop_first().push(w));
                    assert(queue_sigs(st.queue) =~= queue_sigs(stp.queue.drop_first()).push(sig0));
                    assert(queue_sigs(st.queue).to_multiset() =~= rest_ms.insert(sig0));
                    assert forall|x: Seq<char>|
                        successful_request_sigs(calls).to_multiset().add(
                            queue_sigs(st.queue).to_multiset(),
                        ).count(x) <= queue_sigs(st0.queue).to_multiset().count(x) by {
                        assert(successful_request_sigs(prev).to_multiset().add(
                            qs_p.to_multiset(),
                        ).count(x) <= queue_sigs(st0.queue).to_multiset().count(x));
                    }
                } else {
                    assert(st.queue == stp.queue.drop_first());
                    assert forall|x: Seq<char>|
                        successful_request_sigs(calls).to_multiset().add(
                            queue_sigs(st.queue).to_multiset(),
                        ).count(x) <= queue_sigs(st0.queue).to_multiset().count(x) by {
                        assert(successful_request_sigs(prev).to_multiset().add(
                            qs_p.to_multiset(),
                        ).count(x) <= queue_sigs(st0.queue).to_multiset().count(x));
                    }
                }
            },
        }
    }
}

} // verus!
