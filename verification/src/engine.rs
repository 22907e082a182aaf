//! The provenance engine: validate the identifier, crawl the history, fetch
//! the details under the limiter, classify, and reduce to the earliest
//! deployment instant.
//!
//! The state machine is Validating, Crawling, Fetching, Classifying,
//! Reducing; every terminal outcome is pinned to the gateway interaction
//! that produced it by [`engine_run`].
use vstd::prelude::*;

verus! {

use crate::classifier::{classify_deployments, spec_is_deployment};
use crate::crawler::{crawl_aborted, crawl_ok, crawl_transaction_history, pages_concat};
use crate::fetcher::{dispatch_times, drained, get_all_transactions, initial_state, replay};
use crate::gateway::SolanaQueries;
use crate::identifier::{valid_program_id, validate};
use crate::limiter::{spaced, RateLimiter};
use crate::model::{
    GatewayCall,
    SignatureSummary, SignatureSummaryModel, TransactionRecord, TransactionRecordModel,
};
use crate::reducer::{earliest, spec_earliest};
use crate::LookupFailure;

/// The calls and result of a lookup that got past the crawl: some prefix of
/// the calls is a completed crawl with a non-empty history, the rest is a
/// policy-conforming, limiter-spaced fetch drain whose records reduce to the
/// result.
pub open spec fn lookup_completed(
    appended: Seq<GatewayCall>,
    interval: u64,
    next_free: u64,
    rr: Result<i64, LookupFailure>,
) -> bool {
    exists|k: int, recs: Seq<TransactionRecordModel>|
        #![trigger appended.take(k), drained(recs)]
        {
            let crawl_calls = appended.take(k);
            let fetch_calls = appended.skip(k);
            let summaries = pages_concat(crawl_calls);
            &&& 0 <= k <= appended.len()
            &&& crawl_ok(crawl_calls, summaries)
            &&& summaries.len() > 0
            &&& replay(
                initial_state(summaries.map_values(|s: SignatureSummaryModel| s.signature)),
                fetch_calls,
            ) == Some(drained(recs))
            &&& spaced(dispatch_times(fetch_calls), interval)
            &&& (fetch_calls.len() > 0 ==> dispatch_times(fetch_calls)[0] >= next_free)
            &&& rr == spec_earliest(
                recs.filter(|m: TransactionRecordModel| spec_is_deployment(m)),
            )
        }
}

/// What each outcome of a lookup on a valid identifier says about the calls
/// it made: a gateway failure comes from an aborted crawl, an empty history
/// from a completed crawl of nothing (so no detail was ever fetched), and
/// every other outcome from the full pipeline.
pub open spec fn engine_run(
    appended: Seq<GatewayCall>,
    interval: u64,
    next_free: u64,
    r: Result<i64, LookupFailure>,
) -> bool {
    match r {
        Ok(t) => lookup_completed(appended, interval, next_free, Ok(t)),
        Err(LookupFailure::InvalidIdentifier) => false,
        Err(LookupFailure::GatewayError) => crawl_aborted(appended),
        Err(LookupFailure::NoHistory) => crawl_ok(appended, Seq::empty()),
        Err(e) => lookup_completed(appended, interval, next_free, Err(e)),
    }
}

/// An empty history fails fast: a lookup that reports no history issued
/// page requests only, never a detail fetch.
pub proof fn lemma_no_history_issues_no_fetches(calls: Seq<GatewayCall>)
    requires
        crawl_ok(calls, Seq::empty()),
    ensures
        forall|k: int| 0 <= k < calls.len() ==> (#[trigger] calls[k]) is Page,
        forall|k: int| 0 <= k < calls.len() ==> !((#[trigger] calls[k]) is Tx),
{
}

/// Resolve the earliest deployment instant of the program `program_id`, as
/// unix seconds.
pub fn get_first_deployed_slot_timestamp<G: SolanaQueries>(
    gateway: &mut G,
    limiter: &mut RateLimiter,
    program_id: &str,
) -> (r: Result<i64, LookupFailure>)
    ensures
        final(limiter).interval == old(limiter).interval,
        old(gateway).log().len() <= final(gateway).log().len(),
        final(gateway).log().take(old(gateway).log().len() as int) == old(gateway).log(),
        !valid_program_id(program_id@) ==> r == Err::<i64, LookupFailure>(
            LookupFailure::InvalidIdentifier,
        ) && final(gateway).log() == old(gateway).log(),
        valid_program_id(program_id@) ==> engine_run(
            final(gateway).log().skip(old(gateway).log().len() as int),
            old(limiter).interval,
            old(limiter).next_free,
            r,
        ),
{
    let ghost base = gateway.log();

    // Validating.
    let id = match validate(program_id) {
        Ok(id) => id,
        Err(e) => {
            proof {
                assert(gateway.log().take(base.len() as int) =~= base);
            }
            return Err(e);
        },
    };

    // Crawling.
    let summaries = match crawl_transaction_history(gateway, &id) {
        Ok(v) => v,
        Err(e) => {
            return Err(e);
        },
    };
    let ghost crawl_calls = gateway.log().skip(base.len() as int);
    let ghost summary_models = summaries@.map_values(|s: SignatureSummary| s@);

    if summaries.len() == 0 {
        proof {
            assert(summary_models =~= Seq::<SignatureSummaryModel>::empty());
        }
        return Err(LookupFailure::NoHistory);
    }

    // Fetching.
    let ghost log1 = gateway.log();
    let records = get_all_transactions(gateway, limiter, &summaries);
    let ghost fetch_calls = gateway.log().skip(log1.len() as int);
    let ghost record_models = records@.map_values(|t: TransactionRecord| t@);

    // Classifying.
    let candidates = classify_deployments(records);

    // Reducing.
    let result = earliest(&candidates);

    proof {
        let full = gateway.log();
        let appended = full.skip(base.len() as int);
        assert(full.take(base.len() as int) =~= base);
        let k = crawl_calls.len() as int;
        assert(appended.take(k) =~= crawl_calls);
        assert(appended.skip(k) =~= fetch_calls);
        assert(pages_concat(crawl_calls) == summary_models);
        assert(summary_models.map_values(|s: SignatureSummaryModel| s.signature)
            =~= summaries@.map_values(|s: SignatureSummary| s@.signature));
        assert(replay(
            initial_state(summary_models.map_values(|s: SignatureSummaryModel| s.signature)),
            fetch_calls,
        ) == Some(drained(record_models)));
        assert(result == spec_earliest(
            record_models.filter(|m: TransactionRecordModel| spec_is_deployment(m)),
        ));
        assert(lookup_completed(appended, old(limiter).interval, old(limiter).next_free, result));
    }
    result
}

} // verus!
