//! The history crawl: sequential, paginated retrieval of every
//! transaction-signature summary for a program, newest first.
//!
//! Each request asks for the page strictly older than the cursor, initially
//! unset; the cursor then advances to the last summary of the page just
//! received. A page shorter than the server-side limit signals exhaustion.
//! Any gateway failure aborts the crawl: no partial result is returned.
use vstd::prelude::*;

verus! {

use crate::gateway::{page_call, SolanaQueries};
use crate::identifier::ProgramIdentifier;
use crate::model::{GatewayCall, SignatureSummary, SignatureSummaryModel};
use crate::LookupFailure;

/// Server-side default page size; a shorter page signals exhausted history.
pub const DEFAULT_SERVER_SIDE_LIMIT: usize = 1000;

/// Explicit upper bound on pages retrieved by one crawl. A history this deep
/// aborts the lookup rather than crawl without bound.
pub const MAX_HISTORY_PAGES: usize = 100000;

/// The page a successful page request returned.
pub open spec fn page_of(c: GatewayCall) -> Seq<SignatureSummaryModel> {
    match c {
        GatewayCall::Page { page: Ok(p), .. } => p,
        _ => Seq::empty(),
    }
}

/// The call is a page request that succeeded.
pub open spec fn is_ok_page(c: GatewayCall) -> bool {
    c matches GatewayCall::Page { page: Ok(_), .. }
}

/// The call is a page request that failed.
pub open spec fn is_err_page(c: GatewayCall) -> bool {
    c matches GatewayCall::Page { page: Err(_), .. }
}

/// The call returned a full page, so the crawl continues past it.
pub open spec fn is_full_page(c: GatewayCall) -> bool {
    is_ok_page(c) && page_of(c).len() >= DEFAULT_SERVER_SIDE_LIMIT
}

/// The calls are all page requests; the first carries no cursor, and every
/// later one follows a full page, its cursor the signature of that page's
/// last summary.
pub open spec fn crawl_requests_chained(calls: Seq<GatewayCall>) -> bool {
    &&& forall|k: int| 0 <= k < calls.len() ==> (#[trigger] calls[k]) is Page
    &&& (calls.len() > 0 ==> calls[0]->cursor is None)
    &&& forall|k: int|
        1 <= k < calls.len() ==> is_full_page(calls[k - 1]) && (#[trigger] calls[k])->cursor
            == Some(page_of(calls[k - 1]).last().signature)
}

/// Concatenation of the returned pages, in request order.
pub open spec fn pages_concat(calls: Seq<GatewayCall>) -> Seq<SignatureSummaryModel>
    decreases calls.len(),
{
    if calls.len() == 0 {
        Seq::empty()
    } else {
        pages_concat(calls.drop_last()) + page_of(calls.last())
    }
}

/// A completed crawl: chained requests, every page full but the last, the
/// last one short, and the result the exact concatenation.
pub open spec fn crawl_ok(calls: Seq<GatewayCall>, result: Seq<SignatureSummaryModel>) -> bool {
    &&& crawl_requests_chained(calls)
    &&& calls.len() >= 1
    &&& forall|k: int| 0 <= k < calls.len() - 1 ==> is_full_page(#[trigger] calls[k])
    &&& is_ok_page(calls.last())
    &&& page_of(calls.last()).len() < DEFAULT_SERVER_SIDE_LIMIT
    &&& result == pages_concat(calls)
}

/// An aborted crawl: chained requests, every page full but the last, and the
/// last request either failed or exhausted the page bound while still full.
pub open spec fn crawl_aborted(calls: Seq<GatewayCall>) -> bool {
    &&& crawl_requests_chained(calls)
    &&& calls.len() >= 1
    &&& forall|k: int| 0 <= k < calls.len() - 1 ==> is_full_page(#[trigger] calls[k])
    &&& (is_err_page(calls.last()) || (calls.len() == MAX_HISTORY_PAGES && is_full_page(
        calls.last(),
    )))
}

/// Retrieve the complete signature history of `program_id`, newest first,
/// preserving server order exactly. Returns the gateway failure kind on any
/// transport failure; no partial crawl result is ever returned.
pub fn crawl_transaction_history<G: SolanaQueries>(
    gateway: &mut G,
    program_id: &ProgramIdentifier,
) -> (r: Result<Vec<SignatureSummary>, LookupFailure>)
    ensures
        old(gateway).log().len() <= final(gateway).log().len(),
        final(gateway).log().take(old(gateway).log().len() as int) == old(gateway).log(),
        ({
            let appended = final(gateway).log().skip(old(gateway).log().len() as int);
            match r {
                Ok(v) => crawl_ok(appended, v@.map_values(|s: SignatureSummary| s@)),
                Err(e) => e == LookupFailure::GatewayError && crawl_aborted(appended),
            }
        }),
{
    let ghost base = gateway.log();
    let mut transactions: Vec<SignatureSummary> = Vec::new();
    let mut before_sig: Option<String> = None;
    let mut pages: usize = 0;
    loop
        invariant
            base == old(gateway).log(),
            pages <= MAX_HISTORY_PAGES,
            gateway.log().len() == base.len() + pages,
            gateway.log().take(base.len() as int) == base,
            ({
                let appended = gateway.log().skip(base.len() as int);
                &&& crawl_requests_chained(appended)
                &&& forall|k: int| 0 <= k < pages ==> is_full_page(#[trigger] appended[k])
                &&& transactions@.map_values(|s: SignatureSummary| s@) == pages_concat(appended)
                &&& match before_sig {
                    None => pages == 0,
                    Some(s) => pages >= 1 && page_of(appended[pages - 1]).len() > 0 && s@
                        == page_of(appended[pages - 1]).last().signature,
                }
            }),
        decreases MAX_HISTORY_PAGES - pages,
    {
        if pages == MAX_HISTORY_PAGES {
            // The configured bound on total history size: abort, because a
            // truncated crawl is not usable.
            assert(MAX_HISTORY_PAGES >= 1);
            return Err(LookupFailure::GatewayError);
        }
        let ghost prev_log = gateway.log();
        let ghost prev_appended = prev_log.skip(base.len() as int);
        let cursor: Option<&String> = match &before_sig {
            Some(s) => Some(s),
            None => None,
        };
        let batch_result = gateway.get_signature_page(program_id, cursor);
        proof {
            assert(gateway.log().take(base.len() as int) =~= base);
            assert(gateway.log().skip(base.len() as int) =~= prev_appended.push(
                gateway.log().last(),
            ));
        }
        let mut batch = match batch_result {
            Ok(b) => b,
            Err(_) => {
                proof {
                    let appended = gateway.log().skip(base.len() as int);
                    assert(appended.drop_last() =~= prev_appended);
                    assert(appended.last() == gateway.log().last());
                }
                return Err(LookupFailure::GatewayError);
            },
        };
        pages = pages + 1;
        let batch_size = batch.len();
        proof {
            let appended = gateway.log().skip(base.len() as int);
            assert(appended.drop_last() =~= prev_appended);
            assert(page_of(appended.last()) == batch@.map_values(|s: SignatureSummary| s@));
        }
        if batch_size > 0 {
            before_sig = Some(batch[batch_size - 1].signature.clone());
        }
        let ghost txs_before = transactions@;
        transactions.append(&mut batch);
        proof {
            let appended = gateway.log().skip(base.len() as int);
            assert(transactions@.map_values(|s: SignatureSummary| s@) =~= txs_before.map_values(
                |s: SignatureSummary| s@,
            ) + page_of(appended.last()));
            assert(pages_concat(appended) == pages_concat(appended.drop_last()) + page_of(
                appended.last(),
            ));
        }
        if batch_size < DEFAULT_SERVER_SIDE_LIMIT {
            proof {
                let appended = gateway.log().skip(base.len() as int);
                assert(appended.last() == appended[pages - 1]);
            }
            return Ok(transactions);
        }
    }
}

} // verus!
