//! Data model of the provenance pipeline: signature summaries produced by the
//! history crawl, transaction records produced by the detail fetch, the
//! failure kinds of the two gateway operations, and the mathematical model of
//! a gateway interaction (a sequence of calls with their outcomes).
use vstd::prelude::*;

verus! {

/// One entry of a program's transaction history, as returned by the gateway
/// in reverse-chronological order.
#[derive(Clone, Debug)]
pub struct SignatureSummary {
    /// Base58 transaction signature; the crawl cursor advances to this value.
    pub signature: String,
    /// Slot in which the transaction was finalized.
    pub slot: u64,
    /// Node-assigned finalization timestamp, when the node reports one.
    pub block_time: Option<i64>,
    /// Whether the transaction failed on chain.
    pub execution_error: Option<String>,
}

/// Mathematical view of a [`SignatureSummary`].
pub struct SignatureSummaryModel {
    pub signature: Seq<char>,
    pub slot: u64,
    pub block_time: Option<i64>,
    pub has_error: bool,
}

impl View for SignatureSummary {
    type V = SignatureSummaryModel;

    open spec fn view(&self) -> SignatureSummaryModel {
        SignatureSummaryModel {
            signature: self.signature@,
            slot: self.slot,
            block_time: self.block_time,
            has_error: self.execution_error is Some,
        }
    }
}

/// Immutable snapshot of one fetched transaction: everything classification
/// and reduction read.
#[derive(Clone, Debug)]
pub struct TransactionRecord {
    /// Base58 signature of the transaction.
    pub signature: String,
    /// Node-assigned finalization timestamp, when the node reports one.
    pub block_time: Option<i64>,
    /// Account keys referenced by the transaction, in message order. A
    /// record whose message shape could not be parsed carries no keys.
    pub account_keys: Vec<String>,
}

/// Mathematical view of a [`TransactionRecord`].
pub struct TransactionRecordModel {
    pub signature: Seq<char>,
    pub block_time: Option<i64>,
    pub account_keys: Seq<Seq<char>>,
}

impl View for TransactionRecord {
    type V = TransactionRecordModel;

    open spec fn view(&self) -> TransactionRecordModel {
        TransactionRecordModel {
            signature: self.signature@,
            block_time: self.block_time,
            account_keys: self.account_keys@.map_values(|k: String| k@),
        }
    }
}

/// Failure of one signature-page request.
#[derive(Clone, Copy, Debug, PartialEq, Eq, Structural)]
pub enum PageFailure {
    /// Transport-level failure (connection, protocol, malformed response).
    Transport,
    /// Throttling signal from the RPC endpoint.
    RateLimited,
}

/// Failure of one transaction-detail request.
#[derive(Clone, Copy, Debug, PartialEq, Eq, Structural)]
pub enum FetchFailure {
    /// Transport-level failure (connection, protocol, malformed response).
    Transport,
    /// Throttling signal from the RPC endpoint; the fetch retries these.
    RateLimited,
    /// The node does not know the transaction; dropped without retry.
    NotFound,
}

/// One gateway call with its outcome, as recorded in the ghost interaction
/// log that every gateway implementation maintains.
pub enum GatewayCall {
    /// One page request of the history crawl.
    Page {
        /// Cursor sent with the request; `None` asks for the newest page.
        cursor: Option<Seq<char>>,
        /// The page returned, newest first, or the failure.
        page: Result<Seq<SignatureSummaryModel>, PageFailure>,
    },
    /// One transaction-detail request of the fetch phase.
    Tx {
        /// Signature whose details were requested.
        signature: Seq<char>,
        /// Earliest instant (limiter slot) at which the request may go out.
        not_before: u64,
        /// The record returned, or the failure.
        fetched: Result<TransactionRecordModel, FetchFailure>,
    },
}

/// View of the optional crawl cursor handed to a page request.
pub open spec fn cursor_view(before: Option<&String>) -> Option<Seq<char>> {
    match before {
        Some(s) => Some(s@),
        None => None,
    }
}

/// View of a page response.
pub open spec fn page_view(
    r: Result<Vec<SignatureSummary>, PageFailure>,
) -> Result<Seq<SignatureSummaryModel>, PageFailure> {
    match r {
        Ok(v) => Ok(v@.map_values(|s: SignatureSummary| s@)),
        Err(e) => Err(e),
    }
}

/// View of a transaction-detail response.
pub open spec fn fetched_view(
    r: Result<TransactionRecord, FetchFailure>,
) -> Result<TransactionRecordModel, FetchFailure> {
    match r {
        Ok(t) => Ok(t@),
        Err(e) => Err(e),
    }
}

} // verus!
