//! The gateway port: the query capability through which the engine reaches
//! a node's RPC interface, and a scripted in-memory implementation for
//! deterministic runs.
//!
//! Every implementation maintains a ghost log of the calls made through it,
//! so that contracts downstream can speak about which requests went out, in
//! what order, and what came back.
use vstd::prelude::*;

verus! {

use crate::identifier::ProgramIdentifier;
use crate::model::{
    cursor_view, fetched_view, page_view, FetchFailure, GatewayCall, PageFailure,
    SignatureSummary, SignatureSummaryModel, TransactionRecord, TransactionRecordModel,
};

/// The ghost record of one page request.
pub open spec fn page_call(
    cursor: Option<Seq<char>>,
    page: Result<Seq<SignatureSummaryModel>, PageFailure>,
) -> GatewayCall {
    GatewayCall::Page { cursor, page }
}

/// The ghost record of one transaction-detail request.
pub open spec fn tx_call(
    signature: Seq<char>,
    not_before: u64,
    fetched: Result<TransactionRecordModel, FetchFailure>,
) -> GatewayCall {
    GatewayCall::Tx { signature, not_before, fetched }
}

/// The query capability of a node's RPC interface: the two gateway
/// operations of the lookup, and a clock reading for the limiter.
///
/// Implementations outside this crate (a real JSON-RPC client) perform the
/// network work; [`ScriptedGateway`] answers from an in-memory script. The
/// `log` is the ghost history of calls made through the port: each operation
/// appends exactly one entry describing the request and its outcome.
pub trait SolanaQueries {
    /// Ghost history of the calls made through this gateway. Implementations
    /// that are verified maintain it; the default is an empty history.
    open spec fn log(&self) -> Seq<GatewayCall> {
        Seq::empty()
    }

    /// Request one page of transaction-signature summaries for `program_id`,
    /// newest first, strictly older than the `before` cursor (`None` means
    /// "most recent").
    fn get_signature_page(
        &mut self,
        program_id: &ProgramIdentifier,
        before: Option<&String>,
    ) -> (r: Result<Vec<SignatureSummary>, PageFailure>)
        ensures
            final(self).log() == old(self).log().push(
                page_call(cursor_view(before), page_view(r)),
            ),
    ;

    /// A reading of the gateway's clock, on the same scale as the limiter's
    /// instants. Nothing is promised of the value.
    fn now(&mut self) -> (t: u64)
        ensures
            final(self).log() == old(self).log(),
    ;

    /// Request the details of one transaction, issuing the underlying
    /// request no earlier than the instant `not_before`.
    fn get_transaction(
        &mut self,
        signature: &String,
        not_before: u64,
    ) -> (r: Result<TransactionRecord, FetchFailure>)
        ensures
            final(self).log() == old(self).log().push(
                tx_call(signature@, not_before, fetched_view(r)),
            ),
    ;
}

/// One scripted answer track for a signature: outcomes handed out in order,
/// one per detail request for that signature.
pub struct TxScript {
    pub signature: String,
    pub outcomes: Vec<Result<TransactionRecord, FetchFailure>>,
    pub served: usize,
}

/// A deterministic in-memory gateway: page responses are consumed in order,
/// detail responses are consumed per signature in order. Requests beyond the
/// script fail (pages with a transport failure, details as not found).
///
/// Beside the ghost log it records the calls in plain fields, so that
/// unverified callers can observe the traffic.
pub struct ScriptedGateway {
    pub pages: Vec<Result<Vec<SignatureSummary>, PageFailure>>,
    pub pages_served: usize,
    pub tx_scripts: Vec<TxScript>,
    pub clock: u64,
    /// Cursors of the page requests seen, in order.
    pub seen_cursors: Vec<Option<String>>,
    /// Signature and limiter slot of each detail request seen, in order.
    pub seen_fetches: Vec<(String, u64)>,
    pub calls: Ghost<Seq<GatewayCall>>,
}

impl ScriptedGateway {
    /// A gateway that answers page requests from `pages` and detail requests
    /// from `tx_scripts`.
    pub fn new(pages: Vec<Result<Vec<SignatureSummary>, PageFailure>>, tx_scripts: Vec<TxScript>)
        -> (r: ScriptedGateway)
        ensures
            r.log() == Seq::<GatewayCall>::empty(),
            r.pages == pages,
            r.tx_scripts == tx_scripts,
            r.pages_served == 0,
            r.seen_cursors@ == Seq::<Option<String>>::empty(),
            r.seen_fetches@ == Seq::<(String, u64)>::empty(),
    {
        ScriptedGateway {
            pages,
            pages_served: 0,
            tx_scripts,
            clock: 0,
            seen_cursors: Vec::new(),
            seen_fetches: Vec::new(),
            calls: Ghost(Seq::empty()),
        }
    }
}

/// Copy of an optional cursor, for the plain call record.
fn copy_cursor(before: Option<&String>) -> (r: Option<String>)
    ensures
        cursor_view(before) == (match r {
            Some(s) => Some(s@),
            None => None::<Seq<char>>,
        }),
{
    match before {
        Some(s) => Some(s.clone()),
        None => None,
    }
}

impl SignatureSummary {
    /// A field-for-field copy with the same view.
    pub fn duplicate(&self) -> (r: SignatureSummary)
        ensures
            r@ == self@,
    {
        SignatureSummary {
            signature: self.signature.clone(),
            slot: self.slot,
            block_time: self.block_time,
            execution_error: match &self.execution_error {
                Some(e) => Some(e.clone()),
                None => None,
            },
        }
    }
}

impl TransactionRecord {
    /// A field-for-field copy with the same view.
    pub fn duplicate(&self) -> (r: TransactionRecord)
        ensures
            r@ == self@,
    {
        let mut keys: Vec<String> = Vec::new();
        let mut i: usize = 0;
        while i < self.account_keys.len()
            invariant
                i <= self.account_keys.len(),
                keys@.len() == i as int,
                forall|j: int| 0 <= j < i as int ==> keys@[j]@ == self.account_keys@[j]@,
            decreases self.account_keys.len() - i,
        {
            keys.push(self.account_keys[i].clone());
            i += 1;
        }
        let r = TransactionRecord {
            signature: self.signature.clone(),
            block_time: self.block_time,
            account_keys: keys,
        };
        proof {
            assert(r@.account_keys =~= self@.account_keys);
            assert(r@ =~= self@);
        }
        r
    }
}

/// Copy of a page of summaries, with the same view.
fn duplicate_page(page: &Vec<SignatureSummary>) -> (r: Vec<SignatureSummary>)
    ensures
        r@.map_values(|s: SignatureSummary| s@)
            == page@.map_values(|s: SignatureSummary| s@),
{
    let mut out: Vec<SignatureSummary> = Vec::new();
    let mut i: usize = 0;
    while i < page.len()
        invariant
            i <= page.len(),
            out@.len() == i as int,
            forall|j: int| 0 <= j < i as int ==> out@[j]@ == page@[j]@,
        decreases page.len() - i,
    {
        out.push(page[i].duplicate());
        i += 1;
    }
    proof {
        assert(out@.map_values(|s: SignatureSummary| s@)
            =~= page@.map_values(|s: SignatureSummary| s@));
    }
    out
}

impl SolanaQueries for ScriptedGateway {
    open spec fn log(&self) -> Seq<GatewayCall> {
        self.calls@
    }

    fn get_signature_page(
        &mut self,
        program_id: &ProgramIdentifier,
        before: Option<&String>,
    ) -> (r: Result<Vec<SignatureSummary>, PageFailure>)
    {
        let cursor_copy = copy_cursor(before);
        self.seen_cursors.push(cursor_copy);
        let resp: Result<Vec<SignatureSummary>, PageFailure> =
            if self.pages_served < self.pages.len() {
                let scripted = match &self.pages[self.pages_served] {
                    Ok(page) => Ok(duplicate_page(page)),
                    Err(e) => Err(*e),
                };
                self.pages_served = self.pages_served + 1;
                scripted
            } else {
                Err(PageFailure::Transport)
            };
        proof {
            self.calls@ = self.calls@.push(page_call(cursor_view(before), page_view(resp)));
        }
        resp
    }

    fn now(&mut self) -> (t: u64) {
        let t = self.clock;
        self.clock = if t < 0xffff_ffff_ffff_ffff { t + 1 } else { t };
        t
    }

    fn get_transaction(
        &mut self,
        signature: &String,
        not_before: u64,
    ) -> (r: Result<TransactionRecord, FetchFailure>)
    {
        self.seen_fetches.push((signature.clone(), not_before));
        let mut resp: Result<TransactionRecord, FetchFailure> = Err(FetchFailure::NotFound);
        let mut i: usize = 0;
        let n = self.tx_scripts.len();
        while i < n
            invariant
                n == self.tx_scripts.len(),
                self.calls@ == old(self).calls@,
            decreases n - i,
        {
            if &self.tx_scripts[i].signature == signature {
                let served = self.tx_scripts[i].served;
                if served < self.tx_scripts[i].outcomes.len() {
                    resp = match &self.tx_scripts[i].outcomes[served] {
                        Ok(rec) => Ok(rec.duplicate()),
                        Err(e) => Err(*e),
                    };
                    // Hand the next scripted outcome out on the next request.
                    let bumped = served + 1;
                    let entry = &mut self.tx_scripts[i];
                    entry.served = bumped;
                }
                break;
            }
            i += 1;
        }
        proof {
            self.calls@ = self.calls@.push(tx_call(signature@, not_before, fetched_view(resp)));
        }
        resp
    }
}

} // verus!
