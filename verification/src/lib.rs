//! Provenance resolution for on-chain programs: given a program's base58
//! address, find the timestamp of its earliest deployment-related
//! transaction.
use vstd::prelude::*;

pub mod classifier;
pub mod crawler;
pub mod engine;
pub mod fetcher;
pub mod gateway;
pub mod identifier;
pub mod limiter;
pub mod model;
pub mod reducer;
pub mod timefmt;

verus! {

use crate::engine::{engine_run, get_first_deployed_slot_timestamp};
use crate::gateway::SolanaQueries;
use crate::identifier::valid_program_id;
use crate::limiter::RateLimiter;
use crate::timefmt::{renderable, rfc3339_of, rfc3339_utc};

/// Failure kinds a provenance lookup can end in.
#[derive(Clone, Copy, Debug, PartialEq, Eq, Structural)]
pub enum LookupFailure {
    /// The raw identifier is not a well-formed base58 32-byte value.
    InvalidIdentifier,
    /// A transport or RPC failure aborted the history crawl.
    GatewayError,
    /// The crawl succeeded but the program has no transaction history.
    NoHistory,
    /// No fetched record classified as deployment-related.
    NoDeploymentFound,
    /// A deployment-related record carried no usable block time.
    MissingTimestamp,
}

impl LookupFailure {
    /// A human-readable explanation of the failure.
    pub fn message(&self) -> &'static str {
        match self {
            LookupFailure::InvalidIdentifier => {
                "The provided value is not a base58-encoded 32-byte program identifier."
            },
            LookupFailure::GatewayError => {
                "A transport failure aborted the retrieval of the transaction history."
            },
            LookupFailure::NoHistory => {
                "No transactions were found for the program identifier."
            },
            LookupFailure::NoDeploymentFound => {
                "No deployment-related transaction was found for the program identifier."
            },
            LookupFailure::MissingTimestamp => {
                "The earliest deployment-related transaction carries no usable block timestamp."
            },
        }
    }
}

/// The rendering of an engine outcome: a representable instant becomes its
/// RFC 3339 text; one that is not denotes an upstream data problem.
pub open spec fn rendered_outcome(rr: Result<i64, LookupFailure>) -> Result<
    Seq<char>,
    LookupFailure,
> {
    match rr {
        Ok(t) => if renderable(t) {
            Ok(rfc3339_of(t as int))
        } else {
            Err(LookupFailure::MissingTimestamp)
        },
        Err(e) => Err(e),
    }
}

/// Resolve the earliest deployment-related transaction of the program
/// `program_id` through `gateway`, and render the instant found as an RFC
/// 3339 timestamp in UTC.
pub fn lookup_provenance<G: SolanaQueries>(
    gateway: &mut G,
    limiter: &mut RateLimiter,
    program_id: &str,
) -> (r: Result<String, LookupFailure>)
    ensures
        final(limiter).interval == old(limiter).interval,
        old(gateway).log().len() <= final(gateway).log().len(),
        final(gateway).log().take(old(gateway).log().len() as int) == old(gateway).log(),
        !valid_program_id(program_id@) ==> r == Err::<String, LookupFailure>(
            LookupFailure::InvalidIdentifier,
        ) && final(gateway).log() == old(gateway).log(),
        valid_program_id(program_id@) ==> exists|rr: Result<i64, LookupFailure>|
            #![trigger rendered_outcome(rr)]
            {
                &&& engine_run(
                    final(gateway).log().skip(old(gateway).log().len() as int),
                    old(limiter).interval,
                    old(limiter).next_free,
                    rr,
                )
                &&& match r {
                    Ok(s) => rendered_outcome(rr) matches Ok(v) && s@ == v,
                    Err(e) => rendered_outcome(rr) == Err::<Seq<char>, LookupFailure>(e),
                }
            },
{
    let outcome = get_first_deployed_slot_timestamp(gateway, limiter, program_id);
    let ghost rr = outcome;
    let r: Result<String, LookupFailure> = match outcome {
        Ok(t) => match rfc3339_utc(t) {
            Some(s) => Ok(s),
            None => Err(LookupFailure::MissingTimestamp),
        },
        Err(e) => Err(e),
    };
    proof {
        if valid_program_id(program_id@) {
            assert(engine_run(
                gateway.log().skip(old(gateway).log().len() as int),
                old(limiter).interval,
                old(limiter).next_free,
                rr,
            ));
            assert(match r {
                Ok(s) => rendered_outcome(rr) matches Ok(v) && s@ == v,
                Err(e) => rendered_outcome(rr) == Err::<Seq<char>, LookupFailure>(e),
            });
        }
    }
    r
}

} // verus!
