use solception::classifier::upgradeable_loader_id;
use solception::gateway::{ScriptedGateway, TxScript};
use solception::limiter::RateLimiter;
use solception::lookup_provenance;
use solception::model::{FetchFailure, PageFailure, SignatureSummary, TransactionRecord};
use solception::timefmt::rfc3339_utc;
use solception::LookupFailure;

const PROGRAM_ID: &str = "Prog111111111111111111111111111111111111111";

fn summary(sig: &str) -> SignatureSummary {
    SignatureSummary {
        signature: sig.to_string(),
        slot: 0,
        block_time: Some(0),
        execution_error: None,
    }
}

fn deployment_record(sig: &str, block_time: Option<i64>) -> TransactionRecord {
    TransactionRecord {
        signature: sig.to_string(),
        block_time,
        account_keys: vec!["SomeAccount".to_string(), upgradeable_loader_id().to_string()],
    }
}

fn plain_record(sig: &str, block_time: Option<i64>) -> TransactionRecord {
    TransactionRecord {
        signature: sig.to_string(),
        block_time,
        account_keys: vec!["SomeAccount".to_string()],
    }
}

fn script(sig: &str, record: TransactionRecord) -> TxScript {
    TxScript { signature: sig.to_string(), outcomes: vec![Ok(record)], served: 0 }
}

#[test]
fn empty_history_fails_with_no_history_and_zero_fetches() {
    let mut gw = ScriptedGateway::new(vec![Ok(Vec::new())], Vec::new());
    let mut limiter = RateLimiter::new(300);

    let out = lookup_provenance(&mut gw, &mut limiter, PROGRAM_ID);

    assert_eq!(out, Err(LookupFailure::NoHistory));
    assert_eq!(gw.seen_fetches.len(), 0);
    assert_eq!(gw.seen_cursors.len(), 1);
}

#[test]
fn a_malformed_identifier_is_rejected_before_any_call() {
    let mut gw = ScriptedGateway::new(vec![Ok(vec![summary("s1")])], Vec::new());
    let mut limiter = RateLimiter::new(300);

    let out = lookup_provenance(&mut gw, &mut limiter, "not-a-key");

    assert_eq!(out, Err(LookupFailure::InvalidIdentifier));
    assert_eq!(gw.seen_cursors.len(), 0);
    assert_eq!(gw.seen_fetches.len(), 0);
}

#[test]
fn one_classified_record_yields_its_timestamp() {
    let pages = vec![Ok(vec![summary("s1")])];
    let scripts = vec![script("s1", deployment_record("s1", Some(1431648000)))];
    let mut gw = ScriptedGateway::new(pages, scripts);
    let mut limiter = RateLimiter::new(1);

    let out = lookup_provenance(&mut gw, &mut limiter, PROGRAM_ID);

    assert_eq!(out, Ok("2015-05-15T00:00:00+00:00".to_string()));
}

#[test]
fn the_minimum_timestamp_wins_whatever_the_order() {
    // The same record set served in two different orders reduces to the
    // same earliest instant.
    let orders: [[i64; 3]; 2] = [[200, 50, 300], [300, 200, 50]];
    for times in orders {
        let sigs: Vec<String> = (0..3).map(|k| format!("s{}", k)).collect();
        let pages = vec![Ok(sigs.iter().map(|s| summary(s)).collect::<Vec<_>>())];
        let scripts = sigs
            .iter()
            .zip(times.iter())
            .map(|(s, t)| script(s, deployment_record(s, Some(*t))))
            .collect();
        let mut gw = ScriptedGateway::new(pages, scripts);
        let mut limiter = RateLimiter::new(1);

        let out = lookup_provenance(&mut gw, &mut limiter, PROGRAM_ID);

        assert_eq!(out, Ok("1970-01-01T00:00:50+00:00".to_string()));
    }
}

#[test]
fn unclassified_records_yield_no_deployment_found() {
    let pages = vec![Ok(vec![summary("s1"), summary("s2")])];
    let scripts = vec![
        script("s1", plain_record("s1", Some(10))),
        script("s2", plain_record("s2", Some(20))),
    ];
    let mut gw = ScriptedGateway::new(pages, scripts);
    let mut limiter = RateLimiter::new(1);

    let out = lookup_provenance(&mut gw, &mut limiter, PROGRAM_ID);

    assert_eq!(out, Err(LookupFailure::NoDeploymentFound));
}

#[test]
fn a_classified_record_without_block_time_fails_the_reduction() {
    let pages = vec![Ok(vec![summary("s1"), summary("s2")])];
    let scripts = vec![
        script("s1", deployment_record("s1", Some(10))),
        script("s2", deployment_record("s2", None)),
    ];
    let mut gw = ScriptedGateway::new(pages, scripts);
    let mut limiter = RateLimiter::new(1);

    let out = lookup_provenance(&mut gw, &mut limiter, PROGRAM_ID);

    assert_eq!(out, Err(LookupFailure::MissingTimestamp));
}

#[test]
fn a_transport_failure_surfaces_as_gateway_error() {
    let mut gw = ScriptedGateway::new(vec![Err(PageFailure::Transport)], Vec::new());
    let mut limiter = RateLimiter::new(300);

    let out = lookup_provenance(&mut gw, &mut limiter, PROGRAM_ID);

    assert_eq!(out, Err(LookupFailure::GatewayError));
}

#[test]
fn dropped_signatures_do_not_block_the_result() {
    // One signature is lost after retries; the lookup proceeds with the
    // records that did arrive.
    let pages = vec![Ok(vec![summary("lost"), summary("kept")])];
    let scripts = vec![
        TxScript {
            signature: "lost".to_string(),
            outcomes: vec![
                Err(FetchFailure::RateLimited),
                Err(FetchFailure::RateLimited),
                Err(FetchFailure::RateLimited),
            ],
            served: 0,
        },
        script("kept", deployment_record("kept", Some(77))),
    ];
    let mut gw = ScriptedGateway::new(pages, scripts);
    let mut limiter = RateLimiter::new(1);

    let out = lookup_provenance(&mut gw, &mut limiter, PROGRAM_ID);

    assert_eq!(out, Ok("1970-01-01T00:01:17+00:00".to_string()));
}

#[test]
fn full_lookup_over_a_paginated_history() {
    // Crawl returns 1000 then 1 signatures (terminating pagination); the
    // fetch yields 5 classified records with block times [200, 50, 300, 50,
    // 999]; the lookup returns the instant of unix time 50.
    let first_page: Vec<SignatureSummary> =
        (0..1000).map(|k| summary(&format!("sig{}", k))).collect();
    let second_page = vec![summary("sig1000")];
    let pages = vec![Ok(first_page), Ok(second_page)];
    let classified = ["sig3", "sig250", "sig500", "sig750", "sig1000"];
    let times: [i64; 5] = [200, 50, 300, 50, 999];
    let scripts: Vec<TxScript> = classified
        .iter()
        .zip(times.iter())
        .map(|(s, t)| script(s, deployment_record(s, Some(*t))))
        .collect();
    let mut gw = ScriptedGateway::new(pages, scripts);
    let mut limiter = RateLimiter::new(1);

    let out = lookup_provenance(&mut gw, &mut limiter, PROGRAM_ID);

    assert_eq!(out, Ok("1970-01-01T00:00:50+00:00".to_string()));
    // Terminating pagination: exactly two page requests, the second one
    // cursored at the last signature of the first page.
    assert_eq!(gw.seen_cursors.len(), 2);
    assert_eq!(gw.seen_cursors[1], Some("sig999".to_string()));
    // Every crawled signature was driven to a record or a drop.
    assert_eq!(gw.seen_fetches.len(), 1001);
}

#[test]
fn rendering_covers_exactly_the_representable_instants() {
    assert_eq!(rfc3339_utc(50), Some("1970-01-01T00:00:50+00:00".to_string()));
    assert_eq!(rfc3339_utc(0), Some("1970-01-01T00:00:00+00:00".to_string()));
    assert!(rfc3339_utc(solception::timefmt::MAX_RENDERABLE_SECS).is_some());
    assert!(rfc3339_utc(solception::timefmt::MAX_RENDERABLE_SECS + 1).is_none());
    assert!(rfc3339_utc(solception::timefmt::MIN_RENDERABLE_SECS).is_some());
    assert!(rfc3339_utc(solception::timefmt::MIN_RENDERABLE_SECS - 1).is_none());
}

#[test]
fn failure_messages_name_each_kind() {
    assert!(LookupFailure::InvalidIdentifier.message().contains("base58"));
    assert!(LookupFailure::GatewayError.message().contains("transport"));
    assert!(LookupFailure::NoHistory.message().contains("No transactions"));
    assert!(LookupFailure::NoDeploymentFound.message().contains("deployment"));
    assert!(LookupFailure::MissingTimestamp.message().contains("timestamp"));
}
