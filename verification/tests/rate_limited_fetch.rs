use solception::classifier::upgradeable_loader_id;
use solception::fetcher::get_all_transactions;
use solception::gateway::{ScriptedGateway, TxScript};
use solception::limiter::RateLimiter;
use solception::model::{FetchFailure, SignatureSummary, TransactionRecord};

fn summary(sig: &str) -> SignatureSummary {
    SignatureSummary {
        signature: sig.to_string(),
        slot: 0,
        block_time: Some(0),
        execution_error: None,
    }
}

fn record(sig: &str, block_time: i64) -> TransactionRecord {
    TransactionRecord {
        signature: sig.to_string(),
        block_time: Some(block_time),
        account_keys: vec![upgradeable_loader_id().to_string()],
    }
}

fn script(sig: &str, outcomes: Vec<Result<TransactionRecord, FetchFailure>>) -> TxScript {
    TxScript { signature: sig.to_string(), outcomes, served: 0 }
}

#[test]
fn limiter_spaces_grants_at_least_one_interval_apart() {
    let mut limiter = RateLimiter::new(300);
    assert_eq!(limiter.grant(0), 0);
    assert_eq!(limiter.grant(10), 300);
    assert_eq!(limiter.grant(100), 600);
    // A late caller is granted its own instant, and spacing restarts there.
    assert_eq!(limiter.grant(5000), 5000);
    assert_eq!(limiter.grant(5001), 5300);
}

#[test]
fn a_burst_never_dispatches_closer_than_the_interval() {
    // A burst of 5 signatures under interval 300: adjacent dispatches are at
    // least 300 apart and the total span is at least 4 * 300.
    let sigs = ["a", "b", "c", "d", "e"];
    let summaries: Vec<SignatureSummary> = sigs.iter().map(|s| summary(s)).collect();
    let scripts = sigs.iter().map(|s| script(s, vec![Ok(record(s, 7))])).collect();
    let mut gw = ScriptedGateway::new(Vec::new(), scripts);
    let mut limiter = RateLimiter::new(300);

    let records = get_all_transactions(&mut gw, &mut limiter, &summaries);

    assert_eq!(records.len(), 5);
    assert_eq!(gw.seen_fetches.len(), 5);
    for pair in gw.seen_fetches.windows(2) {
        assert!(pair[1].1 >= pair[0].1 + 300);
    }
    let span = gw.seen_fetches[4].1 - gw.seen_fetches[0].1;
    assert!(span >= 4 * 300);
}

#[test]
fn a_throttled_signature_is_retried_and_appears_exactly_once() {
    let summaries = vec![summary("s1"), summary("s2")];
    let scripts = vec![
        script("s1", vec![Err(FetchFailure::RateLimited), Ok(record("s1", 42))]),
        script("s2", vec![Ok(record("s2", 43))]),
    ];
    let mut gw = ScriptedGateway::new(Vec::new(), scripts);
    let mut limiter = RateLimiter::new(1);

    let records = get_all_transactions(&mut gw, &mut limiter, &summaries);

    let s1_records: Vec<&TransactionRecord> =
        records.iter().filter(|r| r.signature == "s1").collect();
    assert_eq!(s1_records.len(), 1);
    assert_eq!(s1_records[0].block_time, Some(42));
    // The retry went back through the limiter for the same signature.
    let s1_calls: Vec<&(String, u64)> =
        gw.seen_fetches.iter().filter(|(s, _)| s == "s1").collect();
    assert_eq!(s1_calls.len(), 2);
    assert_eq!(records.len(), 2);
}

#[test]
fn retries_stop_at_the_attempt_cap() {
    // Throttled on every attempt: the signature is dropped after the cap,
    // never fetched forever.
    let summaries = vec![summary("s1")];
    let scripts = vec![script(
        "s1",
        vec![
            Err(FetchFailure::RateLimited),
            Err(FetchFailure::RateLimited),
            Err(FetchFailure::RateLimited),
            Err(FetchFailure::RateLimited),
        ],
    )];
    let mut gw = ScriptedGateway::new(Vec::new(), scripts);
    let mut limiter = RateLimiter::new(1);

    let records = get_all_transactions(&mut gw, &mut limiter, &summaries);

    assert!(records.is_empty());
    assert_eq!(gw.seen_fetches.len(), solception::fetcher::MAX_FETCH_ATTEMPTS);
}

#[test]
fn other_failures_drop_the_signature_without_retry() {
    let summaries = vec![summary("gone"), summary("bad"), summary("ok")];
    let scripts = vec![
        script("gone", vec![Err(FetchFailure::NotFound)]),
        script("bad", vec![Err(FetchFailure::Transport)]),
        script("ok", vec![Ok(record("ok", 9))]),
    ];
    let mut gw = ScriptedGateway::new(Vec::new(), scripts);
    let mut limiter = RateLimiter::new(1);

    let records = get_all_transactions(&mut gw, &mut limiter, &summaries);

    assert_eq!(records.len(), 1);
    assert_eq!(records[0].signature, "ok");
    assert_eq!(gw.seen_fetches.len(), 3);
}

#[test]
fn an_unscripted_signature_counts_as_not_found() {
    let summaries = vec![summary("unknown")];
    let mut gw = ScriptedGateway::new(Vec::new(), Vec::new());
    let mut limiter = RateLimiter::new(1);

    let records = get_all_transactions(&mut gw, &mut limiter, &summaries);

    assert!(records.is_empty());
    assert_eq!(gw.seen_fetches.len(), 1);
}
