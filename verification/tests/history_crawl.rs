use solception::crawler::crawl_transaction_history;
use solception::gateway::ScriptedGateway;
use solception::identifier::validate;
use solception::model::{PageFailure, SignatureSummary};
use solception::LookupFailure;

fn summary(sig: &str, slot: u64, block_time: Option<i64>) -> SignatureSummary {
    SignatureSummary {
        signature: sig.to_string(),
        slot,
        block_time,
        execution_error: None,
    }
}

fn page(prefix: &str, count: usize) -> Vec<SignatureSummary> {
    (0..count).map(|k| summary(&format!("{}-{}", prefix, k), k as u64, Some(k as i64))).collect()
}

#[test]
fn pagination_follows_the_cursor_through_three_pages() {
    // Server page sizes [1000, 1000, 400]: exactly 3 page requests, request
    // k+1 carrying the signature of the last summary of page k.
    let pages = vec![Ok(page("p0", 1000)), Ok(page("p1", 1000)), Ok(page("p2", 400))];
    let mut gw = ScriptedGateway::new(pages, Vec::new());
    let id = validate("11111111111111111111111111111111").unwrap();

    let all = crawl_transaction_history(&mut gw, &id).expect("crawl should complete");

    assert_eq!(all.len(), 2400);
    assert_eq!(gw.seen_cursors.len(), 3);
    assert_eq!(gw.seen_cursors[0], None);
    assert_eq!(gw.seen_cursors[1], Some("p0-999".to_string()));
    assert_eq!(gw.seen_cursors[2], Some("p1-999".to_string()));
    // Server order is preserved exactly.
    assert_eq!(all[0].signature, "p0-0");
    assert_eq!(all[999].signature, "p0-999");
    assert_eq!(all[1000].signature, "p1-0");
    assert_eq!(all[2399].signature, "p2-399");
}

#[test]
fn a_short_first_page_ends_the_crawl_after_one_request() {
    let pages = vec![Ok(page("p0", 3))];
    let mut gw = ScriptedGateway::new(pages, Vec::new());
    let id = validate("11111111111111111111111111111111").unwrap();

    let all = crawl_transaction_history(&mut gw, &id).expect("crawl should complete");

    assert_eq!(all.len(), 3);
    assert_eq!(gw.seen_cursors.len(), 1);
    assert_eq!(gw.seen_cursors[0], None);
}

#[test]
fn an_empty_first_page_is_a_valid_empty_history() {
    let pages = vec![Ok(Vec::new())];
    let mut gw = ScriptedGateway::new(pages, Vec::new());
    let id = validate("11111111111111111111111111111111").unwrap();

    let all = crawl_transaction_history(&mut gw, &id).expect("empty history is not an error");
    assert!(all.is_empty());
}

#[test]
fn a_transport_failure_aborts_the_crawl() {
    let pages = vec![Ok(page("p0", 1000)), Err(PageFailure::Transport)];
    let mut gw = ScriptedGateway::new(pages, Vec::new());
    let id = validate("11111111111111111111111111111111").unwrap();

    let out = crawl_transaction_history(&mut gw, &id);
    assert!(matches!(out, Err(LookupFailure::GatewayError)));
    assert_eq!(gw.seen_cursors.len(), 2);
}

#[test]
fn throttling_during_the_crawl_aborts_it_too() {
    let pages = vec![Err(PageFailure::RateLimited)];
    let mut gw = ScriptedGateway::new(pages, Vec::new());
    let id = validate("11111111111111111111111111111111").unwrap();

    let out = crawl_transaction_history(&mut gw, &id);
    assert!(matches!(out, Err(LookupFailure::GatewayError)));
}
