use solception::classifier::{classify_deployments, is_deployment, upgradeable_loader_id};
use solception::model::TransactionRecord;
use solception::reducer::earliest;
use solception::LookupFailure;

fn record(sig: &str, block_time: Option<i64>, keys: &[&str]) -> TransactionRecord {
    TransactionRecord {
        signature: sig.to_string(),
        block_time,
        account_keys: keys.iter().map(|k| k.to_string()).collect(),
    }
}

#[test]
fn classifies_true_when_loader_key_present() {
    let r = record("s1", Some(10), &["SomeOtherKey", upgradeable_loader_id()]);
    assert!(is_deployment(&r));
}

#[test]
fn classifies_false_without_loader_key() {
    let r = record("s1", Some(10), &["SomeOtherKey", "AndAnother"]);
    assert!(!is_deployment(&r));
}

#[test]
fn classifies_false_on_unparseable_message_shape() {
    // A record whose message could not be parsed carries no account keys;
    // classification is false and raises no error.
    let r = record("s1", Some(10), &[]);
    assert!(!is_deployment(&r));
}

#[test]
fn classification_filter_keeps_only_deployments() {
    let records = vec![
        record("a", Some(1), &[upgradeable_loader_id()]),
        record("b", Some(2), &["Other"]),
        record("c", Some(3), &["X", upgradeable_loader_id(), "Y"]),
    ];
    let kept = classify_deployments(records);
    let sigs: Vec<&str> = kept.iter().map(|r| r.signature.as_str()).collect();
    assert_eq!(sigs, vec!["a", "c"]);
}

#[test]
fn reduction_of_nothing_reports_no_deployment() {
    let candidates: Vec<TransactionRecord> = Vec::new();
    assert_eq!(earliest(&candidates), Err(LookupFailure::NoDeploymentFound));
}

#[test]
fn reduction_selects_the_minimum_block_time() {
    let candidates = vec![
        record("a", Some(200), &[]),
        record("b", Some(50), &[]),
        record("c", Some(300), &[]),
        record("d", Some(50), &[]),
        record("e", Some(999), &[]),
    ];
    assert_eq!(earliest(&candidates), Ok(50));
}

#[test]
fn reduction_fails_when_a_candidate_lacks_a_block_time() {
    let candidates = vec![
        record("a", Some(200), &[]),
        record("b", None, &[]),
        record("c", Some(300), &[]),
    ];
    assert_eq!(earliest(&candidates), Err(LookupFailure::MissingTimestamp));
}

#[test]
fn reduction_handles_negative_and_extreme_times() {
    let candidates = vec![
        record("a", Some(-5), &[]),
        record("b", Some(i64::MAX), &[]),
        record("c", Some(0), &[]),
    ];
    assert_eq!(earliest(&candidates), Ok(-5));
}
