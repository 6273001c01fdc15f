use zkwatch_core::blockchain::{
    in_scan_order, merge_reports, MEVType, MultiChainScanner, DEFAULT_MAX_REQUESTS,
    DEFAULT_WINDOW_MILLIS,
};
use zkwatch_core::{NetworkConfig, TransactionPattern, WhaleTransaction, ZKWatchError};

fn scan_tx(hash: &str, value: u128, timestamp: i64) -> WhaleTransaction {
    WhaleTransaction {
        hash: hash.to_string(),
        from: "0xfrom".to_string(),
        to: "0xto".to_string(),
        value,
        gas_used: 21_000,
        block_number: 18_000_000,
        timestamp,
        zk_proof_hash: None,
        risk_score: 8_000,
        pattern_type: TransactionPattern::LargeTransaction,
    }
}

fn source(name: &str, chain_id: u64) -> NetworkConfig {
    NetworkConfig {
        name: name.to_string(),
        chain_id,
        rpc_url: format!("https://{}.example/rpc", name),
        explorer_url: format!("https://{}.example", name),
    }
}

fn hashes(list: &[WhaleTransaction]) -> Vec<&str> {
    list.iter().map(|t| t.hash.as_str()).collect()
}

#[test]
fn scan_keeps_each_hash_once_in_scan_order() {
    let scanner = MultiChainScanner::new(vec![source("one", 1), source("two", 2)]);
    let fetched = vec![
        Some(vec![scan_tx("0xa", 10, 900), scan_tx("0xb", 10, 800)]),
        Some(vec![scan_tx("0xc", 10, 950), scan_tx("0xb", 10, 950)]),
    ];
    let outcome = scanner.scan_whale_transactions(&fetched, 1, 1_000, false).unwrap();
    assert!(outcome.unavailable.is_empty());
    assert_eq!(hashes(&outcome.transactions), vec!["0xb", "0xc", "0xa"]);
    // of the two reports of 0xb the one nearer to now was kept
    assert_eq!(outcome.transactions[0].timestamp, 950);
    for pair in outcome.transactions.windows(2) {
        assert!(in_scan_order(&pair[0], &pair[1]));
        assert!(!in_scan_order(&pair[1], &pair[0]));
    }
}

#[test]
fn scan_result_does_not_depend_on_what_a_source_lists_first() {
    let scanner = MultiChainScanner::new(vec![source("one", 1), source("two", 2)]);
    let first = vec![
        Some(vec![scan_tx("0xb", 10, 800), scan_tx("0xa", 10, 900)]),
        Some(vec![scan_tx("0xb", 10, 950), scan_tx("0xc", 10, 950)]),
    ];
    let second = vec![
        Some(vec![scan_tx("0xa", 10, 900), scan_tx("0xb", 10, 800)]),
        Some(vec![scan_tx("0xc", 10, 950), scan_tx("0xb", 10, 950)]),
    ];
    let one = scanner.scan_whale_transactions(&first, 1, 1_000, false).unwrap();
    let two = scanner.scan_whale_transactions(&second, 1, 1_000, false).unwrap();
    assert_eq!(one.transactions, two.transactions);
}

#[test]
fn merge_prefers_the_report_nearest_to_now() {
    let reports = vec![scan_tx("0xa", 1, 100), scan_tx("0xa", 2, 990), scan_tx("0xa", 3, 1_020)];
    let merged = merge_reports(&reports, 1_000);
    assert_eq!(merged.len(), 1);
    assert_eq!(merged[0].value, 2);
    let merged = merge_reports(&reports, 1_010);
    assert_eq!(merged[0].value, 3);
}

#[test]
fn merge_keeps_the_first_of_two_reports_as_near() {
    let reports = vec![scan_tx("0xa", 1, 900), scan_tx("0xa", 2, 1_100), scan_tx("0xa", 3, 900)];
    let merged = merge_reports(&reports, 1_000);
    assert_eq!(merged.len(), 1);
    assert_eq!(merged[0].value, 1);
    assert_eq!(merged[0].timestamp, 900);
}

#[test]
fn merge_orders_by_time_then_by_hash() {
    let reports = vec![
        scan_tx("0xbb", 1, 5),
        scan_tx("0xb", 1, 5),
        scan_tx("0xa", 1, 4),
        scan_tx("0xc", 1, 9),
        scan_tx("0xab", 1, 5),
    ];
    let merged = merge_reports(&reports, 0);
    assert_eq!(hashes(&merged), vec!["0xc", "0xab", "0xb", "0xbb", "0xa"]);
}

#[test]
fn merge_of_nothing_is_nothing() {
    assert!(merge_reports(&Vec::new(), 0).is_empty());
}

#[test]
fn merge_copes_with_instants_at_the_ends_of_the_range() {
    let reports = vec![scan_tx("0xa", 1, i64::MIN), scan_tx("0xa", 2, i64::MAX)];
    let merged = merge_reports(&reports, i64::MAX);
    assert_eq!(merged.len(), 1);
    assert_eq!(merged[0].value, 2);
    let merged = merge_reports(&reports, i64::MIN);
    assert_eq!(merged[0].value, 1);
}

#[test]
fn scan_drops_what_is_below_the_least_value() {
    let scanner = MultiChainScanner::new(vec![source("one", 1)]);
    let fetched = vec![Some(vec![scan_tx("0xa", 99, 1), scan_tx("0xb", 100, 2), scan_tx("0xc", 101, 3)])];
    let outcome = scanner.scan_whale_transactions(&fetched, 100, 10, false).unwrap();
    assert_eq!(hashes(&outcome.transactions), vec!["0xc", "0xb"]);
}

#[test]
fn scan_goes_on_past_a_failed_source() {
    let scanner =
        MultiChainScanner::new(vec![source("one", 1), source("two", 2), source("three", 3)]);
    let fetched = vec![None, Some(vec![scan_tx("0xa", 10, 1)]), None];
    let outcome = scanner.scan_whale_transactions(&fetched, 1, 10, false).unwrap();
    assert_eq!(hashes(&outcome.transactions), vec!["0xa"]);
    assert_eq!(outcome.unavailable, vec!["one".to_string(), "three".to_string()]);
}

#[test]
fn scan_counts_a_missing_delivery_as_a_failure() {
    let scanner = MultiChainScanner::new(vec![source("one", 1), source("two", 2)]);
    let fetched = vec![Some(vec![scan_tx("0xa", 10, 1)])];
    let outcome = scanner.scan_whale_transactions(&fetched, 1, 10, false).unwrap();
    assert_eq!(outcome.unavailable, vec!["two".to_string()]);
    let failed = scanner.scan_whale_transactions(&fetched, 1, 10, true);
    assert!(matches!(failed, Err(ZKWatchError::SourceUnavailable(name)) if name == "two"));
}

#[test]
fn scan_aborts_at_the_first_failed_source_when_told_to() {
    let scanner =
        MultiChainScanner::new(vec![source("one", 1), source("two", 2), source("three", 3)]);
    let fetched = vec![Some(vec![scan_tx("0xa", 10, 1)]), None, None];
    let failed = scanner.scan_whale_transactions(&fetched, 1, 10, true);
    assert!(matches!(failed, Err(ZKWatchError::SourceUnavailable(name)) if name == "two"));
    let fine = vec![Some(vec![scan_tx("0xa", 10, 1)]), Some(Vec::new()), Some(Vec::new())];
    assert!(scanner.scan_whale_transactions(&fine, 1, 10, true).is_ok());
}

#[test]
fn scanner_gives_each_source_a_limiter_of_its_own() {
    let mut scanner =
        MultiChainScanner::with_limits(vec![source("one", 1), source("two", 2)], 1, 100).unwrap();
    assert_eq!(scanner.source_count(), 2);
    assert_eq!(scanner.networks()[1].name, "two");
    assert_eq!(scanner.reserve(0, 0).unwrap(), 0);
    assert_eq!(scanner.reserve(0, 10).unwrap(), 90);
    // the other source has not been asked yet
    assert_eq!(scanner.reserve(1, 10).unwrap(), 0);
    assert!(matches!(scanner.reserve(2, 10), Err(ZKWatchError::ConfigurationInvalid)));
}

#[test]
fn scanner_refuses_a_limit_of_zero() {
    let made = MultiChainScanner::with_limits(vec![source("one", 1)], 0, 100);
    assert!(matches!(made, Err(ZKWatchError::ConfigurationInvalid)));
}

#[test]
fn scanner_defaults_to_a_hundred_requests_a_minute() {
    assert_eq!(DEFAULT_MAX_REQUESTS, 100);
    assert_eq!(DEFAULT_WINDOW_MILLIS, 60_000);
    let mut scanner = MultiChainScanner::new(vec![source("one", 1)]);
    for _ in 0..100 {
        assert_eq!(scanner.reserve(0, 5).unwrap(), 0);
    }
    assert_eq!(scanner.reserve(0, 5).unwrap(), 60_000);
}

#[test]
fn mev_types_are_told_apart() {
    assert_ne!(MEVType::Arbitrage, MEVType::Sandwich);
    assert_eq!(MEVType::FrontRun, MEVType::FrontRun);
    assert_ne!(MEVType::Liquidation, MEVType::FrontRun);
}
