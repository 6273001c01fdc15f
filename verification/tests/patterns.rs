use zkwatch_core::whale_tracker::{
    hour_of, risk_level_of, summarize, AdvancedWhaleTracker, MonitoringHandle, PredictionAction,
    RiskLevel, Selector, WhalePattern, WhalePatternType, BRIDGE_CONFIDENCE,
    COORDINATED_CONFIDENCE, DEFI_CONFIDENCE,
};
use zkwatch_core::{
    KnownContract, TransactionPattern, WhaleTrackerConfig, WhaleTransaction, ZKWatchError,
};

const BRIDGE: &str = "0x88a2C09d9B3a0Cb8b3E1D5D5c2F1c7A8d3B5e9f1";
const UNISWAP_V2: &str = "0x7a250d5630B4cF539739dF2C5dAcb4c659F2488D";
const UNISWAP_V3: &str = "0xE592427A0AEce92De3Edee1F18E0157C05861564";

fn move_tx(from: &str, to: &str, value: u128, timestamp: i64) -> WhaleTransaction {
    WhaleTransaction {
        hash: format!("0x{}{}{}", from, to, timestamp),
        from: from.to_string(),
        to: to.to_string(),
        value,
        gas_used: 21_000,
        block_number: 1,
        timestamp,
        zk_proof_hash: None,
        risk_score: 100,
        pattern_type: TransactionPattern::Standard,
    }
}

fn tracker_with_threshold(threshold: u128) -> AdvancedWhaleTracker {
    let mut config = WhaleTrackerConfig::default();
    config.large_volume_threshold = threshold;
    AdvancedWhaleTracker::new(config, Vec::new()).unwrap()
}

fn kinds(found: &[WhalePattern]) -> Vec<WhalePatternType> {
    found.iter().map(|p| p.pattern_type).collect()
}

#[test]
fn three_transactions_of_one_hour_make_a_coordinated_movement() {
    let tracker = tracker_with_threshold(1_000);
    let whales = vec![
        move_tx("A", "X", 400, 1_700_000_000),
        move_tx("B", "Y", 400, 1_700_000_010),
        move_tx("A", "Z", 400, 1_700_000_020),
    ];
    let found = tracker.detect_coordinated_movements(&whales);
    assert_eq!(
        found,
        vec![WhalePattern {
            pattern_id: "coordinated_1699999200".to_string(),
            pattern_type: WhalePatternType::CoordinatedMovement,
            confidence: 8_500,
            involved_addresses: vec!["A".to_string(), "B".to_string()],
            estimated_impact: 1_200,
            risk_level: RiskLevel::High,
        }]
    );
    assert_eq!(COORDINATED_CONFIDENCE, 8_500);
}

#[test]
fn a_coordinated_movement_needs_the_group_and_the_volume() {
    // two transactions are too few
    let two = vec![move_tx("A", "X", 900, 7_200), move_tx("B", "Y", 900, 7_201)];
    assert!(tracker_with_threshold(1_000).detect_coordinated_movements(&two).is_empty());
    // a volume that only equals the threshold does not exceed it
    let three = vec![
        move_tx("A", "X", 400, 7_200),
        move_tx("B", "Y", 400, 7_201),
        move_tx("C", "Z", 200, 10_799),
    ];
    assert!(tracker_with_threshold(1_000).detect_coordinated_movements(&three).is_empty());
    assert_eq!(tracker_with_threshold(999).detect_coordinated_movements(&three).len(), 1);
    // the next hour begins at 10800
    let split = vec![
        move_tx("A", "X", 400, 7_200),
        move_tx("B", "Y", 400, 7_201),
        move_tx("C", "Z", 400, 10_800),
    ];
    assert!(tracker_with_threshold(1_000).detect_coordinated_movements(&split).is_empty());
    // the group size follows the configuration
    let mut config = WhaleTrackerConfig::default();
    config.large_volume_threshold = 1_000;
    config.coordinated_min_group_size = 2;
    let tracker = AdvancedWhaleTracker::new(config, Vec::new()).unwrap();
    assert_eq!(tracker.detect_coordinated_movements(&two).len(), 1);
}

#[test]
fn coordinated_movements_come_in_the_order_of_time() {
    let whales = vec![
        move_tx("A", "X", 500, 7_200),
        move_tx("B", "X", 500, -3_600),
        move_tx("C", "X", 500, 7_300),
        move_tx("D", "X", 500, -1),
        move_tx("E", "X", 500, 7_400),
        move_tx("F", "X", 500, -1_800),
    ];
    let found = tracker_with_threshold(1_000).detect_coordinated_movements(&whales);
    assert_eq!(found.len(), 2);
    assert_eq!(found[0].pattern_id, "coordinated_-3600");
    assert_eq!(found[0].involved_addresses, vec!["B", "D", "F"]);
    assert_eq!(found[0].estimated_impact, 1_500);
    assert_eq!(found[1].pattern_id, "coordinated_7200");
    assert_eq!(found[1].involved_addresses, vec!["A", "C", "E"]);
}

#[test]
fn a_coordinated_volume_beyond_the_range_is_capped() {
    let whales = vec![
        move_tx("A", "X", u128::MAX, 0),
        move_tx("B", "X", u128::MAX, 1),
        move_tx("C", "X", 1, 2),
    ];
    let found = tracker_with_threshold(u128::MAX).detect_coordinated_movements(&whales);
    assert_eq!(found.len(), 1);
    assert_eq!(found[0].estimated_impact, u128::MAX);
    let small = vec![move_tx("A", "X", u128::MAX, 0), move_tx("B", "X", 0, 1), move_tx("C", "X", 0, 2)];
    assert!(tracker_with_threshold(u128::MAX).detect_coordinated_movements(&small).is_empty());
}

#[test]
fn an_address_with_one_counterparty_is_a_wash_trader() {
    let tracker = AdvancedWhaleTracker::new(WhaleTrackerConfig::default(), Vec::new()).unwrap();
    let whales = vec![move_tx("A", "B", 5, 10), move_tx("A", "B", 7, 20)];
    let found = tracker.detect_wash_trading_patterns(&whales);
    assert_eq!(
        found,
        vec![WhalePattern {
            pattern_id: "wash_trade_A_B".to_string(),
            pattern_type: WhalePatternType::WashTrading,
            confidence: 6_000,
            involved_addresses: vec!["A".to_string(), "B".to_string()],
            estimated_impact: 0,
            risk_level: RiskLevel::Medium,
        }]
    );
}

#[test]
fn an_address_with_two_counterparties_is_no_wash_trader() {
    let tracker = AdvancedWhaleTracker::new(WhaleTrackerConfig::default(), Vec::new()).unwrap();
    let whales = vec![move_tx("A", "B", 5, 10), move_tx("A", "B", 7, 20), move_tx("A", "C", 7, 30)];
    assert!(tracker.detect_wash_trading_patterns(&whales).is_empty());
}

#[test]
fn wash_trading_leaves_out_who_sends_to_itself() {
    let tracker = AdvancedWhaleTracker::new(WhaleTrackerConfig::default(), Vec::new()).unwrap();
    let whales = vec![
        move_tx("S", "S", 5, 10),
        move_tx("B", "A", 5, 10),
        move_tx("A", "B", 5, 10),
        move_tx("S", "S", 5, 20),
    ];
    let found = tracker.detect_wash_trading_patterns(&whales);
    let ids: Vec<&str> = found.iter().map(|p| p.pattern_id.as_str()).collect();
    assert_eq!(ids, vec!["wash_trade_B_A", "wash_trade_A_B"]);
}

#[test]
fn wash_trading_confidence_follows_the_configuration() {
    let mut config = WhaleTrackerConfig::default();
    config.wash_trade_confidence = 4_200;
    let tracker = AdvancedWhaleTracker::new(config, Vec::new()).unwrap();
    let found = tracker.detect_wash_trading_patterns(&vec![move_tx("A", "B", 5, 10)]);
    assert_eq!(found.len(), 1);
    assert_eq!(found[0].confidence, 4_200);
}

#[test]
fn two_transactions_through_a_bridge_make_a_bridge_movement() {
    let tracker = AdvancedWhaleTracker::new(WhaleTrackerConfig::default(), Vec::new()).unwrap();
    let one = vec![move_tx("A", BRIDGE, 5, 10), move_tx("A", "B", 5, 10)];
    assert!(tracker.detect_bridge_whales(&one).is_empty());
    let two = vec![move_tx("A", BRIDGE, 5, 10), move_tx("C", "D", 9, 11), move_tx(BRIDGE, "B", 7, 12)];
    let found = tracker.detect_bridge_whales(&two);
    assert_eq!(
        found,
        vec![WhalePattern {
            pattern_id: "bridge_CrossChain Bridge".to_string(),
            pattern_type: WhalePatternType::BridgeMovement,
            confidence: 7_500,
            involved_addresses: vec!["A".to_string(), BRIDGE.to_string()],
            estimated_impact: 12,
            risk_level: RiskLevel::Medium,
        }]
    );
    assert_eq!(BRIDGE_CONFIDENCE, 7_500);
}

#[test]
fn bridge_movements_are_grouped_by_the_name_of_the_bridge() {
    let mut config = WhaleTrackerConfig::default();
    config.bridge_contracts = vec![
        KnownContract { label: "North".to_string(), address: "0xn1".to_string() },
        KnownContract { label: "South".to_string(), address: "0xs".to_string() },
        KnownContract { label: "North".to_string(), address: "0xn2".to_string() },
        KnownContract { label: "East".to_string(), address: "0xe".to_string() },
    ];
    let tracker = AdvancedWhaleTracker::new(config, Vec::new()).unwrap();
    let whales = vec![
        move_tx("A", "0xs", 1, 1),
        move_tx("B", "0xn1", 10, 2),
        move_tx("0xn2", "C", 100, 3),
        move_tx("D", "0xs", 1_000, 4),
        move_tx("E", "0xe", 10_000, 5),
    ];
    let found = tracker.detect_bridge_whales(&whales);
    assert_eq!(found.len(), 2);
    assert_eq!(found[0].pattern_id, "bridge_North");
    assert_eq!(found[0].estimated_impact, 110);
    assert_eq!(found[0].involved_addresses, vec!["B", "0xn2"]);
    assert_eq!(found[1].pattern_id, "bridge_South");
    assert_eq!(found[1].estimated_impact, 1_001);
}

#[test]
fn any_transaction_with_a_protocol_makes_the_defi_pattern() {
    let tracker = AdvancedWhaleTracker::new(WhaleTrackerConfig::default(), Vec::new()).unwrap();
    assert!(tracker.detect_defi_whales(&vec![move_tx("A", "B", 5, 10)]).is_empty());
    let whales = vec![
        move_tx("A", UNISWAP_V2, 5, 10),
        move_tx("A", "B", 1_000, 10),
        move_tx(UNISWAP_V3, "C", 7, 10),
        move_tx("A", UNISWAP_V3, 30, 10),
    ];
    let found = tracker.detect_defi_whales(&whales);
    assert_eq!(
        found,
        vec![WhalePattern {
            pattern_id: "defi_whale".to_string(),
            pattern_type: WhalePatternType::DefiWhale,
            confidence: 9_000,
            involved_addresses: vec!["A".to_string(), UNISWAP_V3.to_string()],
            estimated_impact: 42,
            risk_level: RiskLevel::Low,
        }]
    );
    assert_eq!(DEFI_CONFIDENCE, 9_000);
}

#[test]
fn the_detectors_run_one_after_the_other() {
    let tracker = tracker_with_threshold(1_000);
    let whales = vec![
        move_tx("A", BRIDGE, 400, 36_000),
        move_tx("B", UNISWAP_V2, 400, 36_001),
        move_tx("A", BRIDGE, 400, 36_002),
        move_tx("C", "D", 1, 72_000),
        move_tx("C", "E", 1, 72_000),
    ];
    let found = tracker.detect_sophisticated_patterns(&whales);
    assert_eq!(
        kinds(&found),
        vec![
            WhalePatternType::CoordinatedMovement,
            WhalePatternType::WashTrading,
            WhalePatternType::WashTrading,
            WhalePatternType::BridgeMovement,
            WhalePatternType::DefiWhale,
        ]
    );
    assert_eq!(found[1].pattern_id, format!("wash_trade_A_{}", BRIDGE));
    assert_eq!(found[2].pattern_id, format!("wash_trade_B_{}", UNISWAP_V2));
    for pattern in &found {
        assert_eq!(pattern.risk_level, risk_level_of(pattern.pattern_type));
    }
}

#[test]
fn detection_gives_the_same_twice() {
    let tracker = tracker_with_threshold(1_000);
    let whales = vec![
        move_tx("A", BRIDGE, 400, 36_000),
        move_tx("B", UNISWAP_V2, 400, 36_001),
        move_tx("A", BRIDGE, 400, 36_002),
        move_tx("C", "D", 1, 72_000),
    ];
    let first = tracker.detect_sophisticated_patterns(&whales);
    let second = tracker.detect_sophisticated_patterns(&whales);
    assert_eq!(first, second);
    let copies: Vec<WhaleTransaction> = whales.iter().map(|t| t.duplicate()).collect();
    assert_eq!(copies, whales);
    assert_eq!(tracker.detect_sophisticated_patterns(&copies), first);
    assert!(!first.is_empty());
}

#[test]
fn nothing_is_found_in_nothing() {
    let tracker = AdvancedWhaleTracker::new(WhaleTrackerConfig::default(), Vec::new()).unwrap();
    assert!(tracker.detect_sophisticated_patterns(&Vec::new()).is_empty());
}

#[test]
fn each_kind_of_pattern_has_its_risk() {
    assert_eq!(risk_level_of(WhalePatternType::CoordinatedMovement), RiskLevel::High);
    assert_eq!(risk_level_of(WhalePatternType::WashTrading), RiskLevel::Medium);
    assert_eq!(risk_level_of(WhalePatternType::BridgeMovement), RiskLevel::Medium);
    assert_eq!(risk_level_of(WhalePatternType::DefiWhale), RiskLevel::Low);
    assert_eq!(risk_level_of(WhalePatternType::PumpAndDump), RiskLevel::High);
    assert_eq!(risk_level_of(WhalePatternType::Spoofing), RiskLevel::High);
    assert_eq!(risk_level_of(WhalePatternType::MEVAttack), RiskLevel::High);
}

#[test]
fn a_summary_counts_adds_and_lists() {
    let whales = vec![
        move_tx("A", "B", 5, 10),
        move_tx("C", "B", 7, 10),
        move_tx("A", "D", 11, 10),
        move_tx("A", "B", 13, 10),
    ];
    let all = summarize(&whales, &Selector::Every);
    assert_eq!(all.count, 4);
    assert_eq!(all.volume, 36);
    assert!(!all.overflowed);
    assert_eq!(all.senders, vec!["A", "C"]);
    assert_eq!(all.receivers, vec!["B", "D"]);
    let from_a = summarize(&whales, &Selector::Sender("A".to_string()));
    assert_eq!(from_a.count, 3);
    assert_eq!(from_a.volume, 29);
    assert_eq!(from_a.receivers, vec!["B", "D"]);
    let touching = summarize(&whales, &Selector::Touching(vec!["D".to_string(), "C".to_string()]));
    assert_eq!(touching.count, 2);
    assert_eq!(touching.volume, 18);
    let none = summarize(&whales, &Selector::Hour(1));
    assert_eq!(none.count, 0);
    assert_eq!(none.volume, 0);
    assert!(none.senders.is_empty());
    let big = vec![move_tx("A", "B", u128::MAX, 0), move_tx("A", "B", 1, 0)];
    let capped = summarize(&big, &Selector::Hour(0));
    assert_eq!(capped.volume, u128::MAX);
    assert!(capped.overflowed);
}

#[test]
fn hours_are_counted_from_the_epoch() {
    assert_eq!(hour_of(0), 0);
    assert_eq!(hour_of(3_599), 0);
    assert_eq!(hour_of(3_600), 1);
    assert_eq!(hour_of(-1), -1);
    assert_eq!(hour_of(-3_600), -1);
    assert_eq!(hour_of(-3_601), -2);
    assert_eq!(hour_of(1_700_000_000), 472_222);
    assert_eq!(hour_of(i64::MIN), -2_562_047_788_015_216);
    assert_eq!(hour_of(i64::MAX), 2_562_047_788_015_215);
}

#[test]
fn a_tracker_keeps_its_configuration_and_its_scanner() {
    let config = WhaleTrackerConfig::default();
    let networks = config.tracking_networks.clone();
    let mut tracker = AdvancedWhaleTracker::new(config, networks).unwrap();
    assert_eq!(tracker.config().coordinated_min_group_size, 3);
    assert_eq!(tracker.scanner().source_count(), 4);
    assert_eq!(tracker.reserve(3, 10).unwrap(), 0);
    assert!(matches!(tracker.reserve(4, 10), Err(ZKWatchError::ConfigurationInvalid)));
}

#[test]
fn a_tracker_follows_the_limits_of_its_configuration() {
    let mut config = WhaleTrackerConfig::default();
    config.max_requests_per_window = 2;
    config.window_duration = 1_000;
    let networks = config.tracking_networks.clone();
    let mut tracker = AdvancedWhaleTracker::new(config, networks).unwrap();
    assert_eq!(tracker.reserve(0, 0).unwrap(), 0);
    assert_eq!(tracker.reserve(0, 1).unwrap(), 0);
    assert_eq!(tracker.reserve(0, 2).unwrap(), 998);
    assert_eq!(tracker.reserve(1, 2).unwrap(), 0);
}

#[test]
fn a_tracker_refuses_a_configuration_that_is_not_acceptable() {
    let mut config = WhaleTrackerConfig::default();
    config.max_requests_per_window = 0;
    let made = AdvancedWhaleTracker::new(config, Vec::new());
    assert!(matches!(made, Err(ZKWatchError::ConfigurationInvalid)));
    let mut config = WhaleTrackerConfig::default();
    config.wash_trade_confidence = 10_001;
    let made = AdvancedWhaleTracker::new(config, Vec::new());
    assert!(matches!(made, Err(ZKWatchError::ConfigurationInvalid)));
}

#[test]
fn a_monitoring_handle_stops_when_told() {
    let mut handle = MonitoringHandle::new();
    assert!(!handle.stopped());
    handle.stop();
    assert!(handle.stopped());
    assert_ne!(PredictionAction::Hold, PredictionAction::Bridge);
}
