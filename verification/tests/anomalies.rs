use zkwatch_core::analytics::{
    arrange_chronologically, zscore_outliers, AnalyticsEngine, AnomalySeverity, AnomalyType,
    Outlier, TIMING_HIGH_Z, VOLUME_HIGH_Z, Z_SCORE_CAP,
};
use zkwatch_core::{TransactionPattern, WhaleTransaction};

fn value_tx(hash: &str, value: u128, timestamp: i64) -> WhaleTransaction {
    WhaleTransaction {
        hash: hash.to_string(),
        from: "0xfrom".to_string(),
        to: "0xto".to_string(),
        value,
        gas_used: 21_000,
        block_number: 1,
        timestamp,
        zk_proof_hash: Some("0xproof".to_string()),
        risk_score: 0,
        pattern_type: TransactionPattern::Standard,
    }
}

fn one_among(n: usize, usual: u128, odd: u128) -> Vec<u128> {
    let mut series = vec![usual; n - 1];
    series.push(odd);
    series
}

#[test]
fn a_series_without_variance_has_no_outliers() {
    let series = vec![10u128, 10, 10, 10];
    for flag in [0u32, 1, 2_000, 2_500, u32::MAX] {
        assert!(zscore_outliers(&series, flag, 3_000).is_empty());
    }
}

#[test]
fn a_short_series_has_no_outliers() {
    assert!(zscore_outliers(&Vec::new(), 0, 0).is_empty());
    assert!(zscore_outliers(&vec![5], 0, 0).is_empty());
}

#[test]
fn one_far_sample_among_five_has_a_z_score_of_two() {
    // mean 2080, standard deviation 3960: the last sample is 7920 away, two deviations
    let series = vec![100u128, 100, 100, 100, 10_000];
    assert!(zscore_outliers(&series, 2_500, 3_000).is_empty());
    assert!(zscore_outliers(&series, 2_000, 3_000).is_empty());
    let found = zscore_outliers(&series, 1_999, 3_000);
    assert_eq!(found, vec![Outlier { index: 4, severity: AnomalySeverity::Medium, z_score: 2_000 }]);
    // the others are half a deviation away
    let found = zscore_outliers(&series, 499, 1_999);
    assert_eq!(found.len(), 5);
    for (i, outlier) in found.iter().enumerate() {
        assert_eq!(outlier.index, i);
        assert_eq!(outlier.z_score, if i == 4 { 2_000 } else { 500 });
        assert_eq!(
            outlier.severity,
            if i == 4 { AnomalySeverity::High } else { AnomalySeverity::Medium }
        );
    }
    assert_eq!(zscore_outliers(&series, 500, 1_999).len(), 1);
}

#[test]
fn severity_rises_beyond_the_second_threshold() {
    // one far sample among n has a z-score of the square root of n - 1
    let found = zscore_outliers(&one_among(10, 100, 10_000), 2_500, 3_000);
    assert_eq!(found, vec![Outlier { index: 9, severity: AnomalySeverity::Medium, z_score: 3_000 }]);
    let found = zscore_outliers(&one_among(11, 100, 10_000), 2_500, 3_000);
    assert_eq!(found, vec![Outlier { index: 10, severity: AnomalySeverity::High, z_score: 3_162 }]);
    let found = zscore_outliers(&one_among(17, 100, 10_000), 2_500, 3_000);
    assert_eq!(found, vec![Outlier { index: 16, severity: AnomalySeverity::High, z_score: 4_000 }]);
}

#[test]
fn outliers_come_in_the_order_of_the_series() {
    let mut series = vec![1_000u128; 40];
    series[7] = 0;
    series[23] = 2_000;
    let found = zscore_outliers(&series, 2_500, 3_000);
    assert_eq!(found.len(), 2);
    assert_eq!(found[0].index, 7);
    assert_eq!(found[1].index, 23);
    assert_eq!(found[0].z_score, found[1].z_score);
    assert_eq!(found[0].severity, AnomalySeverity::High);
}

#[test]
fn outliers_are_exact_on_the_largest_values() {
    let found = zscore_outliers(&one_among(17, u128::MAX - 1, u128::MAX), 2_500, 3_000);
    assert_eq!(found, vec![Outlier { index: 16, severity: AnomalySeverity::High, z_score: 4_000 }]);
    let found = zscore_outliers(&one_among(17, 0, u128::MAX), 3_999, 4_000);
    assert_eq!(found, vec![Outlier { index: 16, severity: AnomalySeverity::Medium, z_score: 4_000 }]);
    assert!(zscore_outliers(&one_among(17, 0, u128::MAX), 4_000, 4_000).is_empty());
    assert!(Z_SCORE_CAP > 4_000);
}

#[test]
fn engine_reports_volume_outliers_about_their_transactions() {
    let mut data: Vec<WhaleTransaction> = Vec::new();
    for i in 0..16 {
        data.push(value_tx(&format!("0x{:02}", i), 100, 1_000 + 10 * i as i64));
    }
    data.push(value_tx("0xwhale", 10_000, 1_160));
    let found = AnalyticsEngine::new().detect_anomalies(&data);
    assert_eq!(found.len(), 1);
    assert_eq!(found[0].anomaly_type, AnomalyType::VolumeOutlier);
    assert_eq!(found[0].transaction_hash, "0xwhale");
    assert_eq!(found[0].severity, AnomalySeverity::High);
    assert_eq!(found[0].z_score, 4_000);
    assert_eq!(found[0].timestamp, 1_160);
}

#[test]
fn engine_reports_gaps_about_the_transaction_they_follow() {
    // eighteen transactions: sixteen gaps of ten seconds and one of a thousand after the sixth
    let mut data: Vec<WhaleTransaction> = Vec::new();
    let mut at: i64 = 5_000;
    for i in 0..18 {
        data.push(value_tx(&format!("0x{:02}", i), 100, at));
        at += if i == 5 { 1_000 } else { 10 };
    }
    // newest first, as a scan delivers them
    data.reverse();
    let found = AnalyticsEngine::new().detect_anomalies(&data);
    assert_eq!(found.len(), 1);
    assert_eq!(found[0].anomaly_type, AnomalyType::TimingIrregularity);
    assert_eq!(found[0].transaction_hash, "0x05");
    assert_eq!(found[0].timestamp, 5_050);
    assert_eq!(found[0].z_score, 4_000);
    assert_eq!(found[0].severity, AnomalySeverity::High);
}

#[test]
fn engine_puts_volume_before_timing() {
    let mut data: Vec<WhaleTransaction> = Vec::new();
    let mut at: i64 = 0;
    for i in 0..18 {
        let value = if i == 17 { 10_000 } else { 100 };
        data.push(value_tx(&format!("0x{:02}", i), value, at));
        at += if i == 2 { 1_000 } else { 10 };
    }
    let found = AnalyticsEngine::new().detect_anomalies(&data);
    assert_eq!(found.len(), 2);
    assert_eq!(found[0].anomaly_type, AnomalyType::VolumeOutlier);
    assert_eq!(found[0].transaction_hash, "0x17");
    assert_eq!(found[1].anomaly_type, AnomalyType::TimingIrregularity);
    assert_eq!(found[1].transaction_hash, "0x02");
}

#[test]
fn engine_follows_its_thresholds() {
    let mut data: Vec<WhaleTransaction> = Vec::new();
    for i in 0..4 {
        data.push(value_tx(&format!("0x{}", i), 100, 10 * i as i64));
    }
    data.push(value_tx("0x4", 10_000, 40));
    assert!(AnalyticsEngine::new().detect_anomalies(&data).is_empty());
    let found = AnalyticsEngine::with_thresholds(1_999, 2_000).detect_anomalies(&data);
    assert_eq!(found.len(), 1);
    assert_eq!(found[0].severity, AnomalySeverity::Medium);
    assert_eq!(found[0].z_score, 2_000);
    assert_eq!(VOLUME_HIGH_Z, 3_000);
    assert_eq!(TIMING_HIGH_Z, 2_500);
}

#[test]
fn engine_finds_nothing_in_little() {
    let engine = AnalyticsEngine::new();
    assert!(engine.detect_anomalies(&Vec::new()).is_empty());
    assert!(engine.detect_anomalies(&vec![value_tx("0xa", 5, 1)]).is_empty());
    let two = vec![value_tx("0xa", 5, 1), value_tx("0xb", 500, 100)];
    assert!(engine.detect_anomalies(&two).is_empty());
}

#[test]
fn chronological_arrangement_keeps_the_order_of_equals() {
    let data = vec![
        value_tx("0xc", 1, 30),
        value_tx("0xa1", 1, 10),
        value_tx("0xb", 1, 20),
        value_tx("0xa2", 1, 10),
        value_tx("0xz", 1, -5),
    ];
    let sorted = arrange_chronologically(&data);
    let order: Vec<&str> = sorted.iter().map(|t| t.hash.as_str()).collect();
    assert_eq!(order, vec!["0xz", "0xa1", "0xa2", "0xb", "0xc"]);
}

#[test]
fn each_kind_of_series_has_its_thresholds() {
    let engine = AnalyticsEngine::new();
    // a z-score of 2.29: beyond the timing threshold, within the volume threshold
    let series = one_among(7, 10, 500);
    let found = engine.detect_outliers(&series, AnomalyType::TimingIrregularity);
    assert_eq!(found, vec![Outlier { index: 6, severity: AnomalySeverity::Medium, z_score: 2_449 }]);
    assert!(engine.detect_outliers(&series, AnomalyType::VolumeOutlier).is_empty());
    // a z-score of 2.83: beyond both, high for a gap and medium for a volume
    let series = one_among(9, 10, 500);
    let found = engine.detect_outliers(&series, AnomalyType::TimingIrregularity);
    assert_eq!(found, vec![Outlier { index: 8, severity: AnomalySeverity::High, z_score: 2_828 }]);
    let found = engine.detect_outliers(&series, AnomalyType::VolumeOutlier);
    assert_eq!(found, vec![Outlier { index: 8, severity: AnomalySeverity::Medium, z_score: 2_828 }]);
    assert!(engine.detect_outliers(&series, AnomalyType::UnusualPattern).is_empty());
    assert!(engine.detect_outliers(&series, AnomalyType::NetworkAnomaly).is_empty());
}
