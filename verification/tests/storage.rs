use computer_state::sample::{labels_in_key_order, MetricSample, SampleValue};
use computer_state::storage::{
    aggregate_sql, cleanup_due, labels_column, parse_aggregation, raw_limit, retention_cutoff,
    sample_from_row, Aggregation, LATEST_SAMPLES_SQL,
};

#[test]
fn aggregation_names() {
    assert_eq!(parse_aggregation("avg"), Some(Aggregation::Avg));
    assert_eq!(parse_aggregation("count"), Some(Aggregation::Count));
    assert_eq!(parse_aggregation("AVG"), None);
    assert_eq!(Aggregation::Max.sql_function(), "MAX");
}

#[test]
fn aggregate_statements() {
    assert_eq!(
        aggregate_sql(Aggregation::Avg, false),
        "SELECT metric,? AS timestamp,AVG(value) AS value,labels_json FROM metric_samples WHERE metric=? AND timestamp>=? AND timestamp<? GROUP BY metric,labels_json"
    );
    assert_eq!(
        aggregate_sql(Aggregation::Sum, true),
        "SELECT metric,(timestamp / ?) * ? AS timestamp,SUM(value) AS value,labels_json FROM metric_samples WHERE metric=? AND timestamp>=? AND timestamp<? GROUP BY metric,labels_json,(timestamp / ?) ORDER BY timestamp"
    );
}

#[test]
fn raw_limits_share_the_budget() {
    assert_eq!(raw_limit(1), 50_000);
    assert_eq!(raw_limit(3), 16_666);
    assert_eq!(raw_limit(16), 3_125);
}

#[test]
fn retention_cutoff_is_days_before_now() {
    assert_eq!(retention_cutoff(1_000_000_000_000, 7), 1_000_000_000_000 - 604_800_000);
    assert_eq!(retention_cutoff(0, 1), -86_400_000);
}

fn sample_with(labels: Vec<(String, String)>) -> MetricSample {
    MetricSample { metric: "gpu.usage".to_string(), timestamp: 0, value: SampleValue::Whole(0), labels }
}

#[test]
fn labels_round_trip_through_json() {
    let labels = vec![("gpu".to_string(), "0".to_string()), ("name".to_string(), "A\"B".to_string())];
    let text = labels_column(&sample_with(labels.clone())).unwrap();
    assert_eq!(text, "{\"gpu\":\"0\",\"name\":\"A\\\"B\"}");
    let back = sample_from_row("gpu.usage".to_string(), 0, 0, &text).unwrap();
    assert_eq!(back.labels, labels);
    assert_eq!(labels_column(&sample_with(vec![])).unwrap(), "{}");
    assert!(sample_from_row("gpu.usage".to_string(), 0, 0, "{not json").is_err());
}

#[test]
fn cleanup_runs_daily() {
    assert!(!cleanup_due(86_399));
    assert!(cleanup_due(86_400));
    assert!(cleanup_due(100_000));
}

#[test]
fn rows_become_samples() {
    let sample = sample_from_row("uptime".to_string(), 5, 30.0f64.to_bits(), "{\"core\":\"1\"}").unwrap();
    assert_eq!(sample.metric, "uptime");
    assert_eq!(sample.timestamp, 5);
    assert_eq!(sample.value, SampleValue::Bits(30.0f64.to_bits()));
    assert_eq!(sample.labels, [("core".to_string(), "1".to_string())]);
    assert!(sample_from_row("uptime".to_string(), 5, 0, "[1]").is_err());
}

fn pairs(keys: &[&str]) -> Vec<(String, String)> {
    keys.iter().map(|k| (k.to_string(), "v".to_string())).collect()
}

#[test]
fn label_keys_must_ascend() {
    assert!(labels_in_key_order(&pairs(&[])));
    assert!(labels_in_key_order(&pairs(&["gpu"])));
    assert!(labels_in_key_order(&pairs(&["gpu", "name"])));
    assert!(labels_in_key_order(&pairs(&["a", "ab", "b", "ba"])));
    assert!(!labels_in_key_order(&pairs(&["name", "gpu"])));
    assert!(!labels_in_key_order(&pairs(&["gpu", "gpu"])));
    assert!(!labels_in_key_order(&pairs(&["a", "c", "b"])));
    assert!(labels_in_key_order(&pairs(&["Z", "a", "é"])));
}

#[test]
fn decoded_labels_come_in_key_order() {
    let sample = sample_from_row("gpu.usage".to_string(), 0, 0, "{\"name\":\"x\",\"gpu\":\"1\"}").unwrap();
    assert_eq!(sample.labels, [("gpu".to_string(), "1".to_string()), ("name".to_string(), "x".to_string())]);
    assert!(labels_in_key_order(&sample.labels));
}

#[test]
fn latest_is_newest_per_label_set() {
    assert!(LATEST_SAMPLES_SQL.contains("WHERE metric=m.metric AND labels_json=m.labels_json"));
}

#[test]
fn stored_labels_read_back_unchanged() {
    let labels = vec![
        ("interface".to_string(), "tab\there\nand \u{1} \\ \"é\"".to_string()),
        ("volume".to_string(), "C:\\".to_string()),
    ];
    let text = labels_column(&sample_with(labels.clone())).unwrap();
    let back = sample_from_row("storage.usage".to_string(), 1, 0, &text).unwrap();
    assert_eq!(back.labels, labels);
}
