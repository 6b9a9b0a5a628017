use computer_state::sample::{order_by_timestamp, MetricSample, SampleValue};
use computer_state::settings::AppSettings;
use computer_state::status::{enabled_samples, latest_response, latest_timestamp, service_status};

fn sample(metric: &str, timestamp: i64) -> MetricSample {
    MetricSample { metric: metric.to_string(), timestamp, value: SampleValue::Whole(1), labels: vec![] }
}

#[test]
fn latest_reports_enabled_metrics_only() {
    let mut settings = AppSettings::default();
    settings.metrics = vec![("uptime".to_string(), true), ("memory.total".to_string(), false)];
    let latest = vec![sample("uptime", 1_000), sample("memory.total", 5_000), sample("process.count", 9_000)];
    let kept = enabled_samples(&latest, &settings);
    assert_eq!(kept.len(), 1);
    assert_eq!(kept[0].metric, "uptime");
    let response = latest_response(&latest, &settings);
    assert_eq!(response.metrics.len(), 1);
    assert_eq!(response.timestamp.as_deref(), Some("1970-01-01T00:00:01Z"));
}

#[test]
fn latest_timestamp_is_the_maximum() {
    let latest = vec![sample("uptime", 3), sample("uptime", 9), sample("uptime", 4)];
    assert_eq!(latest_timestamp(&latest), Some(9));
    assert_eq!(latest_timestamp(&vec![]), None);
}

#[test]
fn empty_latest_has_no_timestamp() {
    let response = latest_response(&vec![], &AppSettings::default());
    assert!(response.timestamp.is_none());
    assert!(response.metrics.is_empty());
}

#[test]
fn status_reports_settings_and_latest_collection() {
    let settings = AppSettings::default();
    let latest = vec![sample("uptime", 1_783_857_600_000)];
    let status = service_status(&settings, &latest);
    assert!(status.database_ready);
    assert_eq!(status.http_port, 8888);
    assert_eq!(status.allowed_interfaces, ["loopback", "tailscale"]);
    assert_eq!(status.latest_collection.as_deref(), Some("2026-07-12T12:00:00Z"));
}

#[test]
fn ordering_by_timestamp_is_stable() {
    let mut samples = vec![sample("a", 3), sample("b", 1), sample("c", 3), sample("d", 2)];
    order_by_timestamp(&mut samples);
    let order: Vec<&str> = samples.iter().map(|s| s.metric.as_str()).collect();
    assert_eq!(order, ["b", "d", "a", "c"]);
}

#[test]
fn duplicates_are_equal() {
    let mut s = sample("uptime", 5);
    s.labels.push(("volume".to_string(), "/".to_string()));
    let copy = s.duplicate();
    assert_eq!(copy.metric, s.metric);
    assert_eq!(copy.labels, s.labels);
}
