use computer_state::catalog::{descriptors, is_known_metric, metric_catalog, sorted_metric_ids};

#[test]
fn catalog_has_thirteen_metrics() {
    let catalog = metric_catalog();
    assert_eq!(catalog.len(), 13);
    assert_eq!(catalog[0], ("cpu.core.usage", "CPU utilization per core", "percent"));
    assert_eq!(catalog[12], ("uptime", "System uptime", "seconds"));
    let mut ids: Vec<&str> = catalog.iter().map(|entry| entry.0).collect();
    ids.sort();
    assert_eq!(ids, sorted_metric_ids());
}

#[test]
fn known_metrics() {
    assert!(is_known_metric("cpu.total.usage"));
    assert!(is_known_metric("uptime"));
    assert!(!is_known_metric("cpu.total"));
    assert!(!is_known_metric(""));
    assert!(!is_known_metric("UPTIME"));
}

#[test]
fn gpu_metrics_unavailable_without_gpu() {
    let without = descriptors(false);
    assert_eq!(without.len(), 13);
    let unavailable: Vec<&str> = without.iter().filter(|d| !d.available).map(|d| d.id).collect();
    assert_eq!(unavailable, ["gpu.usage", "gpu.memory.total", "gpu.memory.usage"]);
    for d in &without {
        assert_eq!(d.reason.is_some(), !d.available);
    }
    assert_eq!(without[2].reason, Some("GPU telemetry is unavailable for this hardware or driver"));
    let with = descriptors(true);
    assert!(with.iter().all(|d| d.available && d.reason.is_none()));
    assert_eq!(with[3].label, "Total GPU memory");
    assert_eq!(with[3].unit, "bytes");
}
