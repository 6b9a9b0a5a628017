use computer_state::policy::IpAddress;
use computer_state::settings::{lookup_setting, AppSettings, StoredSettings};

#[test]
fn defaults_match_product_contract() {
    let settings = AppSettings::default();
    assert_eq!(settings.collection.interval_seconds, 60);
    assert_eq!(settings.collection.retention_days, 7);
    assert_eq!(settings.http.port, 8888);
    assert_eq!(settings.http.allowed_interfaces, ["loopback", "tailscale"]);
    assert!(settings.validate(&vec![None, None]).is_ok());
}

#[test]
fn rejects_unsafe_or_abusive_values() {
    let mut settings = AppSettings::default();
    settings.collection.interval_seconds = 1;
    assert!(settings.validate(&vec![None, None]).is_err());
    settings = AppSettings::default();
    settings.http.allowed_interfaces.clear();
    assert!(settings.validate(&vec![]).is_err());
}

#[test]
fn validation_messages() {
    let mut settings = AppSettings::default();
    settings.version = 2;
    assert_eq!(settings.validate(&vec![]), Err("unsupported settings version".to_string()));
    let mut settings = AppSettings::default();
    settings.collection.interval_seconds = 86_401;
    assert_eq!(
        settings.validate(&vec![]),
        Err("collection interval must be between 10 seconds and 24 hours".to_string())
    );
    let mut settings = AppSettings::default();
    settings.collection.retention_days = 0;
    assert_eq!(settings.validate(&vec![]), Err("retention must be between 1 and 365 days".to_string()));
    let mut settings = AppSettings::default();
    settings.http.port = 0;
    assert_eq!(settings.validate(&vec![]), Err("port must be between 1 and 65535".to_string()));
    settings.http.port = 65_535;
    assert!(settings.validate(&vec![]).is_ok());
    let mut settings = AppSettings::default();
    settings.http.allowed_interfaces.clear();
    assert_eq!(settings.validate(&vec![]), Err("at least one allowed interface is required".to_string()));
    let mut settings = AppSettings::default();
    settings.http.allowed_interfaces = vec!["loopback".to_string(), "eth0".to_string()];
    assert_eq!(settings.validate(&vec![None, None]), Err("invalid allowed interface: eth0".to_string()));
    settings.http.allowed_interfaces = vec!["10.0.0.2".to_string()];
    assert!(settings.validate(&vec![Some(IpAddress::V4(10, 0, 0, 2))]).is_ok());
    assert!(settings.validate(&vec![]).is_err());
}

#[test]
fn interval_and_retention_limits_are_inclusive() {
    let mut settings = AppSettings::default();
    settings.collection.interval_seconds = 10;
    settings.collection.retention_days = 365;
    assert!(settings.validate(&vec![None, None]).is_ok());
    settings.collection.interval_seconds = 86_400;
    settings.collection.retention_days = 1;
    assert!(settings.validate(&vec![None, None]).is_ok());
}

#[test]
fn default_metrics_are_all_enabled_in_order() {
    let settings = AppSettings::default();
    let names: Vec<&str> = settings.metrics.iter().map(|(name, _)| name.as_str()).collect();
    assert_eq!(
        names,
        [
            "cpu.core.usage",
            "cpu.total.usage",
            "gpu.memory.total",
            "gpu.memory.usage",
            "gpu.usage",
            "memory.total",
            "memory.usage",
            "network.bytes_received",
            "network.bytes_sent",
            "process.count",
            "storage.total",
            "storage.usage",
            "uptime",
        ]
    );
    assert!(settings.metrics.iter().all(|(_, enabled)| *enabled));
    assert_eq!(settings.enabled_metrics().len(), 13);
}

#[test]
fn migration_adds_missing_metrics_and_keeps_choices() {
    let mut settings = AppSettings::default();
    settings.metrics = vec![("uptime".to_string(), false), ("custom".to_string(), true)];
    let migrated = settings.migrated();
    assert_eq!(migrated.metrics.len(), 14);
    assert_eq!(lookup_setting(&migrated.metrics, "uptime"), Some(false));
    assert_eq!(lookup_setting(&migrated.metrics, "custom"), Some(true));
    assert_eq!(lookup_setting(&migrated.metrics, "gpu.usage"), Some(true));
    assert!(!migrated.metric_enabled("uptime"));
    assert!(migrated.metric_enabled("memory.total"));
    assert!(!migrated.metric_enabled("unknown.metric"));
    let again = AppSettings { metrics: migrated.metrics.clone(), ..migrated.clone() }.migrated();
    assert_eq!(again.metrics, migrated.metrics);
}

#[test]
fn stored_settings_resolution() {
    let missing = AppSettings::from_stored(StoredSettings::Missing);
    assert_eq!(missing.http.port, 8888);
    let malformed = AppSettings::from_stored(StoredSettings::Malformed);
    assert_eq!(malformed.http.port, 8888);
    assert_eq!(malformed.metrics.len(), 13);
    let mut stored = AppSettings::default();
    stored.http.port = 9000;
    stored.metrics.truncate(2);
    let parsed = AppSettings::from_stored(StoredSettings::Parsed(stored));
    assert_eq!(parsed.http.port, 9000);
    assert_eq!(parsed.metrics.len(), 13);
}

#[test]
fn enabled_metrics_follow_pair_order() {
    let mut settings = AppSettings::default();
    settings.metrics = vec![
        ("uptime".to_string(), true),
        ("memory.total".to_string(), false),
        ("cpu.total.usage".to_string(), true),
    ];
    assert_eq!(settings.enabled_metrics(), ["uptime", "cpu.total.usage"]);
}

#[test]
fn repeated_metric_follows_its_first_pair() {
    let mut settings = AppSettings::default();
    settings.metrics = vec![
        ("uptime".to_string(), false),
        ("memory.total".to_string(), true),
        ("uptime".to_string(), true),
        ("memory.total".to_string(), true),
    ];
    assert!(!settings.metric_enabled("uptime"));
    assert!(settings.metric_enabled("memory.total"));
    assert_eq!(settings.enabled_metrics(), ["memory.total"]);
}

#[test]
fn migrated_metrics_come_in_name_order() {
    let mut settings = AppSettings::default();
    settings.metrics = vec![
        ("uptime".to_string(), false),
        ("custom".to_string(), true),
        ("uptime".to_string(), true),
        ("cpu.total.usage".to_string(), false),
    ];
    let migrated = settings.migrated();
    let names: Vec<&str> = migrated.metrics.iter().map(|(name, _)| name.as_str()).collect();
    assert_eq!(
        names,
        [
            "cpu.core.usage", "cpu.total.usage", "custom", "gpu.memory.total", "gpu.memory.usage",
            "gpu.usage", "memory.total", "memory.usage", "network.bytes_received",
            "network.bytes_sent", "process.count", "storage.total", "storage.usage", "uptime",
        ]
    );
    assert_eq!(lookup_setting(&migrated.metrics, "uptime"), Some(false));
    assert_eq!(lookup_setting(&migrated.metrics, "cpu.total.usage"), Some(false));
    assert_eq!(migrated.enabled_metrics()[0], "cpu.core.usage");
    assert_eq!(migrated.enabled_metrics().len(), 12);
}
