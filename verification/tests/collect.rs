use computer_state::collect::{build_samples, reading_plan, DiskReading, GpuReading, NetworkReading, SystemReadings};
use computer_state::sample::{labels_in_key_order, SampleValue};

fn readings() -> SystemReadings {
    SystemReadings {
        cpu_total: 24.5f64.to_bits(),
        cpu_cores: vec![10.0f64.to_bits(), 20.0f64.to_bits()],
        memory_total: 16_000,
        memory_used: 8_000,
        process_count: 300,
        uptime: 3_600,
        networks: vec![NetworkReading { interface: "eth0".to_string(), received: 100, transmitted: 50 }],
        disks: vec![DiskReading { volume: "/".to_string(), total: 1_000, available: 1_200 }],
        gpus: vec![GpuReading { index: 1, name: Some("Card".to_string()), utilization: Some(40), memory: Some((8_000, 2_000)) }],
    }
}

fn names(list: &[&str]) -> Vec<String> {
    list.iter().map(|s| s.to_string()).collect()
}

#[test]
fn every_enabled_metric_is_sampled_in_order() {
    let enabled = names(&[
        "cpu.core.usage", "cpu.total.usage", "gpu.memory.total", "gpu.memory.usage", "gpu.usage",
        "memory.total", "memory.usage", "network.bytes_received", "network.bytes_sent",
        "process.count", "storage.total", "storage.usage", "uptime",
    ]);
    let samples = build_samples(&enabled, 42, &readings());
    let metrics: Vec<&str> = samples.iter().map(|s| s.metric.as_str()).collect();
    assert_eq!(
        metrics,
        [
            "cpu.total.usage", "cpu.core.usage", "cpu.core.usage", "memory.total", "memory.usage",
            "process.count", "uptime", "network.bytes_received", "network.bytes_sent",
            "storage.total", "storage.usage", "gpu.usage", "gpu.memory.total", "gpu.memory.usage",
        ]
    );
    assert!(samples.iter().all(|s| s.timestamp == 42));
    assert_eq!(samples[0].value, SampleValue::Bits(24.5f64.to_bits()));
    assert_eq!(samples[2].labels, [("core".to_string(), "1".to_string())]);
    assert_eq!(samples[7].labels, [("interface".to_string(), "eth0".to_string())]);
    assert_eq!(samples[10].value, SampleValue::Whole(0));
    assert_eq!(samples[11].value, SampleValue::Whole(40));
    assert_eq!(
        samples[12].labels,
        [("gpu".to_string(), "1".to_string()), ("name".to_string(), "Card".to_string())]
    );
}

#[test]
fn disabled_metrics_are_not_sampled() {
    let enabled = names(&["memory.usage", "storage.usage"]);
    let mut r = readings();
    r.disks[0].available = 400;
    let samples = build_samples(&enabled, 7, &r);
    assert_eq!(samples.len(), 2);
    assert_eq!(samples[0].metric, "memory.usage");
    assert_eq!(samples[1].value, SampleValue::Whole(600));
    assert!(build_samples(&vec![], 7, &r).is_empty());
}

#[test]
fn many_cores_get_decimal_labels() {
    let mut r = readings();
    r.cpu_cores = vec![0; 12];
    let samples = build_samples(&names(&["cpu.core.usage"]), 0, &r);
    assert_eq!(samples.len(), 12);
    assert_eq!(samples[11].labels[0].1, "11");
    assert_eq!(samples[10].labels[0].1, "10");
}

#[test]
fn reading_plan_follows_enabled_metrics() {
    let plan = reading_plan(&names(&["network.bytes_sent", "gpu.memory.usage"]));
    assert!(plan.network);
    assert!(!plan.storage);
    assert!(!plan.gpu_usage);
    assert!(plan.gpu_memory);
}

#[test]
fn collected_labels_are_in_key_order() {
    let enabled = names(&["cpu.core.usage", "gpu.usage", "gpu.memory.total", "network.bytes_sent", "storage.usage"]);
    let samples = build_samples(&enabled, 7, &readings());
    assert!(!samples.is_empty());
    assert!(samples.iter().all(|s| labels_in_key_order(&s.labels)));
}
