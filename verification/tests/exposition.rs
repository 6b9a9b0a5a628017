use computer_state::exposition::prometheus_text;
use computer_state::sample::{MetricSample, SampleValue};

fn sample(metric: &str, labels: &[(&str, &str)]) -> MetricSample {
    MetricSample {
        metric: metric.to_string(),
        timestamp: 1_000,
        value: SampleValue::Whole(1),
        labels: labels.iter().map(|(k, v)| (k.to_string(), v.to_string())).collect(),
    }
}

#[test]
fn renders_names_labels_and_values() {
    let samples = vec![
        sample("cpu.total.usage", &[]),
        sample("cpu.core.usage", &[("core", "0")]),
        sample("gpu.usage", &[("gpu", "0"), ("name", "A \"big\" \\ card")]),
    ];
    let values = vec!["24.8".to_string(), "31.2".to_string(), "7".to_string()];
    assert_eq!(
        prometheus_text(&samples, &values),
        "computer_state_cpu_total_usage 24.8\n\
         computer_state_cpu_core_usage{core=\"0\"} 31.2\n\
         computer_state_gpu_usage{gpu=\"0\",name=\"A \\\"big\\\" \\\\ card\"} 7\n"
    );
}

#[test]
fn label_keys_lose_their_dots() {
    let samples = vec![sample("uptime", &[("a.b", "c.d")])];
    let values = vec!["5".to_string()];
    assert_eq!(prometheus_text(&samples, &values), "computer_state_uptime{a_b=\"c.d\"} 5\n");
}

#[test]
fn empty_snapshot_renders_nothing() {
    assert_eq!(prometheus_text(&vec![], &vec![]), "");
}

#[test]
fn newline_in_label_value_stays_on_one_line() {
    let samples = vec![sample("gpu.usage", &[("gpu", "0"), ("name", "two\nlines")])];
    let values = vec!["3".to_string()];
    let text = prometheus_text(&samples, &values);
    assert_eq!(text, "computer_state_gpu_usage{gpu=\"0\",name=\"two\\nlines\"} 3\n");
    assert_eq!(text.matches('\n').count(), 1);
}
