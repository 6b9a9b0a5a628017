use computer_state::query::{
    plan_history, plan_query, plan_query_in, select_metrics, window_texts, DayWindow, HistoryQuery,
    MetricsRefusal, QueryParams, Selection,
};
use computer_state::storage::Aggregation;

const T0800: i64 = 1_783_843_200_000;
const T1200: i64 = 1_783_857_600_000;
const DAY: i64 = 86_400_000;

fn params(metrics: &[&str]) -> QueryParams {
    QueryParams {
        metric: metrics.iter().map(|m| m.to_string()).collect(),
        from: None,
        to: None,
        date: None,
        range: None,
        aggregation: None,
        interval: None,
    }
}

fn some(s: &str) -> Option<String> {
    Some(s.to_string())
}

#[test]
fn explicit_window_raw_samples() {
    let mut p = params(&["cpu.total.usage"]);
    p.from = some("2026-07-12T08:00:00Z");
    p.to = some("2026-07-12T12:00:00Z");
    let plan = plan_query(&p, T1200, 7).unwrap();
    assert_eq!(plan.metrics, ["cpu.total.usage"]);
    assert_eq!(plan.from, T0800);
    assert_eq!(plan.to, T1200);
    assert_eq!(plan.selection, Selection::Raw { limit: 50_000 });
    let (from, to) = window_texts(&plan);
    assert_eq!(from.as_deref(), Some("2026-07-12T08:00:00Z"));
    assert_eq!(to.as_deref(), Some("2026-07-12T12:00:00Z"));
}

#[test]
fn relative_range_with_average() {
    let mut p = params(&["cpu.total.usage"]);
    p.range = some("6h");
    p.aggregation = some("avg");
    let plan = plan_query(&p, T1200, 7).unwrap();
    assert_eq!(plan.from, T1200 - 21_600_000);
    assert_eq!(plan.to, T1200);
    assert_eq!(plan.selection, Selection::Aggregate { operation: Aggregation::Avg, bucket: None });
}

#[test]
fn bucketed_aggregation() {
    let mut p = params(&["cpu.total.usage"]);
    p.range = some("6h");
    p.aggregation = some("avg");
    p.interval = some("5m");
    let plan = plan_query(&p, T1200, 7).unwrap();
    assert_eq!(plan.selection, Selection::Aggregate { operation: Aggregation::Avg, bucket: Some(300_000) });
}

#[test]
fn metrics_are_sorted_and_deduplicated() {
    let mut p = params(&["memory.usage", "cpu.total.usage", "memory.usage"]);
    p.range = some("30m");
    let plan = plan_query(&p, T1200, 7).unwrap();
    assert_eq!(plan.metrics, ["cpu.total.usage", "memory.usage"]);
    assert_eq!(plan.selection, Selection::Raw { limit: 25_000 });
    assert_eq!(
        select_metrics(&vec!["uptime".to_string(), "cpu.core.usage".to_string()]),
        Ok(vec!["cpu.core.usage".to_string(), "uptime".to_string()])
    );
    assert_eq!(select_metrics(&vec![]), Err(MetricsRefusal::Missing));
}

#[test]
fn window_is_bounded_by_retention() {
    let mut p = params(&["uptime"]);
    p.range = some("2w");
    let plan = plan_query(&p, T1200, 7).unwrap();
    assert_eq!(plan.from, T1200 - 7 * DAY);
}

#[test]
fn refusals() {
    let err = |p: &QueryParams| plan_query(p, T1200, 7).unwrap_err();
    let mut p = params(&[]);
    p.range = some("1h");
    assert_eq!(err(&p), "one or more valid metric parameters are required");
    let mut p = params(&["cpu.total.usage", "nope"]);
    p.range = some("1h");
    assert_eq!(err(&p), "one or more valid metric parameters are required");
    let p = params(&["cpu.total.usage"]);
    assert_eq!(err(&p), "use exactly one of from, date, or range");
    let mut p = params(&["cpu.total.usage"]);
    p.range = some("1h");
    p.date = some("2026-07-12");
    assert_eq!(err(&p), "use exactly one of from, date, or range");
    let mut p = params(&["cpu.total.usage"]);
    p.range = some("1h");
    p.interval = some("5m");
    assert_eq!(err(&p), "interval requires aggregation");
    let mut p = params(&["cpu.total.usage"]);
    p.range = some("1h");
    p.aggregation = some("median");
    assert_eq!(err(&p), "unsupported aggregation");
    let mut p = params(&["cpu.total.usage"]);
    p.from = some("yesterday");
    assert_eq!(err(&p), "invalid RFC 3339 timestamp");
    let mut p = params(&["cpu.total.usage"]);
    p.range = some("1h");
    p.to = some("later");
    assert_eq!(err(&p), "invalid RFC 3339 timestamp");
    let mut p = params(&["cpu.total.usage"]);
    p.date = some("2026-13-40");
    assert_eq!(err(&p), "invalid date");
    let mut p = params(&["cpu.total.usage"]);
    p.range = some("0h");
    assert_eq!(err(&p), "duration must be positive");
    let mut p = params(&["cpu.total.usage"]);
    p.from = some("2026-07-12T12:00:00Z");
    p.to = some("2026-07-12T08:00:00Z");
    assert_eq!(err(&p), "query start must precede query end");
    let mut p = params(&["cpu.total.usage"]);
    p.range = some("1h");
    p.aggregation = some("sum");
    p.interval = some("5x");
    assert_eq!(err(&p), "duration unit must be m, h, d, or w");
}

#[test]
fn empty_aggregation_reads_raw_samples() {
    let mut p = params(&["cpu.total.usage"]);
    p.range = some("1h");
    p.aggregation = some("");
    p.interval = some("5m");
    let plan = plan_query(&p, T1200, 7).unwrap();
    assert_eq!(plan.selection, Selection::Raw { limit: 50_000 });
}

#[test]
fn calendar_day_uses_the_local_window() {
    let mut p = params(&["cpu.total.usage"]);
    p.date = some("2026-07-12");
    let day = DayWindow { start: Some(T0800), end: Some(T0800 + DAY) };
    let plan = plan_query_in(&p, T0800 + 2 * DAY, 7, day).unwrap();
    assert_eq!(plan.from, T0800);
    assert_eq!(plan.to, T0800 + DAY);
    let ambiguous = DayWindow { start: None, end: Some(T0800 + DAY) };
    assert_eq!(plan_query_in(&p, T0800, 7, ambiguous).unwrap_err(), "ambiguous local date");
    let plan = plan_query(&p, T0800 + 2 * DAY, 7).unwrap();
    assert!(plan.to - plan.from >= 23 * 3_600_000 && plan.to - plan.from <= 25 * 3_600_000);
}

#[test]
fn durations_and_windows_at_the_edges() {
    let mut p = params(&["cpu.total.usage"]);
    p.range = some("5é");
    assert_eq!(plan_query(&p, T1200, 7).unwrap_err(), "invalid duration");
    let mut p = params(&["cpu.total.usage"]);
    p.range = some("1h");
    p.aggregation = some("avg");
    p.interval = some("5é");
    assert_eq!(plan_query(&p, T1200, 7).unwrap_err(), "invalid duration");
    let mut p = params(&["cpu.total.usage"]);
    p.range = some("9223372036854775807m");
    assert_eq!(plan_query(&p, T1200, 7).unwrap_err(), "duration is too large");
    let mut p = params(&["cpu.total.usage"]);
    p.range = some("15250284452w");
    p.to = some("1900-01-01T00:00:00Z");
    let plan = plan_query(&p, T1200, 7).unwrap();
    assert_eq!(plan.from, T1200 - 7 * DAY);
    assert_eq!(plan.to, -2_208_988_800_000);
    let mut p = params(&["cpu.total.usage"]);
    p.date = some("+262142-12-31");
    assert_eq!(plan_query(&p, T1200, 7).unwrap_err(), "invalid date");
}

fn history(metrics: &[&str], from: &str, to: &str) -> HistoryQuery {
    HistoryQuery {
        metrics: metrics.iter().map(|m| m.to_string()).collect(),
        from: from.to_string(),
        to: to.to_string(),
        aggregation: None,
        interval_seconds: None,
    }
}

#[test]
fn history_queries() {
    let q = history(&["cpu.total.usage"], "2026-07-12T08:00:00Z", "2026-07-12T12:00:00Z");
    let plan = plan_history(&q, T1200, 7).unwrap();
    assert_eq!(plan.from, T0800);
    assert_eq!(plan.to, T1200);
    assert_eq!(plan.selection, Selection::Raw { limit: 50_000 });
    let mut q = history(&["cpu.total.usage"], "2026-07-12T08:00:00Z", "2026-07-12T12:00:00Z");
    q.aggregation = some("avg");
    q.interval_seconds = Some(60);
    let plan = plan_history(&q, T1200, 7).unwrap();
    assert_eq!(plan.selection, Selection::Aggregate { operation: Aggregation::Avg, bucket: Some(60_000) });
    q.aggregation = some("");
    assert_eq!(plan_history(&q, T1200, 7).unwrap_err(), "unsupported aggregation");
    let q = history(&[], "2026-07-12T08:00:00Z", "2026-07-12T12:00:00Z");
    assert_eq!(plan_history(&q, T1200, 7).unwrap_err(), "one or more valid metrics are required");
    let q = history(&["uptime"], "x", "2026-07-12T12:00:00Z");
    assert_eq!(plan_history(&q, T1200, 7).unwrap_err(), "invalid from timestamp");
    let q = history(&["uptime"], "2026-07-12T08:00:00Z", "x");
    assert_eq!(plan_history(&q, T1200, 7).unwrap_err(), "invalid to timestamp");
    let q = history(&["uptime"], "2026-07-12T12:00:00Z", "2026-07-12T12:00:00Z");
    assert_eq!(plan_history(&q, T1200, 7).unwrap_err(), "from must precede to");
    let mut q = history(&["uptime"], "2026-07-12T08:00:00Z", "2026-07-12T12:00:00Z");
    q.aggregation = some("max");
    q.interval_seconds = Some(i64::MAX);
    assert_eq!(plan_history(&q, T1200, 7).unwrap_err(), "interval is too large");
    q.interval_seconds = Some(0);
    assert_eq!(plan_history(&q, T1200, 7).unwrap_err(), "interval must be positive");
    q.interval_seconds = Some(-60);
    assert_eq!(plan_history(&q, T1200, 7).unwrap_err(), "interval must be positive");
    q.aggregation = None;
    q.interval_seconds = Some(60);
    assert_eq!(plan_history(&q, T1200, 7).unwrap_err(), "interval requires aggregation");
}

#[test]
fn calendar_days_across_month_and_year_ends() {
    for date in ["2024-02-28", "2024-02-29", "2023-02-28", "2000-02-29", "2025-12-31", "2026-04-30"] {
        let mut p = params(&["cpu.total.usage"]);
        p.date = some(date);
        let plan = plan_query(&p, T1200, 36_500).unwrap();
        assert!(plan.to - plan.from >= 23 * 3_600_000 && plan.to - plan.from <= 25 * 3_600_000, "{date}");
    }
    let mut p = params(&["cpu.total.usage"]);
    p.date = some("2023-02-29");
    assert_eq!(plan_query(&p, T1200, 7).unwrap_err(), "invalid date");
}
