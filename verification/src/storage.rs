//! The sample store: its SQL statements, how labels are stored, the size
//! bounds of raw reads and the retention cutoff.
use vstd::prelude::*;
use vstd::string::*;
use crate::sample::{MetricSample, SampleValue, labels_view, keys_ascending};
use crate::text::str_eq;
use std::collections::BTreeMap;

verus! {

broadcast use vstd::string::group_string_axioms;

/// Creates the sample table and its indexes when they are missing.
pub const SCHEMA_SQL: &'static str = "CREATE TABLE IF NOT EXISTS metric_samples(id INTEGER PRIMARY KEY AUTOINCREMENT, metric TEXT NOT NULL, timestamp INTEGER NOT NULL, value REAL NOT NULL, labels_json TEXT NOT NULL DEFAULT '{}'); CREATE INDEX IF NOT EXISTS metric_samples_metric_timestamp ON metric_samples(metric, timestamp); CREATE INDEX IF NOT EXISTS metric_samples_timestamp ON metric_samples(timestamp);";

/// Stores one sample.
pub const INSERT_SAMPLE_SQL: &'static str = "INSERT INTO metric_samples(metric,timestamp,value,labels_json) VALUES(?,?,?,?)";

/// The newest sample of each label set of one metric, ordered by labels.
pub const LATEST_SAMPLES_SQL: &'static str = "SELECT metric,timestamp,value,labels_json FROM metric_samples m WHERE metric=? AND timestamp=(SELECT MAX(timestamp) FROM metric_samples WHERE metric=m.metric AND labels_json=m.labels_json) ORDER BY labels_json";

/// The samples of one metric in `[from, to)`, oldest first, at most `limit`.
pub const RAW_SAMPLES_SQL: &'static str = "SELECT metric,timestamp,value,labels_json FROM metric_samples WHERE metric=? AND timestamp>=? AND timestamp<? ORDER BY timestamp ASC LIMIT ?";

/// Deletes the samples older than a cutoff.
pub const CLEANUP_SQL: &'static str = "DELETE FROM metric_samples WHERE timestamp < ?";

/// The aggregations a query may ask for.
#[derive(Debug, Clone, Copy, PartialEq, Eq, Structural)]
pub enum Aggregation {
    Avg,
    Min,
    Max,
    Sum,
    Count,
}

/// The aggregation that `name` names: `avg`, `min`, `max`, `sum` or `count`.
pub open spec fn aggregation_of(name: Seq<char>) -> Option<Aggregation> {
    if name == "avg"@ {
        Some(Aggregation::Avg)
    } else if name == "min"@ {
        Some(Aggregation::Min)
    } else if name == "max"@ {
        Some(Aggregation::Max)
    } else if name == "sum"@ {
        Some(Aggregation::Sum)
    } else if name == "count"@ {
        Some(Aggregation::Count)
    } else {
        None
    }
}

/// The SQL function that computes an aggregation.
pub open spec fn sql_function(op: Aggregation) -> Seq<char> {
    match op {
        Aggregation::Avg => "AVG"@,
        Aggregation::Min => "MIN"@,
        Aggregation::Max => "MAX"@,
        Aggregation::Sum => "SUM"@,
        Aggregation::Count => "COUNT"@,
    }
}

/// The statement that aggregates one metric over `[from, to)`, per label
/// set, either into time buckets or over the whole range.
pub open spec fn aggregate_statement(op: Aggregation, bucketed: bool) -> Seq<char> {
    if bucketed {
        "SELECT metric,(timestamp / ?) * ? AS timestamp,"@ + sql_function(op)
            + "(value) AS value,labels_json FROM metric_samples WHERE metric=? AND timestamp>=? AND timestamp<? GROUP BY metric,labels_json,(timestamp / ?) ORDER BY timestamp"@
    } else {
        "SELECT metric,? AS timestamp,"@ + sql_function(op)
            + "(value) AS value,labels_json FROM metric_samples WHERE metric=? AND timestamp>=? AND timestamp<? GROUP BY metric,labels_json"@
    }
}

/// An aggregation's SQL function is the name it is requested by, in upper
/// case (`avg` computes `AVG`, `min` computes `MIN`, and so on), so two
/// different aggregations never run the same function.
pub proof fn law_sql_function_is_upper_case_name(name: Seq<char>, other: Aggregation)
    requires
        aggregation_of(name) is Some,
    ensures
        sql_function(aggregation_of(name)->0).len() == name.len(),
        forall|k: int| 0 <= k < name.len() ==> 'a' <= #[trigger] name[k] <= 'z'
            && sql_function(aggregation_of(name)->0)[k] as u32 + 32 == name[k] as u32,
        other != aggregation_of(name)->0 ==> sql_function(other) != sql_function(aggregation_of(name)->0),
{
    reveal_strlit("avg");
    reveal_strlit("min");
    reveal_strlit("max");
    reveal_strlit("sum");
    reveal_strlit("count");
    reveal_strlit("AVG");
    reveal_strlit("MIN");
    reveal_strlit("MAX");
    reveal_strlit("SUM");
    reveal_strlit("COUNT");
    assert("AVG"@[0] != "MIN"@[0] && "AVG"@[0] != "MAX"@[0] && "AVG"@[0] != "SUM"@[0]);
    assert("MIN"@[1] != "MAX"@[1] && "MIN"@[0] != "SUM"@[0] && "MAX"@[0] != "SUM"@[0]);
    assert("COUNT"@.len() != "AVG"@.len());
    assert("COUNT"@.len() != "MIN"@.len());
    assert("COUNT"@.len() != "MAX"@.len());
    assert("COUNT"@.len() != "SUM"@.len());
}

/// Reads an aggregation's name.
pub fn parse_aggregation(name: &str) -> (r: Option<Aggregation>)
    ensures
        r == aggregation_of(name@),
{
    if str_eq(name, "avg") {
        Some(Aggregation::Avg)
    } else if str_eq(name, "min") {
        Some(Aggregation::Min)
    } else if str_eq(name, "max") {
        Some(Aggregation::Max)
    } else if str_eq(name, "sum") {
        Some(Aggregation::Sum)
    } else if str_eq(name, "count") {
        Some(Aggregation::Count)
    } else {
        None
    }
}

impl Aggregation {
    /// The SQL function that computes this aggregation.
    pub fn sql_function(&self) -> (r: &'static str)
        ensures
            r@ == sql_function(*self),
    {
        match self {
            Aggregation::Avg => "AVG",
            Aggregation::Min => "MIN",
            Aggregation::Max => "MAX",
            Aggregation::Sum => "SUM",
            Aggregation::Count => "COUNT",
        }
    }
}

/// The statement that aggregates one metric; see `aggregate_statement`.
pub fn aggregate_sql(op: Aggregation, bucketed: bool) -> (r: String)
    ensures
        r@ == aggregate_statement(op, bucketed),
{
    if bucketed {
        let mut sql = String::from_str("SELECT metric,(timestamp / ?) * ? AS timestamp,");
        sql.append(op.sql_function());
        sql.append("(value) AS value,labels_json FROM metric_samples WHERE metric=? AND timestamp>=? AND timestamp<? GROUP BY metric,labels_json,(timestamp / ?) ORDER BY timestamp");
        sql
    } else {
        let mut sql = String::from_str("SELECT metric,? AS timestamp,");
        sql.append(op.sql_function());
        sql.append("(value) AS value,labels_json FROM metric_samples WHERE metric=? AND timestamp>=? AND timestamp<? GROUP BY metric,labels_json");
        sql
    }
}

/// The most samples a raw query returns across all its metrics.
pub open spec fn raw_sample_budget() -> int {
    50_000
}

/// How many samples a raw query reads per metric when it asks for
/// `metric_count` metrics.
pub fn raw_limit(metric_count: usize) -> (r: i64)
    requires
        metric_count >= 1,
    ensures
        r == raw_sample_budget() / (metric_count as int),
        r * metric_count <= raw_sample_budget(),
{
    let n = metric_count as u64;
    let limit = 50_000u64 / n;
    assert(limit * n <= 50_000) by (nonlinear_arith)
        requires limit == 50_000u64 / n, n >= 1;
    limit as i64
}

/// A raw query shares 50,000 samples evenly among its metrics: each gets
/// the largest limit whose total over all of them stays within 50,000.
pub proof fn law_raw_limit_shares_budget(metric_count: int)
    requires
        metric_count >= 1,
    ensures
        raw_sample_budget() == 50_000,
        (raw_sample_budget() / metric_count) * metric_count <= 50_000,
        (raw_sample_budget() / metric_count + 1) * metric_count > 50_000,
{
    let q: int = 50_000int / metric_count;
    assert(q * metric_count <= 50_000 && (q + 1) * metric_count > 50_000) by (nonlinear_arith)
        requires q == 50_000int / metric_count, metric_count >= 1;
}

/// A retention period of `days` days is `days` times 24 hours of 3,600
/// seconds of 1,000 milliseconds.
pub proof fn law_retention_is_whole_days(days: u32)
    ensures
        retention_ms(days) == days as int * 24 * 3_600 * 1_000,
{
}

/// Milliseconds in `days` days.
pub open spec fn retention_ms(days: u32) -> int {
    days as int * 86_400_000
}

/// The timestamp before which samples are older than the retention period.
pub fn retention_cutoff(now: i64, retention_days: u32) -> (r: i64)
    requires
        now - retention_ms(retention_days) >= i64::MIN,
    ensures
        r == now - retention_ms(retention_days),
{
    now - (retention_days as i64) * 86_400_000
}

/// What `serde_json::to_string` writes for a `BTreeMap<String, String>` that
/// holds exactly the given pairs, or the text of its error.
pub uninterp spec fn labels_json(labels: Seq<(Seq<char>, Seq<char>)>) -> Result<Seq<char>, Seq<char>>;

/// What `serde_json::from_str::<BTreeMap<String, String>>` reads from `text`,
/// as pairs in key order, or the text of its error.
pub uninterp spec fn json_labels(text: Seq<char>) -> Result<Seq<(Seq<char>, Seq<char>)>, Seq<char>>;

/// Writes the labels as a JSON object with `serde_json::to_string`, through
/// the `BTreeMap` that holds them; their keys being strictly ascending, that
/// map holds each pair as given. The text is named, not described; reading
/// it back with `serde_json::from_str` gives that map again, since the
/// writer escapes every character of a string that the reader unescapes.
#[verifier::external_body]
fn encode_labels(labels: &Vec<(String, String)>) -> (r: Result<String, String>)
    requires
        keys_ascending(labels_view(labels@)),
    ensures
        match r {
            Ok(text) => {
                &&& labels_json(labels_view(labels@)) == Ok::<Seq<char>, Seq<char>>(text@)
                &&& json_labels(text@) == Ok::<Seq<(Seq<char>, Seq<char>)>, Seq<char>>(labels_view(labels@))
            },
            Err(message) => labels_json(labels_view(labels@)) == Err::<Seq<char>, Seq<char>>(message@),
        },
{
    let map: BTreeMap<String, String> = labels.iter().cloned().collect();
    match serde_json::to_string(&map) {
        Ok(text) => Ok(text),
        Err(error) => Err(error.to_string()),
    }
}

/// Reads a JSON object of string values with `serde_json::from_str` into a
/// `BTreeMap<String, String>`, and returns its pairs in the map's order,
/// which is ascending key order with each key once. The pairs are named,
/// not described.
#[verifier::external_body]
fn decode_labels(text: &str) -> (r: Result<Vec<(String, String)>, String>)
    ensures
        r matches Ok(labels) ==> keys_ascending(labels_view(labels@)),
        match r {
            Ok(labels) => json_labels(text@) == Ok::<Seq<(Seq<char>, Seq<char>)>, Seq<char>>(labels_view(labels@)),
            Err(message) => json_labels(text@) == Err::<Seq<(Seq<char>, Seq<char>)>, Seq<char>>(message@),
        },
{
    match serde_json::from_str::<BTreeMap<String, String>>(text) {
        Ok(map) => Ok(map.into_iter().collect()),
        Err(error) => Err(error.to_string()),
    }
}

/// The labels column of a stored sample: its labels as a JSON object. The
/// keys must be strictly ascending (see `labels_in_key_order`), as the
/// collector and the store give them. Reading the column back gives the
/// same labels.
pub fn labels_column(sample: &MetricSample) -> (r: Result<String, String>)
    requires
        keys_ascending(labels_view(sample.labels@)),
    ensures
        r matches Ok(text) ==> json_labels(text@) == Ok::<Seq<(Seq<char>, Seq<char>)>, Seq<char>>(labels_view(sample.labels@)),
        match r {
            Ok(text) => labels_json(labels_view(sample.labels@)) == Ok::<Seq<char>, Seq<char>>(text@),
            Err(message) => labels_json(labels_view(sample.labels@)) == Err::<Seq<char>, Seq<char>>(message@),
        },
{
    encode_labels(&sample.labels)
}

/// Whether the scheduler's daily retention cleanup is due, given the
/// seconds since the last one.
pub fn cleanup_due(seconds_since_last: u64) -> (r: bool)
    ensures
        r == (seconds_since_last >= 86_400),
{
    seconds_since_last >= 86_400
}

/// The sample that a stored row holds: its metric, timestamp, value (the bit
/// pattern of the stored double) and labels written as JSON.
pub fn sample_from_row(metric: String, timestamp: i64, value_bits: u64, labels: &str) -> (r: Result<MetricSample, String>)
    ensures
        match r {
            Ok(sample) => {
                &&& json_labels(labels@) is Ok
                &&& sample.metric@ == metric@
                &&& sample.timestamp == timestamp
                &&& sample.value == SampleValue::Bits(value_bits)
                &&& keys_ascending(labels_view(sample.labels@))
                &&& json_labels(labels@) == Ok::<Seq<(Seq<char>, Seq<char>)>, Seq<char>>(labels_view(sample.labels@))
            },
            Err(message) => json_labels(labels@) == Err::<Seq<(Seq<char>, Seq<char>)>, Seq<char>>(message@),
        },
{
    match decode_labels(labels) {
        Ok(pairs) => Ok(MetricSample { metric, timestamp, value: SampleValue::Bits(value_bits), labels: pairs }),
        Err(message) => Err(message),
    }
}

} // verus!
