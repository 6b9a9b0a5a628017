//! Planning the queries of the JSON API and of the dashboard.
//!
//! A query names one or more metrics and a time window; it reads either the
//! raw samples or one aggregate per label set (and per time bucket, when an
//! interval is given). Planning validates the request, resolves the window
//! and bounds it to the retained history; the store then runs the plan.
use vstd::prelude::*;
use vstd::string::*;
use crate::catalog::{known_metric, sorted_ids, sorted_metric_ids, is_known_metric, lex_less, lemma_lex_less_irreflexive, law_sorted_ids_ascending};
use crate::calendar::{
    calendar_date, following_date, rfc3339_millis, rfc3339_text, utc_midnight, day_ms, parse_calendar_date,
    next_calendar_date, parse_rfc3339_millis, format_rfc3339, local_midnight_millis, lemma_following_date_next_day,
};
use crate::collect::is_enabled;
use crate::duration::{duration_ms, parse_duration};
use crate::settings::names_view;
use crate::storage::{Aggregation, aggregation_of, parse_aggregation, raw_limit, raw_sample_budget, retention_ms};

verus! {

broadcast use vstd::string::group_string_axioms;

/// The parameters of a `GET /query` request. Each `Option` is absent when
/// the parameter was not given.
pub struct QueryParams {
    pub metric: Vec<String>,
    pub from: Option<String>,
    pub to: Option<String>,
    pub date: Option<String>,
    pub range: Option<String>,
    pub aggregation: Option<String>,
    pub interval: Option<String>,
}

/// A dashboard history request: explicit `from` and `to` timestamps, and an
/// optional aggregation with an optional bucket length in seconds.
pub struct HistoryQuery {
    pub metrics: Vec<String>,
    pub from: String,
    pub to: String,
    pub aggregation: Option<String>,
    pub interval_seconds: Option<i64>,
}

/// What a query reads: raw samples, at most `limit` per metric, or one
/// aggregate per label set, per bucket of `bucket` milliseconds when given.
#[derive(Debug, Clone, Copy, PartialEq, Eq, Structural)]
pub enum Selection {
    Raw { limit: i64 },
    Aggregate { operation: Aggregation, bucket: Option<i64> },
}

/// A validated query: distinct known metrics in ascending order, the window
/// `[from, to)` in milliseconds, and what to read.
#[derive(Debug)]
pub struct QueryPlan {
    pub metrics: Vec<String>,
    pub from: i64,
    pub to: i64,
    pub selection: Selection,
}

/// A plan as plain values.
pub struct PlanView {
    pub metrics: Seq<Seq<char>>,
    pub from: int,
    pub to: int,
    pub selection: Selection,
}

impl View for QueryPlan {
    type V = PlanView;

    open spec fn view(&self) -> PlanView {
        PlanView {
            metrics: names_view(self.metrics@),
            from: self.from as int,
            to: self.to as int,
            selection: self.selection,
        }
    }
}

/// The local midnights that begin the requested calendar date (`start`) and
/// the day after it (`end`); absent where local midnight is ambiguous or
/// does not exist.
#[derive(Debug, Clone, Copy)]
pub struct DayWindow {
    pub start: Option<i64>,
    pub end: Option<i64>,
}

/// Why the requested metrics were refused.
#[derive(Debug, Clone, Copy, PartialEq, Eq, Structural)]
pub enum MetricsRefusal {
    /// None was given, or one is not in the catalog.
    Missing,
    /// More than 16 distinct metrics were given.
    TooMany,
}

/// The catalog metrics among `ids` that were requested, in the order of `ids`.
pub open spec fn select_ids(ids: Seq<Seq<char>>, requested: Seq<Seq<char>>) -> Seq<Seq<char>>
    decreases ids.len(),
{
    if ids.len() == 0 {
        Seq::empty()
    } else {
        let rest = select_ids(ids.drop_last(), requested);
        if requested.contains(ids.last()) { rest.push(ids.last()) } else { rest }
    }
}

/// The requested metrics, without repetitions and in ascending order, or why
/// they are refused.
pub open spec fn metric_selection(requested: Seq<Seq<char>>) -> Result<Seq<Seq<char>>, MetricsRefusal> {
    if requested.len() == 0 || exists|i: int| 0 <= i < requested.len() && !known_metric(#[trigger] requested[i]) {
        Err(MetricsRefusal::Missing)
    } else {
        let selected = select_ids(sorted_ids(), requested);
        if selected.len() > 16 { Err(MetricsRefusal::TooMany) } else { Ok(selected) }
    }
}

/// Text of an optional string parameter.
pub open spec fn opt_view(o: Option<String>) -> Option<Seq<char>> {
    match o {
        Some(s) => Some(s@),
        None => None,
    }
}

/// How many of `from`, `date` and `range` were given.
pub open spec fn mode_count(p: QueryParams) -> int {
    (if p.from is Some { 1int } else { 0int }) + (if p.date is Some { 1int } else { 0int }) + (if p.range is Some { 1int } else { 0int })
}

/// The requested aggregation's name; empty when none was given.
pub open spec fn operation_name(p: QueryParams) -> Seq<char> {
    match p.aggregation {
        Some(a) => a@,
        None => Seq::empty(),
    }
}

/// The end of the window before a date is considered: `to`, or now.
pub open spec fn query_end(p: QueryParams, now: i64) -> Result<int, Seq<char>> {
    match p.to {
        Some(t) => match rfc3339_millis(t@) {
            Some(v) => Ok(v as int),
            None => Err("invalid RFC 3339 timestamp"@),
        },
        None => Ok(now as int),
    }
}

/// The start of the window, which a relative range may place before the
/// earliest instant an `i64` holds.
pub open spec fn query_start(p: QueryParams, end: int, day: DayWindow) -> Result<int, Seq<char>> {
    match p.from {
        Some(f) => match rfc3339_millis(f@) {
            Some(v) => Ok(v as int),
            None => Err("invalid RFC 3339 timestamp"@),
        },
        None => match p.date {
            Some(d) => match calendar_date(d@) {
                None => Err("invalid date"@),
                Some(_) => match day.start {
                    None => Err("ambiguous local date"@),
                    Some(s) => Ok(s as int),
                },
            },
            None => match p.range {
                Some(r) => match duration_ms(r@) {
                    Err(message) => Err(message),
                    Ok(d) => Ok(end - d),
                },
                None => Ok(end),
            },
        },
    }
}

/// The end of the window: the next local midnight for a date, else `end`.
/// A date with no following day is refused as invalid.
pub open spec fn query_effective_end(p: QueryParams, end: int, day: DayWindow) -> Result<int, Seq<char>> {
    match p.date {
        Some(d) => match calendar_date(d@) {
            Some(date) => match following_date(date) {
                None => Err("invalid date"@),
                Some(_) => match day.end {
                    None => Err("ambiguous local date"@),
                    Some(e) => Ok(e as int),
                },
            },
            None => Err("invalid date"@),
        },
        None => Ok(end),
    }
}

/// What the query reads, given the selected metrics.
pub open spec fn query_selection(p: QueryParams, metrics: Seq<Seq<char>>) -> Result<Selection, Seq<char>> {
    let name = operation_name(p);
    if name.len() == 0 {
        Ok(Selection::Raw { limit: (raw_sample_budget() / (metrics.len() as int)) as i64 })
    } else {
        let operation = aggregation_of(name)->0;
        match p.interval {
            None => Ok(Selection::Aggregate { operation, bucket: None }),
            Some(iv) => match duration_ms(iv@) {
                Err(message) => Err(message),
                Ok(b) => Ok(Selection::Aggregate { operation, bucket: Some(b as i64) }),
            },
        }
    }
}

/// The window's start once bounded to the retained history.
pub open spec fn bounded_start(start: int, now: i64, retention_days: u32) -> int {
    let floor = now - retention_ms(retention_days);
    if start >= floor { start } else { floor }
}

/// The plan of a `GET /query` request, given the time `now`, the retention
/// period and the local day window of a requested date, or the message that
/// refuses it.
pub open spec fn query_plan(p: QueryParams, now: i64, retention_days: u32, day: DayWindow) -> Result<PlanView, Seq<char>> {
    match metric_selection(names_view(p.metric@)) {
        Err(MetricsRefusal::Missing) => Err("one or more valid metric parameters are required"@),
        Err(MetricsRefusal::TooMany) => Err("a query may request at most 16 metrics"@),
        Ok(metrics) => if mode_count(p) != 1 {
            Err("use exactly one of from, date, or range"@)
        } else if p.interval is Some && p.aggregation is None {
            Err("interval requires aggregation"@)
        } else if operation_name(p).len() != 0 && aggregation_of(operation_name(p)) is None {
            Err("unsupported aggregation"@)
        } else {
            match query_end(p, now) {
                Err(message) => Err(message),
                Ok(end) => match query_start(p, end, day) {
                    Err(message) => Err(message),
                    Ok(start) => match query_effective_end(p, end, day) {
                        Err(message) => Err(message),
                        Ok(stop) => if start >= stop {
                            Err("query start must precede query end"@)
                        } else {
                            match query_selection(p, metrics) {
                                Err(message) => Err(message),
                                Ok(selection) => Ok(PlanView {
                                    metrics,
                                    from: bounded_start(start, now, retention_days),
                                    to: stop,
                                    selection,
                                }),
                            }
                        },
                    },
                },
            }
        },
    }
}

/// An outcome as plain values.
pub open spec fn outcome_view(r: Result<QueryPlan, &'static str>) -> Result<PlanView, Seq<char>> {
    match r {
        Ok(plan) => Ok(plan@),
        Err(message) => Err(message@),
    }
}

proof fn lemma_select_contains(ids: Seq<Seq<char>>, requested: Seq<Seq<char>>, j: int)
    requires
        0 <= j < ids.len(),
        requested.contains(ids[j]),
    ensures
        select_ids(ids, requested).contains(ids[j]),
    decreases ids.len(),
{
    if j < ids.len() - 1 {
        lemma_select_contains(ids.drop_last(), requested, j);
        let rest = select_ids(ids.drop_last(), requested);
        let k = choose|k: int| 0 <= k < rest.len() && rest[k] == ids[j];
        if requested.contains(ids.last()) {
            assert(rest.push(ids.last())[k] == ids[j]);
        }
    } else {
        let rest = select_ids(ids.drop_last(), requested);
        assert(rest.push(ids.last())[rest.len() as int] == ids[j]);
    }
}

/// Every catalog metric occurs in the ascending list of identifiers.
pub proof fn lemma_known_is_sorted_id(metric: Seq<char>)
    requires
        known_metric(metric),
    ensures
        sorted_ids().contains(metric),
{
    let ids = crate::catalog::catalog_ids();
    let i = choose|i: int| 0 <= i < ids.len() && ids[i] == metric;
    let s = sorted_ids();
    if i == 0 { assert(s[0] == metric); }
    else if i == 1 { assert(s[1] == metric); }
    else if i == 2 { assert(s[4] == metric); }
    else if i == 3 { assert(s[2] == metric); }
    else if i == 4 { assert(s[3] == metric); }
    else if i == 5 { assert(s[5] == metric); }
    else if i == 6 { assert(s[6] == metric); }
    else if i == 7 { assert(s[7] == metric); }
    else if i == 8 { assert(s[8] == metric); }
    else if i == 9 { assert(s[9] == metric); }
    else if i == 10 { assert(s[10] == metric); }
    else if i == 11 { assert(s[11] == metric); }
    else { assert(s[12] == metric); }
}

/// Every identifier of the ascending list is a catalog metric.
pub proof fn lemma_sorted_id_is_known(k: int)
    requires
        0 <= k < sorted_ids().len(),
    ensures
        known_metric(sorted_ids()[k]),
{
    let ids = crate::catalog::catalog_ids();
    let s = sorted_ids();
    if k == 0 { assert(ids[0] == s[k]); }
    else if k == 1 { assert(ids[1] == s[k]); }
    else if k == 2 { assert(ids[3] == s[k]); }
    else if k == 3 { assert(ids[4] == s[k]); }
    else if k == 4 { assert(ids[2] == s[k]); }
    else if k == 5 { assert(ids[5] == s[k]); }
    else if k == 6 { assert(ids[6] == s[k]); }
    else if k == 7 { assert(ids[7] == s[k]); }
    else if k == 8 { assert(ids[8] == s[k]); }
    else if k == 9 { assert(ids[9] == s[k]); }
    else if k == 10 { assert(ids[10] == s[k]); }
    else if k == 11 { assert(ids[11] == s[k]); }
    else { assert(ids[12] == s[k]); }
}

proof fn lemma_select_members(ids: Seq<Seq<char>>, requested: Seq<Seq<char>>, m: Seq<char>)
    ensures
        select_ids(ids, requested).contains(m) <==> (ids.contains(m) && requested.contains(m)),
        select_ids(ids, requested).len() <= ids.len(),
    decreases ids.len(),
{
    if ids.len() > 0 {
        let init = ids.drop_last();
        lemma_select_members(init, requested, m);
        let rest = select_ids(init, requested);
        if ids.contains(m) && requested.contains(m) {
            let j = choose|j: int| 0 <= j < ids.len() && ids[j] == m;
            if j < init.len() {
                assert(init[j] == m);
                let k = choose|k: int| 0 <= k < rest.len() && rest[k] == m;
                if requested.contains(ids.last()) {
                    assert(rest.push(ids.last())[k] == m);
                }
            } else {
                assert(rest.push(ids.last())[rest.len() as int] == m);
            }
        }
        if select_ids(ids, requested).contains(m) {
            let r = select_ids(ids, requested);
            let k = choose|k: int| 0 <= k < r.len() && r[k] == m;
            if k < rest.len() {
                if requested.contains(ids.last()) {
                    assert(r[k] == rest[k]);
                }
                assert(rest.contains(m));
                let j = choose|j: int| 0 <= j < init.len() && init[j] == m;
                assert(ids[j] == m);
            } else {
                assert(ids[ids.len() - 1] == m);
            }
        }
    }
}

/// An accepted metric request selects at least one metric.
pub proof fn lemma_selection_nonempty(requested: Seq<Seq<char>>)
    requires
        metric_selection(requested) is Ok,
    ensures
        metric_selection(requested)->Ok_0.len() >= 1,
{
    assert(known_metric(requested[0]));
    lemma_known_is_sorted_id(requested[0]);
    let j = choose|j: int| 0 <= j < sorted_ids().len() && sorted_ids()[j] == requested[0];
    assert(requested[0] == requested[0]);
    assert(requested.contains(requested[0]));
    lemma_select_contains(sorted_ids(), requested, j);
}

/// The requested metrics without repetitions, in ascending order, when all
/// are in the catalog and at most 16.
pub fn select_metrics(requested: &Vec<String>) -> (r: Result<Vec<String>, MetricsRefusal>)
    ensures
        match r {
            Ok(selected) => metric_selection(names_view(requested@)) == Ok::<Seq<Seq<char>>, MetricsRefusal>(names_view(selected@)),
            Err(refusal) => metric_selection(names_view(requested@)) == Err::<Seq<Seq<char>>, MetricsRefusal>(refusal),
        },
{
    let ghost names = names_view(requested@);
    let n = requested.len();
    if n == 0 {
        return Err(MetricsRefusal::Missing);
    }
    let mut i: usize = 0;
    while i < n
        invariant
            n == requested@.len(),
            names == names_view(requested@),
            i <= n,
            forall|j: int| 0 <= j < i ==> known_metric(#[trigger] names[j]),
        decreases n - i,
    {
        if !is_known_metric(requested[i].as_str()) {
            assert(!known_metric(names[i as int]));
            return Err(MetricsRefusal::Missing);
        }
        i = i + 1;
    }
    let ids = sorted_metric_ids();
    let m = ids.len();
    let mut selected: Vec<String> = Vec::new();
    let mut k: usize = 0;
    while k < m
        invariant
            m == ids@.len(),
            m == sorted_ids().len(),
            k <= m,
            names == names_view(requested@),
            forall|j: int| 0 <= j < ids@.len() ==> #[trigger] ids@[j]@ == sorted_ids()[j],
            names_view(selected@) =~= select_ids(sorted_ids().take(k as int), names),
        decreases m - k,
    {
        assert(sorted_ids().take(k + 1).drop_last() =~= sorted_ids().take(k as int));
        if is_enabled(requested, ids[k]) {
            let ghost before = names_view(selected@);
            selected.push(String::from_str(ids[k]));
            assert(names_view(selected@) =~= before.push(sorted_ids()[k as int]));
        }
        k = k + 1;
    }
    assert(sorted_ids().take(m as int) =~= sorted_ids());
    if selected.len() > 16 {
        return Err(MetricsRefusal::TooMany);
    }
    Ok(selected)
}

fn parse_window_end(p: &QueryParams, now: i64) -> (r: Result<i64, &'static str>)
    ensures
        match r {
            Ok(v) => query_end(*p, now) == Ok::<int, Seq<char>>(v as int),
            Err(m) => query_end(*p, now) == Err::<int, Seq<char>>(m@),
        },
{
    match &p.to {
        Some(t) => match parse_rfc3339_millis(t.as_str()) {
            Some(v) => Ok(v),
            None => Err("invalid RFC 3339 timestamp"),
        },
        None => Ok(now),
    }
}

fn parse_window_start(p: &QueryParams, end: i64, day: DayWindow) -> (r: Result<i128, &'static str>)
    ensures
        match r {
            Ok(v) => query_start(*p, end as int, day) == Ok::<int, Seq<char>>(v as int),
            Err(m) => query_start(*p, end as int, day) == Err::<int, Seq<char>>(m@),
        },
{
    match &p.from {
        Some(f) => match parse_rfc3339_millis(f.as_str()) {
            Some(v) => Ok(v as i128),
            None => Err("invalid RFC 3339 timestamp"),
        },
        None => match &p.date {
            Some(d) => match parse_calendar_date(d.as_str()) {
                None => Err("invalid date"),
                Some(_) => match day.start {
                    None => Err("ambiguous local date"),
                    Some(s) => Ok(s as i128),
                },
            },
            None => match &p.range {
                Some(r) => match parse_duration(r.as_str()) {
                    Err(message) => Err(message),
                    Ok(d) => Ok(end as i128 - d as i128),
                },
                None => Ok(end as i128),
            },
        },
    }
}

fn parse_window_stop(p: &QueryParams, end: i64, day: DayWindow) -> (r: Result<i64, &'static str>)
    ensures
        match r {
            Ok(v) => query_effective_end(*p, end as int, day) == Ok::<int, Seq<char>>(v as int),
            Err(m) => query_effective_end(*p, end as int, day) == Err::<int, Seq<char>>(m@),
        },
{
    match &p.date {
        Some(d) => match parse_calendar_date(d.as_str()) {
            Some(date) => match next_calendar_date(date) {
                None => Err("invalid date"),
                Some(_) => match day.end {
                    None => Err("ambiguous local date"),
                    Some(e) => Ok(e),
                },
            },
            None => Err("invalid date"),
        },
        None => Ok(end),
    }
}

fn choose_selection(p: &QueryParams, metric_count: usize) -> (r: Result<Selection, &'static str>)
    requires
        metric_count >= 1,
        operation_name(*p).len() != 0 ==> aggregation_of(operation_name(*p)) is Some,
    ensures
        forall|metrics: Seq<Seq<char>>| metrics.len() == metric_count ==>
            match r {
                Ok(s) => query_selection(*p, metrics) == Ok::<Selection, Seq<char>>(s),
                Err(m) => query_selection(*p, metrics) == Err::<Selection, Seq<char>>(m@),
            },
{
    let operation = match &p.aggregation {
        Some(a) => if a.as_str().unicode_len() == 0 {
            None
        } else {
            parse_aggregation(a.as_str())
        },
        None => None,
    };
    match operation {
        None => Ok(Selection::Raw { limit: raw_limit(metric_count) }),
        Some(operation) => match &p.interval {
            None => Ok(Selection::Aggregate { operation, bucket: None }),
            Some(iv) => match parse_duration(iv.as_str()) {
                Err(message) => Err(message),
                Ok(b) => Ok(Selection::Aggregate { operation, bucket: Some(b) }),
            },
        },
    }
}

/// Plans a `GET /query` request at time `now` with the given retention
/// period, `day` being the local day window of the requested date (unused
/// without a date).
pub fn plan_query_in(p: &QueryParams, now: i64, retention_days: u32, day: DayWindow) -> (r: Result<QueryPlan, &'static str>)
    requires
        now - retention_ms(retention_days) >= i64::MIN,
    ensures
        outcome_view(r) == query_plan(*p, now, retention_days, day),
{
    let metrics = match select_metrics(&p.metric) {
        Ok(metrics) => metrics,
        Err(MetricsRefusal::Missing) => return Err("one or more valid metric parameters are required"),
        Err(MetricsRefusal::TooMany) => return Err("a query may request at most 16 metrics"),
    };
    let modes = (if p.from.is_some() { 1u8 } else { 0u8 }) + (if p.date.is_some() { 1u8 } else { 0u8 })
        + (if p.range.is_some() { 1u8 } else { 0u8 });
    if modes != 1 {
        return Err("use exactly one of from, date, or range");
    }
    if p.interval.is_some() && p.aggregation.is_none() {
        return Err("interval requires aggregation");
    }
    match &p.aggregation {
        Some(a) => if a.as_str().unicode_len() != 0 && parse_aggregation(a.as_str()).is_none() {
            return Err("unsupported aggregation");
        },
        None => {},
    }
    let end = parse_window_end(p, now)?;
    let start = parse_window_start(p, end, day)?;
    let stop = parse_window_stop(p, end, day)?;
    if start >= stop as i128 {
        return Err("query start must precede query end");
    }
    let floor = now - (retention_days as i64) * 86_400_000;
    let from = if start >= floor as i128 { start as i64 } else { floor };
    proof {
        lemma_selection_nonempty(names_view(p.metric@));
    }
    let selection = choose_selection(p, metrics.len())?;
    Ok(QueryPlan { metrics, from, to: stop, selection })
}

/// What is known of the local day window `day` fetched for the request `p`:
/// without a date, or with text that is no calendar date, both ends are
/// absent. For a date, its local midnight, where it exists and is
/// unambiguous, lies less than a day from its UTC midnight; the same holds
/// of the end against the following date, and the end is absent when there
/// is no following date.
pub open spec fn day_window_fits(p: QueryParams, day: DayWindow) -> bool {
    match p.date {
        None => day.start is None && day.end is None,
        Some(d) => match calendar_date(d@) {
            None => day.start is None && day.end is None,
            Some(date) => {
                &&& (day.start matches Some(m) ==> utc_midnight(date) - day_ms() < m < utc_midnight(date) + day_ms())
                &&& match following_date(date) {
                    None => day.end is None,
                    Some(next) => {
                        &&& utc_midnight(next) == utc_midnight(date) + day_ms()
                        &&& (day.end matches Some(m) ==> utc_midnight(next) - day_ms() < m < utc_midnight(next) + day_ms())
                    },
                }
            },
        },
    }
}

/// The local day window of the date a request names: the local midnights
/// that begin the date and the day after it, each absent where the
/// machine's time zone makes it ambiguous or skips it. Which instants they
/// are depends on that time zone; `day_window_fits` states what holds of
/// every outcome.
pub fn resolve_day(p: &QueryParams) -> (r: DayWindow)
    ensures
        day_window_fits(*p, r),
{
    match &p.date {
        Some(d) => match parse_calendar_date(d.as_str()) {
            Some(date) => {
                let start = local_midnight_millis(date);
                let end = match next_calendar_date(date) {
                    Some(next) => {
                        proof {
                            lemma_following_date_next_day(date);
                        }
                        local_midnight_millis(next)
                    },
                    None => None,
                };
                DayWindow { start, end }
            },
            None => DayWindow { start: None, end: None },
        },
        None => DayWindow { start: None, end: None },
    }
}

/// Plans a `GET /query` request at time `now` with the given retention
/// period, reading a requested date in the machine's local time zone.
/// Without a date the plan is exactly `query_plan`; with one it is
/// `query_plan` for a day window of that date that `day_window_fits`.
pub fn plan_query(p: &QueryParams, now: i64, retention_days: u32) -> (r: Result<QueryPlan, &'static str>)
    requires
        now - retention_ms(retention_days) >= i64::MIN,
    ensures
        p.date is None ==> outcome_view(r) == query_plan(*p, now, retention_days, DayWindow { start: None, end: None }),
        exists|day: DayWindow| day_window_fits(*p, day) && outcome_view(r) == query_plan(*p, now, retention_days, day),
{
    let day = resolve_day(p);
    let r = plan_query_in(p, now, retention_days, day);
    assert(day_window_fits(*p, day) && outcome_view(r) == query_plan(*p, now, retention_days, day));
    r
}

/// The plan of a dashboard history request at time `now` with the given
/// retention period, or the message that refuses it.
pub open spec fn history_plan(q: HistoryQuery, now: i64, retention_days: u32) -> Result<PlanView, Seq<char>> {
    match metric_selection(names_view(q.metrics@)) {
        Err(MetricsRefusal::Missing) => Err("one or more valid metrics are required"@),
        Err(MetricsRefusal::TooMany) => Err("a query may request at most 16 metrics"@),
        Ok(metrics) => match rfc3339_millis(q.from@) {
            None => Err("invalid from timestamp"@),
            Some(from) => match rfc3339_millis(q.to@) {
                None => Err("invalid to timestamp"@),
                Some(to) => if from >= to {
                    Err("from must precede to"@)
                } else {
                    let window = |selection: Selection| PlanView {
                        metrics,
                        from: bounded_start(from as int, now, retention_days),
                        to: to as int,
                        selection,
                    };
                    match q.aggregation {
                        Some(name) => match aggregation_of(name@) {
                            None => Err("unsupported aggregation"@),
                            Some(operation) => match q.interval_seconds {
                                None => Ok(window(Selection::Aggregate { operation, bucket: None })),
                                Some(seconds) => if seconds <= 0 {
                                    Err("interval must be positive"@)
                                } else if seconds * 1000 > i64::MAX {
                                    Err("interval is too large"@)
                                } else {
                                    Ok(window(Selection::Aggregate { operation, bucket: Some((seconds * 1000) as i64) }))
                                },
                            },
                        },
                        None => if q.interval_seconds is Some {
                            Err("interval requires aggregation"@)
                        } else {
                            Ok(window(Selection::Raw { limit: (raw_sample_budget() / (metrics.len() as int)) as i64 }))
                        },
                    }
                },
            },
        },
    }
}

/// Plans a dashboard history request at time `now` with the given retention
/// period; see `history_plan`.
pub fn plan_history(q: &HistoryQuery, now: i64, retention_days: u32) -> (r: Result<QueryPlan, &'static str>)
    requires
        now - retention_ms(retention_days) >= i64::MIN,
    ensures
        outcome_view(r) == history_plan(*q, now, retention_days),
{
    let metrics = match select_metrics(&q.metrics) {
        Ok(metrics) => metrics,
        Err(MetricsRefusal::Missing) => return Err("one or more valid metrics are required"),
        Err(MetricsRefusal::TooMany) => return Err("a query may request at most 16 metrics"),
    };
    proof {
        lemma_selection_nonempty(names_view(q.metrics@));
    }
    let from = match parse_rfc3339_millis(q.from.as_str()) {
        Some(from) => from,
        None => return Err("invalid from timestamp"),
    };
    let to = match parse_rfc3339_millis(q.to.as_str()) {
        Some(to) => to,
        None => return Err("invalid to timestamp"),
    };
    if from >= to {
        return Err("from must precede to");
    }
    let floor = now - (retention_days as i64) * 86_400_000;
    let start = if from >= floor { from } else { floor };
    let selection = match &q.aggregation {
        Some(name) => match parse_aggregation(name.as_str()) {
            None => return Err("unsupported aggregation"),
            Some(operation) => match q.interval_seconds {
                None => Selection::Aggregate { operation, bucket: None },
                Some(seconds) => {
                    if seconds <= 0 {
                        return Err("interval must be positive");
                    }
                    match seconds.checked_mul(1000) {
                        Some(bucket) => Selection::Aggregate { operation, bucket: Some(bucket) },
                        None => return Err("interval is too large"),
                    }
                },
            },
        },
        None => {
            if q.interval_seconds.is_some() {
                return Err("interval requires aggregation");
            }
            Selection::Raw { limit: raw_limit(metrics.len()) }
        },
    };
    Ok(QueryPlan { metrics, from: start, to, selection })
}

/// An accepted metric request selects exactly the requested metrics, each a
/// catalog metric, at least one and at most 16.
pub proof fn law_selection_is_requested_set(requested: Seq<Seq<char>>, m: Seq<char>)
    requires
        metric_selection(requested) is Ok,
    ensures
        metric_selection(requested)->Ok_0.contains(m) <==> requested.contains(m),
        metric_selection(requested)->Ok_0.contains(m) ==> known_metric(m),
        1 <= metric_selection(requested)->Ok_0.len() <= 16,
{
    lemma_selection_nonempty(requested);
    lemma_select_members(sorted_ids(), requested, m);
    if requested.contains(m) {
        let i = choose|i: int| 0 <= i < requested.len() && requested[i] == m;
        assert(known_metric(requested[i]));
        lemma_known_is_sorted_id(m);
    }
    if sorted_ids().contains(m) {
        let k = choose|k: int| 0 <= k < sorted_ids().len() && sorted_ids()[k] == m;
        lemma_sorted_id_is_known(k);
    }
}

proof fn lemma_select_ascending(ids: Seq<Seq<char>>, requested: Seq<Seq<char>>, i: int, j: int)
    requires
        forall|a: int, b: int| 0 <= a < b < ids.len() ==> lex_less(ids[a], ids[b]),
        0 <= i < j < select_ids(ids, requested).len(),
    ensures
        lex_less(select_ids(ids, requested)[i], select_ids(ids, requested)[j]),
    decreases ids.len(),
{
    let init = ids.drop_last();
    let rest = select_ids(init, requested);
    assert forall|a: int, b: int| 0 <= a < b < init.len() implies lex_less(init[a], init[b]) by {
        assert(init[a] == ids[a] && init[b] == ids[b]);
    }
    if j < rest.len() {
        lemma_select_ascending(init, requested, i, j);
        if requested.contains(ids.last()) {
            assert(rest.push(ids.last())[i] == rest[i]);
            assert(rest.push(ids.last())[j] == rest[j]);
        }
    } else {
        assert(rest.push(ids.last())[i] == rest[i]);
        assert(rest.contains(rest[i]));
        lemma_select_members(init, requested, rest[i]);
        let k = choose|k: int| 0 <= k < init.len() && init[k] == rest[i];
        assert(ids[k] == rest[i]);
    }
}

/// An accepted metric request selects its metrics in strictly ascending
/// order, so each at most once, as sorting and removing repetitions does.
pub proof fn law_selection_ascending(requested: Seq<Seq<char>>, i: int, j: int)
    requires
        metric_selection(requested) is Ok,
        0 <= i < j < metric_selection(requested)->Ok_0.len(),
    ensures
        lex_less(metric_selection(requested)->Ok_0[i], metric_selection(requested)->Ok_0[j]),
        metric_selection(requested)->Ok_0[i] != metric_selection(requested)->Ok_0[j],
{
    assert forall|a: int, b: int| 0 <= a < b < sorted_ids().len() implies lex_less(sorted_ids()[a], sorted_ids()[b]) by {
        law_sorted_ids_ascending(a, b);
    }
    lemma_select_ascending(sorted_ids(), requested, i, j);
    lemma_lex_less_irreflexive(metric_selection(requested)->Ok_0[i]);
}

/// A planned `GET /query` never reaches before the retained history, asks
/// for the requested catalog metrics (one to sixteen), has a non-empty window
/// unless retention clipped it, and reads at most 50,000 raw samples in all.
pub proof fn law_query_plan_bounds(p: QueryParams, now: i64, retention_days: u32, day: DayWindow, m: Seq<char>)
    requires
        query_plan(p, now, retention_days, day) is Ok,
    ensures
        ({
            let plan = query_plan(p, now, retention_days, day)->Ok_0;
            &&& plan.from >= now - retention_ms(retention_days)
            &&& (plan.from < plan.to || plan.from == now - retention_ms(retention_days))
            &&& (plan.metrics.contains(m) <==> names_view(p.metric@).contains(m))
            &&& (plan.metrics.contains(m) ==> known_metric(m))
            &&& 1 <= plan.metrics.len() <= 16
            &&& (plan.selection matches Selection::Raw { limit } ==> limit * plan.metrics.len() <= raw_sample_budget())
        }),
{
    let requested = names_view(p.metric@);
    law_selection_is_requested_set(requested, m);
    let metrics = metric_selection(requested)->Ok_0;
    let n = metrics.len() as int;
    assert((raw_sample_budget() / n) * n <= raw_sample_budget()) by (nonlinear_arith)
        requires n >= 1;
}

/// A planned history request never reaches before the retained history and
/// asks for the requested catalog metrics.
pub proof fn law_history_plan_bounds(q: HistoryQuery, now: i64, retention_days: u32, m: Seq<char>)
    requires
        history_plan(q, now, retention_days) is Ok,
    ensures
        ({
            let plan = history_plan(q, now, retention_days)->Ok_0;
            &&& plan.from >= now - retention_ms(retention_days)
            &&& (plan.metrics.contains(m) <==> names_view(q.metrics@).contains(m))
            &&& 1 <= plan.metrics.len() <= 16
            &&& (plan.selection matches Selection::Raw { limit } ==> limit * plan.metrics.len() <= raw_sample_budget())
        }),
{
    let requested = names_view(q.metrics@);
    law_selection_is_requested_set(requested, m);
    let metrics = metric_selection(requested)->Ok_0;
    let n = metrics.len() as int;
    assert((raw_sample_budget() / n) * n <= raw_sample_budget()) by (nonlinear_arith)
        requires n >= 1;
}

/// A query for a calendar date reads that local day: an accepted plan ends
/// at a local midnight within a day of the UTC midnight that ends the date,
/// and starts at a local midnight within a day of the UTC midnight that
/// begins it, unless retention moved the start later.
pub proof fn law_date_window_bounds(p: QueryParams, now: i64, retention_days: u32, day: DayWindow)
    requires
        p.date is Some,
        day_window_fits(p, day),
        query_plan(p, now, retention_days, day) is Ok,
    ensures
        calendar_date(p.date->0@) is Some,
        ({
            let date = calendar_date(p.date->0@)->0;
            let plan = query_plan(p, now, retention_days, day)->Ok_0;
            &&& utc_midnight(date) < plan.to < utc_midnight(date) + 2 * day_ms()
            &&& (plan.from == now - retention_ms(retention_days)
                || utc_midnight(date) - day_ms() < plan.from < utc_midnight(date) + day_ms())
        }),
{
}

/// Outside date mode an accepted `GET /query` plan ends at `to` when it is
/// given (and at `now` otherwise), and starts at `from`, or `to` minus the
/// range, moved up to the start of the retained history where it lies
/// before it.
pub proof fn law_query_window_follows_parameters(p: QueryParams, now: i64, retention_days: u32, day: DayWindow)
    requires
        p.date is None,
        query_plan(p, now, retention_days, day) is Ok,
    ensures
        ({
            let plan = query_plan(p, now, retention_days, day)->Ok_0;
            let floor = now - retention_ms(retention_days);
            &&& p.to is None ==> plan.to == now
            &&& p.to is Some ==> rfc3339_millis(p.to->0@) is Some && plan.to == rfc3339_millis(p.to->0@)->0
            &&& p.from is Some ==> rfc3339_millis(p.from->0@) is Some && plan.from == (if rfc3339_millis(p.from->0@)->0 >= floor {
                rfc3339_millis(p.from->0@)->0 as int
            } else {
                floor
            })
            &&& p.range is Some ==> duration_ms(p.range->0@) is Ok && plan.from == (if plan.to - duration_ms(p.range->0@)->Ok_0 >= floor {
                plan.to - duration_ms(p.range->0@)->Ok_0
            } else {
                floor
            })
        }),
{
}

/// What an accepted `GET /query` request was: exactly one of `from`,
/// `date` and `range`; an interval only with an aggregation; and it reads
/// raw samples without an aggregation (or with an empty one), else the named
/// aggregation, per bucket of the interval's length when one is given.
pub proof fn law_query_plan_selection(p: QueryParams, now: i64, retention_days: u32, day: DayWindow)
    requires
        query_plan(p, now, retention_days, day) is Ok,
    ensures
        ({
            let plan = query_plan(p, now, retention_days, day)->Ok_0;
            &&& (p.from is Some) as int + (p.date is Some) as int + (p.range is Some) as int == 1
            &&& p.interval is Some ==> p.aggregation is Some
            &&& (p.aggregation is None || p.aggregation->0@.len() == 0) ==> plan.selection == (Selection::Raw {
                limit: (50_000int / (plan.metrics.len() as int)) as i64,
            })
            &&& (p.aggregation is Some && p.aggregation->0@.len() != 0) ==> (
                plan.selection matches Selection::Aggregate { operation, bucket }
                && aggregation_of(p.aggregation->0@) == Some(operation)
                && (p.interval is None ==> bucket is None)
                && (p.interval is Some ==> duration_ms(p.interval->0@) is Ok && bucket is Some
                    && bucket->0 == duration_ms(p.interval->0@)->Ok_0))
        }),
{
}

/// A request that gives none or several of `from`, `date` and `range`, or
/// an interval without an aggregation, is refused.
pub proof fn law_query_refusals(p: QueryParams, now: i64, retention_days: u32, day: DayWindow)
    ensures
        (p.from is Some) as int + (p.date is Some) as int + (p.range is Some) as int != 1
            ==> query_plan(p, now, retention_days, day) is Err,
        (p.interval is Some && p.aggregation is None) ==> query_plan(p, now, retention_days, day) is Err,
        metric_selection(names_view(p.metric@)) is Err ==> query_plan(p, now, retention_days, day) is Err,
{
}

/// An accepted history plan spans `from` (moved up to the retained history)
/// to `to`; without an aggregation it reads raw samples, at most 50,000 in
/// all, and with one it aggregates with that operation, per bucket of
/// `interval_seconds` seconds when given and over the whole window when not.
pub proof fn law_history_plan_follows_request(q: HistoryQuery, now: i64, retention_days: u32)
    requires
        history_plan(q, now, retention_days) is Ok,
    ensures
        ({
            let plan = history_plan(q, now, retention_days)->Ok_0;
            let floor = now - retention_ms(retention_days);
            let from = rfc3339_millis(q.from@)->0 as int;
            &&& rfc3339_millis(q.from@) is Some && rfc3339_millis(q.to@) is Some
            &&& plan.to == rfc3339_millis(q.to@)->0
            &&& plan.from == (if from >= floor { from } else { floor })
            &&& q.aggregation is None ==> q.interval_seconds is None
                && plan.selection == (Selection::Raw { limit: (50_000int / (plan.metrics.len() as int)) as i64 })
            &&& q.aggregation is Some ==> (plan.selection matches Selection::Aggregate { operation, bucket }
                && aggregation_of(q.aggregation->0@) == Some(operation)
                && (q.interval_seconds is None ==> bucket is None)
                && (q.interval_seconds is Some ==> q.interval_seconds->0 > 0
                    && bucket is Some && bucket->0 == q.interval_seconds->0 * 1000))
        }),
{
}

/// The window of a plan as RFC 3339 text, for the response.
pub fn window_texts(plan: &QueryPlan) -> (r: (Option<String>, Option<String>))
    ensures
        r.0 is Some <==> rfc3339_text(plan.from) is Some,
        r.0 matches Some(t) ==> rfc3339_text(plan.from) == Some(t@),
        r.1 is Some <==> rfc3339_text(plan.to) is Some,
        r.1 matches Some(t) ==> rfc3339_text(plan.to) == Some(t@),
{
    (format_rfc3339(plan.from), format_rfc3339(plan.to))
}

} // verus!
