//! What the API and the settings view report of the latest collection.
use vstd::prelude::*;
use crate::calendar::{rfc3339_text, format_rfc3339};
use crate::sample::{MetricSample, SampleView, samples_view};
use crate::settings::{AppSettings, entries_view, enabled_in, names_view};

verus! {

/// The samples whose metric is enabled in `entries`, in order.
pub open spec fn enabled_only(samples: Seq<SampleView>, entries: Seq<(Seq<char>, bool)>) -> Seq<SampleView>
    decreases samples.len(),
{
    if samples.len() == 0 {
        Seq::empty()
    } else {
        let rest = enabled_only(samples.drop_last(), entries);
        if enabled_in(entries, samples.last().metric) { rest.push(samples.last()) } else { rest }
    }
}

/// The latest timestamp among the samples, if there are any.
pub open spec fn newest(samples: Seq<SampleView>) -> Option<int>
    decreases samples.len(),
{
    if samples.len() == 0 {
        None
    } else {
        match newest(samples.drop_last()) {
            None => Some(samples.last().timestamp),
            Some(m) => Some(if samples.last().timestamp > m { samples.last().timestamp } else { m }),
        }
    }
}

/// The RFC 3339 text of the newest timestamp, if any and representable.
pub open spec fn newest_text(samples: Seq<SampleView>) -> Option<Seq<char>> {
    match newest(samples) {
        None => None,
        Some(t) => rfc3339_text(t as i64),
    }
}

/// The answer to `GET /latest`: the collection time and the samples.
pub struct LatestResponse {
    pub timestamp: Option<String>,
    pub metrics: Vec<MetricSample>,
}

/// What the settings view shows of the service.
pub struct ServiceStatus {
    pub database_ready: bool,
    pub http_port: u16,
    pub allowed_interfaces: Vec<String>,
    pub latest_collection: Option<String>,
}

/// Text of an optional string.
pub open spec fn text_view(o: Option<String>) -> Option<Seq<char>> {
    match o {
        Some(s) => Some(s@),
        None => None,
    }
}

/// The latest samples of the metrics that are enabled in `settings`.
pub fn enabled_samples(latest: &Vec<MetricSample>, settings: &AppSettings) -> (r: Vec<MetricSample>)
    ensures
        samples_view(r@) == enabled_only(samples_view(latest@), entries_view(settings.metrics@)),
{
    let ghost view = samples_view(latest@);
    let ghost entries = entries_view(settings.metrics@);
    let mut out: Vec<MetricSample> = Vec::new();
    let n = latest.len();
    let mut i: usize = 0;
    while i < n
        invariant
            n == latest@.len(),
            view == samples_view(latest@),
            entries == entries_view(settings.metrics@),
            i <= n,
            samples_view(out@) == enabled_only(view.take(i as int), entries),
        decreases n - i,
    {
        assert(view.take(i + 1).drop_last() =~= view.take(i as int));
        if settings.metric_enabled(latest[i].metric.as_str()) {
            let ghost before = samples_view(out@);
            out.push(latest[i].duplicate());
            assert(samples_view(out@) =~= before.push(view[i as int]));
        }
        i = i + 1;
    }
    assert(view.take(n as int) =~= view);
    out
}

/// The latest timestamp among the samples.
pub fn latest_timestamp(samples: &Vec<MetricSample>) -> (r: Option<i64>)
    ensures
        match r {
            None => newest(samples_view(samples@)) is None,
            Some(t) => newest(samples_view(samples@)) == Some(t as int),
        },
{
    let ghost view = samples_view(samples@);
    let mut best: Option<i64> = None;
    let n = samples.len();
    let mut i: usize = 0;
    while i < n
        invariant
            n == samples@.len(),
            view == samples_view(samples@),
            i <= n,
            match best {
                None => newest(view.take(i as int)) is None,
                Some(t) => newest(view.take(i as int)) == Some(t as int),
            },
        decreases n - i,
    {
        assert(view.take(i + 1).drop_last() =~= view.take(i as int));
        let t = samples[i].timestamp;
        best = match best {
            None => Some(t),
            Some(m) => Some(if t > m { t } else { m }),
        };
        i = i + 1;
    }
    assert(view.take(n as int) =~= view);
    best
}

fn newest_rfc3339(samples: &Vec<MetricSample>) -> (r: Option<String>)
    ensures
        text_view(r) == newest_text(samples_view(samples@)),
{
    match latest_timestamp(samples) {
        None => None,
        Some(t) => format_rfc3339(t),
    }
}

/// The answer to `GET /latest`: the enabled metrics' latest samples, and the
/// newest of their timestamps as RFC 3339 text.
pub fn latest_response(latest: &Vec<MetricSample>, settings: &AppSettings) -> (r: LatestResponse)
    ensures
        samples_view(r.metrics@) == enabled_only(samples_view(latest@), entries_view(settings.metrics@)),
        text_view(r.timestamp) == newest_text(samples_view(r.metrics@)),
{
    let metrics = enabled_samples(latest, settings);
    let timestamp = newest_rfc3339(&metrics);
    LatestResponse { timestamp, metrics }
}

fn copy_names(names: &Vec<String>) -> (r: Vec<String>)
    ensures
        names_view(r@) == names_view(names@),
{
    let mut out: Vec<String> = Vec::new();
    let n = names.len();
    let mut i: usize = 0;
    while i < n
        invariant
            n == names@.len(),
            i <= n,
            names_view(out@) =~= names_view(names@).take(i as int),
        decreases n - i,
    {
        let ghost before = names_view(out@);
        out.push(names[i].clone());
        assert(names_view(out@) =~= before.push(names@[i as int]@));
        i = i + 1;
        assert(names_view(out@) =~= names_view(names@).take(i as int));
    }
    assert(names_view(names@).take(n as int) =~= names_view(names@));
    out
}

/// The service status: the database is ready, the configured port and
/// allowed interfaces, and the time of the latest collection.
pub fn service_status(settings: &AppSettings, latest: &Vec<MetricSample>) -> (r: ServiceStatus)
    ensures
        r.database_ready,
        r.http_port == settings.http.port,
        names_view(r.allowed_interfaces@) == names_view(settings.http.allowed_interfaces@),
        text_view(r.latest_collection) == newest_text(samples_view(latest@)),
{
    ServiceStatus {
        database_ready: true,
        http_port: settings.http.port,
        allowed_interfaces: copy_names(&settings.http.allowed_interfaces),
        latest_collection: newest_rfc3339(latest),
    }
}

/// Every sample that `GET /latest` reports belongs to an enabled metric.
pub proof fn law_latest_reports_only_enabled(samples: Seq<SampleView>, entries: Seq<(Seq<char>, bool)>, i: int)
    requires
        0 <= i < enabled_only(samples, entries).len(),
    ensures
        enabled_in(entries, enabled_only(samples, entries)[i].metric),
    decreases samples.len(),
{
    let rest = enabled_only(samples.drop_last(), entries);
    if i < rest.len() {
        law_latest_reports_only_enabled(samples.drop_last(), entries, i);
        if enabled_in(entries, samples.last().metric) {
            assert(rest.push(samples.last())[i] == rest[i]);
        }
    }
}

/// `GET /latest` keeps every latest sample whose metric is enabled, whatever
/// its labels, and drops the others: the answer is the latest samples
/// filtered by their metric's setting, in their order.
pub proof fn law_latest_keeps_enabled_samples(samples: Seq<SampleView>, entries: Seq<(Seq<char>, bool)>)
    ensures
        enabled_only(samples, entries) == samples.filter(|s: SampleView| enabled_in(entries, s.metric)),
        forall|i: int| 0 <= i < samples.len() && enabled_in(entries, samples[i].metric)
            ==> #[trigger] enabled_only(samples, entries).contains(samples[i]),
    decreases samples.len(),
{
    let pred = |s: SampleView| enabled_in(entries, s.metric);
    reveal(Seq::filter);
    if samples.len() > 0 {
        law_latest_keeps_enabled_samples(samples.drop_last(), entries);
    }
    assert(enabled_only(samples, entries) == samples.filter(pred));
    assert forall|i: int| 0 <= i < samples.len() && enabled_in(entries, samples[i].metric)
        implies #[trigger] enabled_only(samples, entries).contains(samples[i]) by {
        samples.lemma_filter_contains(pred, i);
    }
}

/// The reported collection time is the newest sample's timestamp: no sample
/// is newer, and some sample has it.
pub proof fn law_newest_is_maximum(samples: Seq<SampleView>)
    requires
        samples.len() > 0,
    ensures
        newest(samples) is Some,
        forall|i: int| 0 <= i < samples.len() ==> samples[i].timestamp <= newest(samples)->0,
        exists|i: int| 0 <= i < samples.len() && samples[i].timestamp == newest(samples)->0,
    decreases samples.len(),
{
    let init = samples.drop_last();
    if init.len() > 0 {
        law_newest_is_maximum(init);
        let k = choose|k: int| 0 <= k < init.len() && init[k].timestamp == newest(init)->0;
        assert forall|i: int| 0 <= i < samples.len() implies samples[i].timestamp <= newest(samples)->0 by {
            if i < init.len() {
                assert(init[i] == samples[i]);
            }
        }
        if samples.last().timestamp > newest(init)->0 {
            assert(samples[samples.len() - 1].timestamp == newest(samples)->0);
        } else {
            assert(samples[k] == init[k]);
        }
    } else {
        assert(samples[0] == samples.last());
    }
}

} // verus!
