//! The catalog of metrics that Computer State can collect and export.
use vstd::prelude::*;
use crate::text::{str_eq, starts_with};

verus! {

/// Identifier, human-readable label and unit of every metric, in catalog order.
pub open spec fn catalog() -> Seq<(Seq<char>, Seq<char>, Seq<char>)> {
    seq![
        ("cpu.core.usage"@, "CPU utilization per core"@, "percent"@),
        ("cpu.total.usage"@, "Total CPU utilization"@, "percent"@),
        ("gpu.usage"@, "GPU utilization"@, "percent"@),
        ("gpu.memory.total"@, "Total GPU memory"@, "bytes"@),
        ("gpu.memory.usage"@, "GPU memory utilization"@, "bytes"@),
        ("memory.total"@, "Total system memory"@, "bytes"@),
        ("memory.usage"@, "System memory utilization"@, "bytes"@),
        ("network.bytes_received"@, "Network bytes received"@, "bytes"@),
        ("network.bytes_sent"@, "Network bytes sent"@, "bytes"@),
        ("process.count"@, "Running processes"@, "processes"@),
        ("storage.total"@, "Total storage capacity"@, "bytes"@),
        ("storage.usage"@, "Storage utilization"@, "bytes"@),
        ("uptime"@, "System uptime"@, "seconds"@),
    ]
}

/// The metric identifiers, in catalog order.
pub open spec fn catalog_ids() -> Seq<Seq<char>> {
    catalog().map_values(|e: (Seq<char>, Seq<char>, Seq<char>)| e.0)
}

/// The metric identifiers in ascending byte order.
pub open spec fn sorted_ids() -> Seq<Seq<char>> {
    seq![
        "cpu.core.usage"@,
        "cpu.total.usage"@,
        "gpu.memory.total"@,
        "gpu.memory.usage"@,
        "gpu.usage"@,
        "memory.total"@,
        "memory.usage"@,
        "network.bytes_received"@,
        "network.bytes_sent"@,
        "process.count"@,
        "storage.total"@,
        "storage.usage"@,
        "uptime"@,
    ]
}

/// Whether `metric` names a metric of the catalog.
pub open spec fn known_metric(metric: Seq<char>) -> bool {
    catalog_ids().contains(metric)
}

/// Whether `metric` is reported by the GPU collector (its name starts with `gpu.`).
pub open spec fn is_gpu_metric(metric: Seq<char>) -> bool {
    "gpu."@.len() <= metric.len() && metric.subrange(0, "gpu."@.len() as int) == "gpu."@
}

/// Why a GPU metric is unavailable.
pub open spec fn gpu_unavailable_reason() -> Seq<char> {
    "GPU telemetry is unavailable for this hardware or driver"@
}

/// The catalog entries: identifier, label and unit of every metric.
pub fn metric_catalog() -> (r: Vec<(&'static str, &'static str, &'static str)>)
    ensures
        r@.len() == catalog().len(),
        forall|i: int|
            0 <= i < r@.len() ==> (#[trigger] r@[i].0@, r@[i].1@, r@[i].2@) == catalog()[i],
{
    let r = vec![
        ("cpu.core.usage", "CPU utilization per core", "percent"),
        ("cpu.total.usage", "Total CPU utilization", "percent"),
        ("gpu.usage", "GPU utilization", "percent"),
        ("gpu.memory.total", "Total GPU memory", "bytes"),
        ("gpu.memory.usage", "GPU memory utilization", "bytes"),
        ("memory.total", "Total system memory", "bytes"),
        ("memory.usage", "System memory utilization", "bytes"),
        ("network.bytes_received", "Network bytes received", "bytes"),
        ("network.bytes_sent", "Network bytes sent", "bytes"),
        ("process.count", "Running processes", "processes"),
        ("storage.total", "Total storage capacity", "bytes"),
        ("storage.usage", "Storage utilization", "bytes"),
        ("uptime", "System uptime", "seconds"),
    ];
    r
}


/// The metric identifiers in ascending byte order.
pub fn sorted_metric_ids() -> (r: Vec<&'static str>)
    ensures
        r@.len() == sorted_ids().len(),
        forall|i: int| 0 <= i < r@.len() ==> #[trigger] r@[i]@ == sorted_ids()[i],
{
    let r = vec![
        "cpu.core.usage",
        "cpu.total.usage",
        "gpu.memory.total",
        "gpu.memory.usage",
        "gpu.usage",
        "memory.total",
        "memory.usage",
        "network.bytes_received",
        "network.bytes_sent",
        "process.count",
        "storage.total",
        "storage.usage",
        "uptime",
    ];
    r
}

/// Whether `metric` names a metric of the catalog.
pub fn is_known_metric(metric: &str) -> (r: bool)
    ensures
        r == known_metric(metric@),
{
    let entries = metric_catalog();
    let n = entries.len();
    let mut i: usize = 0;
    while i < n
        invariant
            n == entries@.len(),
            n == catalog().len(),
            i <= n,
            forall|j: int| 0 <= j < entries@.len() ==> (#[trigger] entries@[j].0@, entries@[j].1@, entries@[j].2@) == catalog()[j],
            forall|j: int| 0 <= j < i ==> catalog()[j].0 != metric@,
        decreases n - i,
    {
        if str_eq(entries[i].0, metric) {
            assert(catalog_ids()[i as int] == metric@);
            return true;
        }
        i = i + 1;
    }
    assert forall|j: int| 0 <= j < catalog_ids().len() implies catalog_ids()[j] != metric@ by {
        assert(catalog_ids()[j] == catalog()[j].0);
    }
    false
}

/// A metric as the settings view and the dashboard present it.
#[derive(Debug, Clone, Copy)]
pub struct MetricDescriptor {
    pub id: &'static str,
    pub label: &'static str,
    pub unit: &'static str,
    pub available: bool,
    pub reason: Option<&'static str>,
}

/// Whether the descriptor `d` describes catalog entry `entry` correctly, given
/// whether GPU telemetry is available.
pub open spec fn describes(
    d: MetricDescriptor,
    entry: (Seq<char>, Seq<char>, Seq<char>),
    gpu_available: bool,
) -> bool {
    &&& d.id@ == entry.0
    &&& d.label@ == entry.1
    &&& d.unit@ == entry.2
    &&& d.available == (!is_gpu_metric(entry.0) || gpu_available)
    &&& match d.reason {
        Some(reason) => is_gpu_metric(entry.0) && !gpu_available && reason@ == gpu_unavailable_reason(),
        None => !is_gpu_metric(entry.0) || gpu_available,
    }
}

/// Describes every metric of the catalog, in catalog order. GPU metrics are
/// marked unavailable, with a reason, when GPU telemetry is unavailable.
pub fn descriptors(gpu_available: bool) -> (r: Vec<MetricDescriptor>)
    ensures
        r@.len() == catalog().len(),
        forall|i: int| 0 <= i < r@.len() ==> describes(#[trigger] r@[i], catalog()[i], gpu_available),
{
    let entries = metric_catalog();
    let n = entries.len();
    let mut out: Vec<MetricDescriptor> = Vec::new();
    let mut i: usize = 0;
    while i < n
        invariant
            n == entries@.len(),
            n == catalog().len(),
            i <= n,
            out@.len() == i,
            forall|j: int| 0 <= j < entries@.len() ==> (#[trigger] entries@[j].0@, entries@[j].1@, entries@[j].2@) == catalog()[j],
            forall|j: int| 0 <= j < i ==> describes(#[trigger] out@[j], catalog()[j], gpu_available),
        decreases n - i,
    {
        let (id, label, unit) = entries[i];
        let gpu = starts_with(id, "gpu.");
        let reason = if gpu && !gpu_available {
            Some("GPU telemetry is unavailable for this hardware or driver")
        } else {
            None
        };
        let d = MetricDescriptor { id, label, unit, available: !gpu || gpu_available, reason };
        assert(describes(d, catalog()[i as int], gpu_available));
        out.push(d);
        i = i + 1;
    }
    out
}


/// Lexicographic order of character sequences, which for UTF-8 text is the
/// byte order that `String` compares by.
pub open spec fn lex_less(a: Seq<char>, b: Seq<char>) -> bool
    decreases a.len(),
{
    if a.len() == 0 {
        b.len() > 0
    } else if b.len() == 0 {
        false
    } else if a[0] != b[0] {
        a[0] < b[0]
    } else {
        lex_less(a.drop_first(), b.drop_first())
    }
}

/// `lex_less` is transitive.
pub proof fn lemma_lex_less_transitive(a: Seq<char>, b: Seq<char>, c: Seq<char>)
    requires
        lex_less(a, b),
        lex_less(b, c),
    ensures
        lex_less(a, c),
    decreases a.len(),
{
    if a.len() > 0 && b.len() > 0 && c.len() > 0 && a[0] == b[0] && b[0] == c[0] {
        lemma_lex_less_transitive(a.drop_first(), b.drop_first(), c.drop_first());
    }
}

/// No sequence sorts before itself.
pub proof fn lemma_lex_less_irreflexive(a: Seq<char>)
    ensures
        !lex_less(a, a),
    decreases a.len(),
{
    if a.len() > 0 {
        lemma_lex_less_irreflexive(a.drop_first());
    }
}

/// Of two different sequences, one sorts before the other.
pub proof fn lemma_lex_less_total(a: Seq<char>, b: Seq<char>)
    requires
        a != b,
    ensures
        lex_less(a, b) || lex_less(b, a),
    decreases a.len(),
{
    if a.len() > 0 && b.len() > 0 && a[0] == b[0] {
        if a.drop_first() == b.drop_first() {
            assert(a =~= seq![a[0]] + a.drop_first());
            assert(b =~= seq![b[0]] + b.drop_first());
        }
        lemma_lex_less_total(a.drop_first(), b.drop_first());
    } else if a.len() == 0 && b.len() == 0 {
        assert(a =~= b);
    }
}

proof fn lemma_sorted_ids_adjacent(i: int)
    requires
        0 <= i < sorted_ids().len() - 1,
    ensures
        lex_less(sorted_ids()[i], sorted_ids()[i + 1]),
{
    reveal_strlit("cpu.core.usage");
    reveal_strlit("cpu.total.usage");
    reveal_strlit("gpu.memory.total");
    reveal_strlit("gpu.memory.usage");
    reveal_strlit("gpu.usage");
    reveal_strlit("memory.total");
    reveal_strlit("memory.usage");
    reveal_strlit("network.bytes_received");
    reveal_strlit("network.bytes_sent");
    reveal_strlit("process.count");
    reveal_strlit("storage.total");
    reveal_strlit("storage.usage");
    reveal_strlit("uptime");
    reveal_with_fuel(lex_less, 16);
    let s = sorted_ids();
    assert(lex_less(s[i], s[i + 1]));
}

/// The ascending list of identifiers is strictly ascending: every identifier
/// sorts before every later one, so none repeats.
pub proof fn law_sorted_ids_ascending(i: int, j: int)
    requires
        0 <= i < j < sorted_ids().len(),
    ensures
        lex_less(sorted_ids()[i], sorted_ids()[j]),
    decreases j - i,
{
    lemma_sorted_ids_adjacent(j - 1);
    if i < j - 1 {
        law_sorted_ids_ascending(i, j - 1);
        lemma_lex_less_transitive(sorted_ids()[i], sorted_ids()[j - 1], sorted_ids()[j]);
    }
}

} // verus!
