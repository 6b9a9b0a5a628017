//! Assembling one collection run's samples from the readings of the system.
//!
//! The readings are taken by the platform layer; this module decides which
//! readings a run needs and which samples they become, in which order and
//! with which labels.
use vstd::prelude::*;
use vstd::string::*;
use crate::sample::{MetricSample, SampleValue, SampleView, samples_view, labels_view, keys_ascending, labels_in_order};
use crate::settings::names_view;
use crate::text::{str_eq, decimal, decimal_text};
use crate::catalog::lex_less;

verus! {

broadcast use vstd::string::group_string_axioms;

/// Traffic counters of one network interface.
pub struct NetworkReading {
    pub interface: String,
    pub received: u64,
    pub transmitted: u64,
}

/// Capacity of one mounted volume, in bytes.
pub struct DiskReading {
    pub volume: String,
    pub total: u64,
    pub available: u64,
}

/// What one GPU reported. `name`, `utilization` (percent) and `memory`
/// (total and used bytes) are absent when the device did not report them.
pub struct GpuReading {
    pub index: u32,
    pub name: Option<String>,
    pub utilization: Option<u32>,
    pub memory: Option<(u64, u64)>,
}

/// The readings of one collection run. CPU usages are bit patterns of
/// IEEE-754 doubles; the other quantities are whole numbers.
pub struct SystemReadings {
    pub cpu_total: u64,
    pub cpu_cores: Vec<u64>,
    pub memory_total: u64,
    pub memory_used: u64,
    pub process_count: u64,
    pub uptime: u64,
    pub networks: Vec<NetworkReading>,
    pub disks: Vec<DiskReading>,
    pub gpus: Vec<GpuReading>,
}

/// Which optional readings a collection run needs.
pub struct ReadingPlan {
    pub network: bool,
    pub storage: bool,
    pub gpu_usage: bool,
    pub gpu_memory: bool,
}

/// Whether `name` is among the enabled metric names.
pub open spec fn on(enabled: Seq<Seq<char>>, name: Seq<char>) -> bool {
    enabled.contains(name)
}

/// A sample as plain values.
pub open spec fn sv(metric: Seq<char>, timestamp: i64, value: SampleValue, labels: Seq<(Seq<char>, Seq<char>)>) -> SampleView {
    SampleView { metric, timestamp: timestamp as int, value, labels }
}

/// `s` alone if `cond` holds, else nothing.
pub open spec fn when(cond: bool, s: SampleView) -> Seq<SampleView> {
    if cond { seq![s] } else { Seq::empty() }
}

/// One usage sample per CPU core, labelled with the core's index.
pub open spec fn core_samples(cores: Seq<u64>, timestamp: i64) -> Seq<SampleView>
    decreases cores.len(),
{
    if cores.len() == 0 {
        Seq::empty()
    } else {
        core_samples(cores.drop_last(), timestamp).push(sv(
            "cpu.core.usage"@,
            timestamp,
            SampleValue::Bits(cores.last()),
            seq![("core"@, decimal((cores.len() - 1) as nat))],
        ))
    }
}

/// The traffic samples of one interface.
pub open spec fn network_entry(n: NetworkReading, received: bool, sent: bool, timestamp: i64) -> Seq<SampleView> {
    let labels = seq![("interface"@, n.interface@)];
    when(received, sv("network.bytes_received"@, timestamp, SampleValue::Whole(n.received), labels))
        + when(sent, sv("network.bytes_sent"@, timestamp, SampleValue::Whole(n.transmitted), labels))
}

/// The traffic samples of every interface, interface by interface.
pub open spec fn network_samples(nets: Seq<NetworkReading>, received: bool, sent: bool, timestamp: i64) -> Seq<SampleView>
    decreases nets.len(),
{
    if nets.len() == 0 {
        Seq::empty()
    } else {
        network_samples(nets.drop_last(), received, sent, timestamp) + network_entry(nets.last(), received, sent, timestamp)
    }
}

/// The capacity samples of one volume; usage is total minus available,
/// and zero when more is available than the total.
pub open spec fn disk_entry(d: DiskReading, total: bool, usage: bool, timestamp: i64) -> Seq<SampleView> {
    let labels = seq![("volume"@, d.volume@)];
    let used = if d.total >= d.available { (d.total - d.available) as u64 } else { 0u64 };
    when(total, sv("storage.total"@, timestamp, SampleValue::Whole(d.total), labels))
        + when(usage, sv("storage.usage"@, timestamp, SampleValue::Whole(used), labels))
}

/// The capacity samples of every volume, volume by volume.
pub open spec fn disk_samples(disks: Seq<DiskReading>, total: bool, usage: bool, timestamp: i64) -> Seq<SampleView>
    decreases disks.len(),
{
    if disks.len() == 0 {
        Seq::empty()
    } else {
        disk_samples(disks.drop_last(), total, usage, timestamp) + disk_entry(disks.last(), total, usage, timestamp)
    }
}

/// The labels of a GPU: its index, and its name when known.
pub open spec fn gpu_labels(g: GpuReading) -> Seq<(Seq<char>, Seq<char>)> {
    match g.name {
        Some(name) => seq![("gpu"@, decimal(g.index as nat)), ("name"@, name@)],
        None => seq![("gpu"@, decimal(g.index as nat))],
    }
}

/// The samples of one GPU.
pub open spec fn gpu_entry(g: GpuReading, usage: bool, mem_total: bool, mem_used: bool, timestamp: i64) -> Seq<SampleView> {
    let labels = gpu_labels(g);
    let u = match g.utilization {
        Some(u) => when(usage, sv("gpu.usage"@, timestamp, SampleValue::Whole(u as u64), labels)),
        None => Seq::empty(),
    };
    let m = match g.memory {
        Some((t, used)) => when(mem_total, sv("gpu.memory.total"@, timestamp, SampleValue::Whole(t), labels))
            + when(mem_used, sv("gpu.memory.usage"@, timestamp, SampleValue::Whole(used), labels)),
        None => Seq::empty(),
    };
    u + m
}

/// The samples of every GPU, device by device.
pub open spec fn gpu_samples(gpus: Seq<GpuReading>, usage: bool, mem_total: bool, mem_used: bool, timestamp: i64) -> Seq<SampleView>
    decreases gpus.len(),
{
    if gpus.len() == 0 {
        Seq::empty()
    } else {
        gpu_samples(gpus.drop_last(), usage, mem_total, mem_used, timestamp) + gpu_entry(gpus.last(), usage, mem_total, mem_used, timestamp)
    }
}

/// The CPU samples of a collection run.
pub open spec fn cpu_part(enabled: Seq<Seq<char>>, timestamp: i64, r: SystemReadings) -> Seq<SampleView> {
    when(on(enabled, "cpu.total.usage"@), sv("cpu.total.usage"@, timestamp, SampleValue::Bits(r.cpu_total), Seq::empty()))
        + (if on(enabled, "cpu.core.usage"@) { core_samples(r.cpu_cores@, timestamp) } else { Seq::empty() })
}

/// The memory, process and uptime samples of a collection run.
pub open spec fn host_part(enabled: Seq<Seq<char>>, timestamp: i64, r: SystemReadings) -> Seq<SampleView> {
    when(on(enabled, "memory.total"@), sv("memory.total"@, timestamp, SampleValue::Whole(r.memory_total), Seq::empty()))
        + when(on(enabled, "memory.usage"@), sv("memory.usage"@, timestamp, SampleValue::Whole(r.memory_used), Seq::empty()))
        + when(on(enabled, "process.count"@), sv("process.count"@, timestamp, SampleValue::Whole(r.process_count), Seq::empty()))
        + when(on(enabled, "uptime"@), sv("uptime"@, timestamp, SampleValue::Whole(r.uptime), Seq::empty()))
}

/// The network, storage and GPU samples of a collection run.
pub open spec fn device_part(enabled: Seq<Seq<char>>, timestamp: i64, r: SystemReadings) -> Seq<SampleView> {
    network_samples(r.networks@, on(enabled, "network.bytes_received"@), on(enabled, "network.bytes_sent"@), timestamp)
        + disk_samples(r.disks@, on(enabled, "storage.total"@), on(enabled, "storage.usage"@), timestamp)
        + gpu_samples(r.gpus@, on(enabled, "gpu.usage"@), on(enabled, "gpu.memory.total"@), on(enabled, "gpu.memory.usage"@), timestamp)
}

/// The samples of a collection run: the enabled metrics, in the order CPU,
/// memory, processes, uptime, network, storage, GPU.
pub open spec fn collected(enabled: Seq<Seq<char>>, timestamp: i64, r: SystemReadings) -> Seq<SampleView> {
    cpu_part(enabled, timestamp, r) + host_part(enabled, timestamp, r) + device_part(enabled, timestamp, r)
}

/// Whether `name` is among the enabled metric names.
pub fn is_enabled(enabled: &Vec<String>, name: &str) -> (r: bool)
    ensures
        r == on(names_view(enabled@), name@),
{
    let n = enabled.len();
    let mut i: usize = 0;
    while i < n
        invariant
            n == enabled@.len(),
            i <= n,
            forall|j: int| 0 <= j < i ==> enabled@[j]@ != name@,
        decreases n - i,
    {
        if str_eq(enabled[i].as_str(), name) {
            assert(names_view(enabled@)[i as int] == name@);
            return true;
        }
        i = i + 1;
    }
    assert forall|j: int| 0 <= j < names_view(enabled@).len() implies names_view(enabled@)[j] != name@ by {
        assert(names_view(enabled@)[j] == enabled@[j]@);
    }
    false
}

/// Which optional readings the enabled metrics need: network counters,
/// volume capacities, GPU utilization and GPU memory.
pub fn reading_plan(enabled: &Vec<String>) -> (r: ReadingPlan)
    ensures
        r.network == (on(names_view(enabled@), "network.bytes_received"@) || on(names_view(enabled@), "network.bytes_sent"@)),
        r.storage == (on(names_view(enabled@), "storage.total"@) || on(names_view(enabled@), "storage.usage"@)),
        r.gpu_usage == on(names_view(enabled@), "gpu.usage"@),
        r.gpu_memory == (on(names_view(enabled@), "gpu.memory.total"@) || on(names_view(enabled@), "gpu.memory.usage"@)),
{
    ReadingPlan {
        network: is_enabled(enabled, "network.bytes_received") || is_enabled(enabled, "network.bytes_sent"),
        storage: is_enabled(enabled, "storage.total") || is_enabled(enabled, "storage.usage"),
        gpu_usage: is_enabled(enabled, "gpu.usage"),
        gpu_memory: is_enabled(enabled, "gpu.memory.total") || is_enabled(enabled, "gpu.memory.usage"),
    }
}

fn push_sample(out: &mut Vec<MetricSample>, metric: &str, timestamp: i64, value: SampleValue, labels: Vec<(String, String)>)
    ensures
        samples_view(final(out)@) == samples_view(old(out)@).push(sv(metric@, timestamp, value, labels_view(labels@))),
{
    let ghost before = samples_view(out@);
    out.push(MetricSample { metric: String::from_str(metric), timestamp, value, labels });
    assert(samples_view(out@) =~= before.push(sv(metric@, timestamp, value, labels_view(labels@))));
}

fn one_label(key: &str, value: String) -> (r: Vec<(String, String)>)
    ensures
        labels_view(r@) == seq![(key@, value@)],
{
    let mut labels: Vec<(String, String)> = Vec::new();
    labels.push((String::from_str(key), value));
    assert(labels_view(labels@) =~= seq![(key@, value@)]);
    labels
}

fn push_cores(out: &mut Vec<MetricSample>, cores: &Vec<u64>, timestamp: i64)
    ensures
        samples_view(final(out)@) == samples_view(old(out)@) + core_samples(cores@, timestamp),
{
    let ghost start = samples_view(out@);
    let n = cores.len();
    let mut i: usize = 0;
    while i < n
        invariant
            n == cores@.len(),
            i <= n,
            samples_view(out@) == start + core_samples(cores@.take(i as int), timestamp),
        decreases n - i,
    {
        let labels = one_label("core", decimal_text(i as u64));
        push_sample(out, "cpu.core.usage", timestamp, SampleValue::Bits(cores[i]), labels);
        assert(cores@.take(i + 1).drop_last() =~= cores@.take(i as int));
        i = i + 1;
    }
    assert(cores@.take(n as int) =~= cores@);
}

fn push_networks(out: &mut Vec<MetricSample>, nets: &Vec<NetworkReading>, received: bool, sent: bool, timestamp: i64)
    ensures
        samples_view(final(out)@) == samples_view(old(out)@) + network_samples(nets@, received, sent, timestamp),
{
    let ghost start = samples_view(out@);
    let n = nets.len();
    let mut i: usize = 0;
    while i < n
        invariant
            n == nets@.len(),
            i <= n,
            samples_view(out@) == start + network_samples(nets@.take(i as int), received, sent, timestamp),
        decreases n - i,
    {
        let ghost before = samples_view(out@);
        let net = &nets[i];
        if received {
            let labels = one_label("interface", net.interface.clone());
            push_sample(out, "network.bytes_received", timestamp, SampleValue::Whole(net.received), labels);
        }
        if sent {
            let labels = one_label("interface", net.interface.clone());
            push_sample(out, "network.bytes_sent", timestamp, SampleValue::Whole(net.transmitted), labels);
        }
        assert(samples_view(out@) =~= before + network_entry(nets@[i as int], received, sent, timestamp));
        assert(nets@.take(i + 1).drop_last() =~= nets@.take(i as int));
        i = i + 1;
    }
    assert(nets@.take(n as int) =~= nets@);
}

fn push_disks(out: &mut Vec<MetricSample>, disks: &Vec<DiskReading>, total: bool, usage: bool, timestamp: i64)
    ensures
        samples_view(final(out)@) == samples_view(old(out)@) + disk_samples(disks@, total, usage, timestamp),
{
    let ghost start = samples_view(out@);
    let n = disks.len();
    let mut i: usize = 0;
    while i < n
        invariant
            n == disks@.len(),
            i <= n,
            samples_view(out@) == start + disk_samples(disks@.take(i as int), total, usage, timestamp),
        decreases n - i,
    {
        let ghost before = samples_view(out@);
        let disk = &disks[i];
        if total {
            let labels = one_label("volume", disk.volume.clone());
            push_sample(out, "storage.total", timestamp, SampleValue::Whole(disk.total), labels);
        }
        if usage {
            let labels = one_label("volume", disk.volume.clone());
            push_sample(out, "storage.usage", timestamp, SampleValue::Whole(disk.total.saturating_sub(disk.available)), labels);
        }
        assert(samples_view(out@) =~= before + disk_entry(disks@[i as int], total, usage, timestamp));
        assert(disks@.take(i + 1).drop_last() =~= disks@.take(i as int));
        i = i + 1;
    }
    assert(disks@.take(n as int) =~= disks@);
}

fn make_gpu_labels(g: &GpuReading) -> (r: Vec<(String, String)>)
    ensures
        labels_view(r@) == gpu_labels(*g),
{
    let mut labels: Vec<(String, String)> = Vec::new();
    labels.push((String::from_str("gpu"), decimal_text(g.index as u64)));
    match &g.name {
        Some(name) => {
            labels.push((String::from_str("name"), name.clone()));
        },
        None => {},
    }
    assert(labels_view(labels@) =~= gpu_labels(*g));
    labels
}

fn push_gpus(out: &mut Vec<MetricSample>, gpus: &Vec<GpuReading>, usage: bool, mem_total: bool, mem_used: bool, timestamp: i64)
    ensures
        samples_view(final(out)@) == samples_view(old(out)@) + gpu_samples(gpus@, usage, mem_total, mem_used, timestamp),
{
    let ghost start = samples_view(out@);
    let n = gpus.len();
    let mut i: usize = 0;
    while i < n
        invariant
            n == gpus@.len(),
            i <= n,
            samples_view(out@) == start + gpu_samples(gpus@.take(i as int), usage, mem_total, mem_used, timestamp),
        decreases n - i,
    {
        let ghost before = samples_view(out@);
        let g = &gpus[i];
        if usage {
            match g.utilization {
                Some(u) => {
                    push_sample(out, "gpu.usage", timestamp, SampleValue::Whole(u as u64), make_gpu_labels(g));
                },
                None => {},
            }
        }
        let ghost mid = samples_view(out@);
        if mem_total || mem_used {
            match g.memory {
                Some((t, used)) => {
                    if mem_total {
                        push_sample(out, "gpu.memory.total", timestamp, SampleValue::Whole(t), make_gpu_labels(g));
                    }
                    if mem_used {
                        push_sample(out, "gpu.memory.usage", timestamp, SampleValue::Whole(used), make_gpu_labels(g));
                    }
                },
                None => {},
            }
        }
        assert(samples_view(out@) =~= before + gpu_entry(gpus@[i as int], usage, mem_total, mem_used, timestamp));
        assert(gpus@.take(i + 1).drop_last() =~= gpus@.take(i as int));
        i = i + 1;
    }
    assert(gpus@.take(n as int) =~= gpus@);
}

fn push_cpu(out: &mut Vec<MetricSample>, enabled: &Vec<String>, timestamp: i64, readings: &SystemReadings)
    ensures
        samples_view(final(out)@) == samples_view(old(out)@) + cpu_part(names_view(enabled@), timestamp, *readings),
{
    let ghost en = names_view(enabled@);
    let ghost s0 = samples_view(out@);
    proof {
        assert(labels_view(Seq::<(String, String)>::empty()) =~= Seq::<(Seq<char>, Seq<char>)>::empty());
    }
    if is_enabled(enabled, "cpu.total.usage") {
        push_sample(out, "cpu.total.usage", timestamp, SampleValue::Bits(readings.cpu_total), Vec::new());
    }
    let ghost s1 = samples_view(out@);
    assert(s1 =~= s0 + when(on(en, "cpu.total.usage"@), sv("cpu.total.usage"@, timestamp, SampleValue::Bits(readings.cpu_total), Seq::empty())));
    if is_enabled(enabled, "cpu.core.usage") {
        push_cores(out, &readings.cpu_cores, timestamp);
    }
    assert(samples_view(out@) =~= s0 + cpu_part(en, timestamp, *readings));
}

fn push_host(out: &mut Vec<MetricSample>, enabled: &Vec<String>, timestamp: i64, readings: &SystemReadings)
    ensures
        samples_view(final(out)@) == samples_view(old(out)@) + host_part(names_view(enabled@), timestamp, *readings),
{
    let ghost en = names_view(enabled@);
    let ghost s0 = samples_view(out@);
    proof {
        assert(labels_view(Seq::<(String, String)>::empty()) =~= Seq::<(Seq<char>, Seq<char>)>::empty());
    }
    if is_enabled(enabled, "memory.total") {
        push_sample(out, "memory.total", timestamp, SampleValue::Whole(readings.memory_total), Vec::new());
    }
    if is_enabled(enabled, "memory.usage") {
        push_sample(out, "memory.usage", timestamp, SampleValue::Whole(readings.memory_used), Vec::new());
    }
    if is_enabled(enabled, "process.count") {
        push_sample(out, "process.count", timestamp, SampleValue::Whole(readings.process_count), Vec::new());
    }
    if is_enabled(enabled, "uptime") {
        push_sample(out, "uptime", timestamp, SampleValue::Whole(readings.uptime), Vec::new());
    }
    assert(samples_view(out@) =~= s0 + host_part(en, timestamp, *readings));
}

fn push_devices(out: &mut Vec<MetricSample>, enabled: &Vec<String>, timestamp: i64, readings: &SystemReadings)
    ensures
        samples_view(final(out)@) == samples_view(old(out)@) + device_part(names_view(enabled@), timestamp, *readings),
{
    let ghost en = names_view(enabled@);
    let ghost s0 = samples_view(out@);
    let received = is_enabled(enabled, "network.bytes_received");
    let sent = is_enabled(enabled, "network.bytes_sent");
    if received || sent {
        push_networks(out, &readings.networks, received, sent, timestamp);
    } else {
        proof {
            lemma_no_network_samples(readings.networks@, timestamp);
        }
    }
    let ghost s1 = samples_view(out@);
    let total = is_enabled(enabled, "storage.total");
    let usage = is_enabled(enabled, "storage.usage");
    if total || usage {
        push_disks(out, &readings.disks, total, usage, timestamp);
    } else {
        proof {
            lemma_no_disk_samples(readings.disks@, timestamp);
        }
    }
    let ghost s2 = samples_view(out@);
    let gpu_usage = is_enabled(enabled, "gpu.usage");
    let gpu_total = is_enabled(enabled, "gpu.memory.total");
    let gpu_used = is_enabled(enabled, "gpu.memory.usage");
    push_gpus(out, &readings.gpus, gpu_usage, gpu_total, gpu_used, timestamp);
    assert(samples_view(out@) =~= s0 + device_part(en, timestamp, *readings));
}

/// The samples of one collection run at `timestamp`, given the enabled
/// metric names and the readings.
pub fn build_samples(enabled: &Vec<String>, timestamp: i64, readings: &SystemReadings) -> (r: Vec<MetricSample>)
    ensures
        samples_view(r@) == collected(names_view(enabled@), timestamp, *readings),
        labels_in_order(samples_view(r@)),
{
    let ghost en = names_view(enabled@);
    proof {
        law_collected_labels_in_order(en, timestamp, *readings);
    }
    let mut out: Vec<MetricSample> = Vec::new();
    push_cpu(&mut out, enabled, timestamp, readings);
    push_host(&mut out, enabled, timestamp, readings);
    push_devices(&mut out, enabled, timestamp, readings);
    assert(samples_view(out@) =~= collected(en, timestamp, *readings));
    out
}

proof fn lemma_cores_metric(cores: Seq<u64>, timestamp: i64, i: int)
    requires
        0 <= i < core_samples(cores, timestamp).len(),
    ensures
        core_samples(cores, timestamp)[i].metric == "cpu.core.usage"@,
    decreases cores.len(),
{
    let rest = core_samples(cores.drop_last(), timestamp);
    if i < rest.len() {
        lemma_cores_metric(cores.drop_last(), timestamp, i);
    }
}

proof fn lemma_networks_metric(nets: Seq<NetworkReading>, received: bool, sent: bool, timestamp: i64, i: int)
    requires
        0 <= i < network_samples(nets, received, sent, timestamp).len(),
    ensures
        ({
            let m = network_samples(nets, received, sent, timestamp)[i].metric;
            (received && m == "network.bytes_received"@) || (sent && m == "network.bytes_sent"@)
        }),
    decreases nets.len(),
{
    let rest = network_samples(nets.drop_last(), received, sent, timestamp);
    if i < rest.len() {
        lemma_networks_metric(nets.drop_last(), received, sent, timestamp, i);
    }
}

proof fn lemma_disks_metric(disks: Seq<DiskReading>, total: bool, usage: bool, timestamp: i64, i: int)
    requires
        0 <= i < disk_samples(disks, total, usage, timestamp).len(),
    ensures
        ({
            let m = disk_samples(disks, total, usage, timestamp)[i].metric;
            (total && m == "storage.total"@) || (usage && m == "storage.usage"@)
        }),
    decreases disks.len(),
{
    let rest = disk_samples(disks.drop_last(), total, usage, timestamp);
    if i < rest.len() {
        lemma_disks_metric(disks.drop_last(), total, usage, timestamp, i);
    }
}

proof fn lemma_gpus_metric(gpus: Seq<GpuReading>, usage: bool, mem_total: bool, mem_used: bool, timestamp: i64, i: int)
    requires
        0 <= i < gpu_samples(gpus, usage, mem_total, mem_used, timestamp).len(),
    ensures
        ({
            let m = gpu_samples(gpus, usage, mem_total, mem_used, timestamp)[i].metric;
            (usage && m == "gpu.usage"@) || (mem_total && m == "gpu.memory.total"@) || (mem_used && m == "gpu.memory.usage"@)
        }),
    decreases gpus.len(),
{
    let rest = gpu_samples(gpus.drop_last(), usage, mem_total, mem_used, timestamp);
    if i < rest.len() {
        lemma_gpus_metric(gpus.drop_last(), usage, mem_total, mem_used, timestamp, i);
    }
}

/// A collection run samples only enabled metrics: nothing is reported for a
/// metric that is switched off.
pub proof fn law_collects_only_enabled(enabled: Seq<Seq<char>>, timestamp: i64, r: SystemReadings, i: int)
    requires
        0 <= i < collected(enabled, timestamp, r).len(),
    ensures
        on(enabled, collected(enabled, timestamp, r)[i].metric),
{
    let a = cpu_part(enabled, timestamp, r);
    let b = host_part(enabled, timestamp, r);
    let c = device_part(enabled, timestamp, r);
    let s = collected(enabled, timestamp, r);
    if i < a.len() {
        assert(s[i] == a[i]);
        let t = when(on(enabled, "cpu.total.usage"@), sv("cpu.total.usage"@, timestamp, SampleValue::Bits(r.cpu_total), Seq::empty()));
        if i >= t.len() {
            lemma_cores_metric(r.cpu_cores@, timestamp, i - t.len());
        }
    } else if i < a.len() + b.len() {
        assert(s[i] == b[i - a.len()]);
    } else {
        let j = i - a.len() - b.len();
        assert(s[i] == c[j]);
        let net = network_samples(r.networks@, on(enabled, "network.bytes_received"@), on(enabled, "network.bytes_sent"@), timestamp);
        let disk = disk_samples(r.disks@, on(enabled, "storage.total"@), on(enabled, "storage.usage"@), timestamp);
        if j < net.len() {
            lemma_networks_metric(r.networks@, on(enabled, "network.bytes_received"@), on(enabled, "network.bytes_sent"@), timestamp, j);
        } else if j < net.len() + disk.len() {
            lemma_disks_metric(r.disks@, on(enabled, "storage.total"@), on(enabled, "storage.usage"@), timestamp, j - net.len());
        } else {
            lemma_gpus_metric(r.gpus@, on(enabled, "gpu.usage"@), on(enabled, "gpu.memory.total"@), on(enabled, "gpu.memory.usage"@), timestamp, j - net.len() - disk.len());
        }
    }
}

proof fn lemma_in_order_concat(a: Seq<SampleView>, b: Seq<SampleView>)
    requires
        labels_in_order(a),
        labels_in_order(b),
    ensures
        labels_in_order(a + b),
{
    assert forall|i: int| 0 <= i < (a + b).len() implies keys_ascending(#[trigger] (a + b)[i].labels) by {
        if i < a.len() {
            assert((a + b)[i] == a[i]);
        } else {
            assert((a + b)[i] == b[i - a.len()]);
        }
    }
}

proof fn lemma_when_in_order(cond: bool, s: SampleView)
    requires
        keys_ascending(s.labels),
    ensures
        labels_in_order(when(cond, s)),
{
    if cond {
        assert(when(cond, s)[0] == s);
    }
}

proof fn lemma_gpu_labels_ascending(g: GpuReading)
    ensures
        keys_ascending(gpu_labels(g)),
{
    reveal_strlit("gpu");
    reveal_strlit("name");
    let l = gpu_labels(g);
    if l.len() == 2 {
        assert(l[0].0 == "gpu"@ && l[1].0 == "name"@);
        assert("gpu"@[0] == 'g' && "name"@[0] == 'n');
        assert(lex_less(l[0].0, l[1].0));
    }
}

proof fn lemma_cores_in_order(cores: Seq<u64>, timestamp: i64)
    ensures
        labels_in_order(core_samples(cores, timestamp)),
    decreases cores.len(),
{
    if cores.len() > 0 {
        let rest = core_samples(cores.drop_last(), timestamp);
        lemma_cores_in_order(cores.drop_last(), timestamp);
        let all = core_samples(cores, timestamp);
        assert forall|i: int| 0 <= i < all.len() implies keys_ascending(#[trigger] all[i].labels) by {
            if i < rest.len() {
                assert(all[i] == rest[i]);
            }
        }
    }
}

proof fn lemma_networks_in_order(nets: Seq<NetworkReading>, received: bool, sent: bool, timestamp: i64)
    ensures
        labels_in_order(network_samples(nets, received, sent, timestamp)),
    decreases nets.len(),
{
    if nets.len() > 0 {
        lemma_networks_in_order(nets.drop_last(), received, sent, timestamp);
        let n = nets.last();
        let labels = seq![("interface"@, n.interface@)];
        lemma_when_in_order(received, sv("network.bytes_received"@, timestamp, SampleValue::Whole(n.received), labels));
        lemma_when_in_order(sent, sv("network.bytes_sent"@, timestamp, SampleValue::Whole(n.transmitted), labels));
        lemma_in_order_concat(
            when(received, sv("network.bytes_received"@, timestamp, SampleValue::Whole(n.received), labels)),
            when(sent, sv("network.bytes_sent"@, timestamp, SampleValue::Whole(n.transmitted), labels)),
        );
        lemma_in_order_concat(network_samples(nets.drop_last(), received, sent, timestamp), network_entry(n, received, sent, timestamp));
    }
}

proof fn lemma_disks_in_order(disks: Seq<DiskReading>, total: bool, usage: bool, timestamp: i64)
    ensures
        labels_in_order(disk_samples(disks, total, usage, timestamp)),
    decreases disks.len(),
{
    if disks.len() > 0 {
        lemma_disks_in_order(disks.drop_last(), total, usage, timestamp);
        let d = disks.last();
        let labels = seq![("volume"@, d.volume@)];
        let used = if d.total >= d.available { (d.total - d.available) as u64 } else { 0u64 };
        lemma_when_in_order(total, sv("storage.total"@, timestamp, SampleValue::Whole(d.total), labels));
        lemma_when_in_order(usage, sv("storage.usage"@, timestamp, SampleValue::Whole(used), labels));
        lemma_in_order_concat(
            when(total, sv("storage.total"@, timestamp, SampleValue::Whole(d.total), labels)),
            when(usage, sv("storage.usage"@, timestamp, SampleValue::Whole(used), labels)),
        );
        lemma_in_order_concat(disk_samples(disks.drop_last(), total, usage, timestamp), disk_entry(d, total, usage, timestamp));
    }
}

proof fn lemma_gpus_in_order(gpus: Seq<GpuReading>, usage: bool, mem_total: bool, mem_used: bool, timestamp: i64)
    ensures
        labels_in_order(gpu_samples(gpus, usage, mem_total, mem_used, timestamp)),
    decreases gpus.len(),
{
    if gpus.len() > 0 {
        lemma_gpus_in_order(gpus.drop_last(), usage, mem_total, mem_used, timestamp);
        let g = gpus.last();
        let labels = gpu_labels(g);
        lemma_gpu_labels_ascending(g);
        let u = match g.utilization {
            Some(u) => when(usage, sv("gpu.usage"@, timestamp, SampleValue::Whole(u as u64), labels)),
            None => Seq::empty(),
        };
        let m = match g.memory {
            Some((t, used)) => when(mem_total, sv("gpu.memory.total"@, timestamp, SampleValue::Whole(t), labels))
                + when(mem_used, sv("gpu.memory.usage"@, timestamp, SampleValue::Whole(used), labels)),
            None => Seq::empty(),
        };
        match g.utilization {
            Some(v) => lemma_when_in_order(usage, sv("gpu.usage"@, timestamp, SampleValue::Whole(v as u64), labels)),
            None => {},
        }
        match g.memory {
            Some((t, used)) => {
                lemma_when_in_order(mem_total, sv("gpu.memory.total"@, timestamp, SampleValue::Whole(t), labels));
                lemma_when_in_order(mem_used, sv("gpu.memory.usage"@, timestamp, SampleValue::Whole(used), labels));
                lemma_in_order_concat(
                    when(mem_total, sv("gpu.memory.total"@, timestamp, SampleValue::Whole(t), labels)),
                    when(mem_used, sv("gpu.memory.usage"@, timestamp, SampleValue::Whole(used), labels)),
                );
            },
            None => {},
        }
        lemma_in_order_concat(u, m);
        assert(gpu_entry(g, usage, mem_total, mem_used, timestamp) == u + m);
        lemma_in_order_concat(gpu_samples(gpus.drop_last(), usage, mem_total, mem_used, timestamp), u + m);
    }
}

proof fn lemma_cpu_part_in_order(enabled: Seq<Seq<char>>, timestamp: i64, r: SystemReadings)
    ensures
        labels_in_order(cpu_part(enabled, timestamp, r)),
{
    let total = sv("cpu.total.usage"@, timestamp, SampleValue::Bits(r.cpu_total), Seq::empty());
    lemma_when_in_order(on(enabled, "cpu.total.usage"@), total);
    lemma_cores_in_order(r.cpu_cores@, timestamp);
    let cores = if on(enabled, "cpu.core.usage"@) { core_samples(r.cpu_cores@, timestamp) } else { Seq::empty() };
    lemma_in_order_concat(when(on(enabled, "cpu.total.usage"@), total), cores);
}

proof fn lemma_host_part_in_order(enabled: Seq<Seq<char>>, timestamp: i64, r: SystemReadings)
    ensures
        labels_in_order(host_part(enabled, timestamp, r)),
{
    let s1 = sv("memory.total"@, timestamp, SampleValue::Whole(r.memory_total), Seq::empty());
    let s2 = sv("memory.usage"@, timestamp, SampleValue::Whole(r.memory_used), Seq::empty());
    let s3 = sv("process.count"@, timestamp, SampleValue::Whole(r.process_count), Seq::empty());
    let s4 = sv("uptime"@, timestamp, SampleValue::Whole(r.uptime), Seq::empty());
    let w1 = when(on(enabled, "memory.total"@), s1);
    let w2 = when(on(enabled, "memory.usage"@), s2);
    let w3 = when(on(enabled, "process.count"@), s3);
    let w4 = when(on(enabled, "uptime"@), s4);
    lemma_when_in_order(on(enabled, "memory.total"@), s1);
    lemma_when_in_order(on(enabled, "memory.usage"@), s2);
    lemma_when_in_order(on(enabled, "process.count"@), s3);
    lemma_when_in_order(on(enabled, "uptime"@), s4);
    lemma_in_order_concat(w1, w2);
    lemma_in_order_concat(w1 + w2, w3);
    lemma_in_order_concat(w1 + w2 + w3, w4);
}

proof fn lemma_device_part_in_order(enabled: Seq<Seq<char>>, timestamp: i64, r: SystemReadings)
    ensures
        labels_in_order(device_part(enabled, timestamp, r)),
{
    let net = network_samples(r.networks@, on(enabled, "network.bytes_received"@), on(enabled, "network.bytes_sent"@), timestamp);
    let disk = disk_samples(r.disks@, on(enabled, "storage.total"@), on(enabled, "storage.usage"@), timestamp);
    let gpu = gpu_samples(r.gpus@, on(enabled, "gpu.usage"@), on(enabled, "gpu.memory.total"@), on(enabled, "gpu.memory.usage"@), timestamp);
    lemma_networks_in_order(r.networks@, on(enabled, "network.bytes_received"@), on(enabled, "network.bytes_sent"@), timestamp);
    lemma_disks_in_order(r.disks@, on(enabled, "storage.total"@), on(enabled, "storage.usage"@), timestamp);
    lemma_gpus_in_order(r.gpus@, on(enabled, "gpu.usage"@), on(enabled, "gpu.memory.total"@), on(enabled, "gpu.memory.usage"@), timestamp);
    lemma_in_order_concat(net, disk);
    lemma_in_order_concat(net + disk, gpu);
}

/// Every sample of a collection run carries its label keys in strictly
/// ascending order, each key once, as a map keyed by label name gives them.
pub proof fn law_collected_labels_in_order(enabled: Seq<Seq<char>>, timestamp: i64, r: SystemReadings)
    ensures
        labels_in_order(collected(enabled, timestamp, r)),
{
    let a = cpu_part(enabled, timestamp, r);
    let b = host_part(enabled, timestamp, r);
    let c = device_part(enabled, timestamp, r);
    lemma_cpu_part_in_order(enabled, timestamp, r);
    lemma_host_part_in_order(enabled, timestamp, r);
    lemma_device_part_in_order(enabled, timestamp, r);
    lemma_in_order_concat(a, b);
    lemma_in_order_concat(a + b, c);
}

/// Whether the sample `x` carries the reading of its metric, for the
/// metrics that have one reading per run.
pub open spec fn carries_reading(x: SampleView, r: SystemReadings) -> bool {
    &&& x.metric == "cpu.total.usage"@ ==> x.value == SampleValue::Bits(r.cpu_total)
    &&& x.metric == "memory.total"@ ==> x.value == SampleValue::Whole(r.memory_total)
    &&& x.metric == "memory.usage"@ ==> x.value == SampleValue::Whole(r.memory_used)
    &&& x.metric == "process.count"@ ==> x.value == SampleValue::Whole(r.process_count)
    &&& x.metric == "uptime"@ ==> x.value == SampleValue::Whole(r.uptime)
}

spec fn all_carry_readings(s: Seq<SampleView>, r: SystemReadings) -> bool {
    forall|j: int| 0 <= j < s.len() ==> carries_reading(#[trigger] s[j], r)
}

proof fn lemma_carry_concat(a: Seq<SampleView>, b: Seq<SampleView>, r: SystemReadings)
    requires
        all_carry_readings(a, r),
        all_carry_readings(b, r),
    ensures
        all_carry_readings(a + b, r),
{
    assert forall|j: int| 0 <= j < (a + b).len() implies carries_reading(#[trigger] (a + b)[j], r) by {
        if j < a.len() {
            assert((a + b)[j] == a[j]);
        } else {
            assert((a + b)[j] == b[j - a.len()]);
        }
    }
}

proof fn lemma_carry_when(cond: bool, x: SampleView, r: SystemReadings)
    requires
        carries_reading(x, r),
    ensures
        all_carry_readings(when(cond, x), r),
{
    if cond {
        assert(when(cond, x)[0] == x);
    }
}

proof fn lemma_metric_names_differ()
    ensures
        "cpu.total.usage"@ != "memory.total"@,
        "cpu.total.usage"@ != "memory.usage"@,
        "cpu.total.usage"@ != "process.count"@,
        "cpu.total.usage"@ != "uptime"@,
        "memory.total"@ != "memory.usage"@,
        "memory.total"@ != "process.count"@,
        "memory.total"@ != "uptime"@,
        "memory.usage"@ != "process.count"@,
        "memory.usage"@ != "uptime"@,
        "process.count"@ != "uptime"@,
        "cpu.core.usage"@ != "cpu.total.usage"@,
        "cpu.core.usage"@ != "memory.total"@,
        "cpu.core.usage"@ != "memory.usage"@,
        "cpu.core.usage"@ != "process.count"@,
        "cpu.core.usage"@ != "uptime"@,
        "network.bytes_received"@ != "cpu.total.usage"@,
        "network.bytes_received"@ != "memory.total"@,
        "network.bytes_received"@ != "memory.usage"@,
        "network.bytes_received"@ != "process.count"@,
        "network.bytes_received"@ != "uptime"@,
        "network.bytes_sent"@ != "cpu.total.usage"@,
        "network.bytes_sent"@ != "memory.total"@,
        "network.bytes_sent"@ != "memory.usage"@,
        "network.bytes_sent"@ != "process.count"@,
        "network.bytes_sent"@ != "uptime"@,
        "storage.total"@ != "cpu.total.usage"@,
        "storage.total"@ != "memory.total"@,
        "storage.total"@ != "memory.usage"@,
        "storage.total"@ != "process.count"@,
        "storage.total"@ != "uptime"@,
        "storage.usage"@ != "cpu.total.usage"@,
        "storage.usage"@ != "memory.total"@,
        "storage.usage"@ != "memory.usage"@,
        "storage.usage"@ != "process.count"@,
        "storage.usage"@ != "uptime"@,
        "gpu.usage"@ != "cpu.total.usage"@,
        "gpu.usage"@ != "memory.total"@,
        "gpu.usage"@ != "memory.usage"@,
        "gpu.usage"@ != "process.count"@,
        "gpu.usage"@ != "uptime"@,
        "gpu.memory.total"@ != "cpu.total.usage"@,
        "gpu.memory.total"@ != "memory.total"@,
        "gpu.memory.total"@ != "memory.usage"@,
        "gpu.memory.total"@ != "process.count"@,
        "gpu.memory.total"@ != "uptime"@,
        "gpu.memory.usage"@ != "cpu.total.usage"@,
        "gpu.memory.usage"@ != "memory.total"@,
        "gpu.memory.usage"@ != "memory.usage"@,
        "gpu.memory.usage"@ != "process.count"@,
        "gpu.memory.usage"@ != "uptime"@,
{
    reveal_strlit("cpu.total.usage");
    reveal_strlit("memory.total");
    reveal_strlit("memory.usage");
    reveal_strlit("process.count");
    reveal_strlit("uptime");
    reveal_strlit("cpu.core.usage");
    reveal_strlit("network.bytes_received");
    reveal_strlit("network.bytes_sent");
    reveal_strlit("storage.total");
    reveal_strlit("storage.usage");
    reveal_strlit("gpu.usage");
    reveal_strlit("gpu.memory.total");
    reveal_strlit("gpu.memory.usage");
    assert("cpu.total.usage"@.len() != "memory.total"@.len());
    assert("cpu.total.usage"@.len() != "memory.usage"@.len());
    assert("cpu.total.usage"@.len() != "process.count"@.len());
    assert("cpu.total.usage"@.len() != "uptime"@.len());
    assert("memory.total"@[7] != "memory.usage"@[7]);
    assert("memory.total"@.len() != "process.count"@.len());
    assert("memory.total"@.len() != "uptime"@.len());
    assert("memory.usage"@.len() != "process.count"@.len());
    assert("memory.usage"@.len() != "uptime"@.len());
    assert("process.count"@.len() != "uptime"@.len());
    assert("cpu.core.usage"@.len() != "cpu.total.usage"@.len());
    assert("cpu.core.usage"@.len() != "memory.total"@.len());
    assert("cpu.core.usage"@.len() != "memory.usage"@.len());
    assert("cpu.core.usage"@.len() != "process.count"@.len());
    assert("cpu.core.usage"@.len() != "uptime"@.len());
    assert("network.bytes_received"@.len() != "cpu.total.usage"@.len());
    assert("network.bytes_received"@.len() != "memory.total"@.len());
    assert("network.bytes_received"@.len() != "memory.usage"@.len());
    assert("network.bytes_received"@.len() != "process.count"@.len());
    assert("network.bytes_received"@.len() != "uptime"@.len());
    assert("network.bytes_sent"@.len() != "cpu.total.usage"@.len());
    assert("network.bytes_sent"@.len() != "memory.total"@.len());
    assert("network.bytes_sent"@.len() != "memory.usage"@.len());
    assert("network.bytes_sent"@.len() != "process.count"@.len());
    assert("network.bytes_sent"@.len() != "uptime"@.len());
    assert("storage.total"@.len() != "cpu.total.usage"@.len());
    assert("storage.total"@.len() != "memory.total"@.len());
    assert("storage.total"@.len() != "memory.usage"@.len());
    assert("storage.total"@[0] != "process.count"@[0]);
    assert("storage.total"@.len() != "uptime"@.len());
    assert("storage.usage"@.len() != "cpu.total.usage"@.len());
    assert("storage.usage"@.len() != "memory.total"@.len());
    assert("storage.usage"@.len() != "memory.usage"@.len());
    assert("storage.usage"@[0] != "process.count"@[0]);
    assert("storage.usage"@.len() != "uptime"@.len());
    assert("gpu.usage"@.len() != "cpu.total.usage"@.len());
    assert("gpu.usage"@.len() != "memory.total"@.len());
    assert("gpu.usage"@.len() != "memory.usage"@.len());
    assert("gpu.usage"@.len() != "process.count"@.len());
    assert("gpu.usage"@.len() != "uptime"@.len());
    assert("gpu.memory.total"@.len() != "cpu.total.usage"@.len());
    assert("gpu.memory.total"@.len() != "memory.total"@.len());
    assert("gpu.memory.total"@.len() != "memory.usage"@.len());
    assert("gpu.memory.total"@.len() != "process.count"@.len());
    assert("gpu.memory.total"@.len() != "uptime"@.len());
    assert("gpu.memory.usage"@.len() != "cpu.total.usage"@.len());
    assert("gpu.memory.usage"@.len() != "memory.total"@.len());
    assert("gpu.memory.usage"@.len() != "memory.usage"@.len());
    assert("gpu.memory.usage"@.len() != "process.count"@.len());
    assert("gpu.memory.usage"@.len() != "uptime"@.len());
}

proof fn lemma_cpu_part_carries(enabled: Seq<Seq<char>>, timestamp: i64, r: SystemReadings)
    ensures
        all_carry_readings(cpu_part(enabled, timestamp, r), r),
{
    lemma_metric_names_differ();
    let total = sv("cpu.total.usage"@, timestamp, SampleValue::Bits(r.cpu_total), Seq::empty());
    lemma_carry_when(on(enabled, "cpu.total.usage"@), total, r);
    let cores = if on(enabled, "cpu.core.usage"@) { core_samples(r.cpu_cores@, timestamp) } else { Seq::empty() };
    assert(all_carry_readings(cores, r)) by {
        assert forall|j: int| 0 <= j < cores.len() implies carries_reading(#[trigger] cores[j], r) by {
            lemma_cores_metric(r.cpu_cores@, timestamp, j);
        }
    }
    lemma_carry_concat(when(on(enabled, "cpu.total.usage"@), total), cores, r);
}

proof fn lemma_host_part_carries(enabled: Seq<Seq<char>>, timestamp: i64, r: SystemReadings)
    ensures
        all_carry_readings(host_part(enabled, timestamp, r), r),
{
    lemma_metric_names_differ();
    let s1 = sv("memory.total"@, timestamp, SampleValue::Whole(r.memory_total), Seq::empty());
    let s2 = sv("memory.usage"@, timestamp, SampleValue::Whole(r.memory_used), Seq::empty());
    let s3 = sv("process.count"@, timestamp, SampleValue::Whole(r.process_count), Seq::empty());
    let s4 = sv("uptime"@, timestamp, SampleValue::Whole(r.uptime), Seq::empty());
    let w1 = when(on(enabled, "memory.total"@), s1);
    let w2 = when(on(enabled, "memory.usage"@), s2);
    let w3 = when(on(enabled, "process.count"@), s3);
    let w4 = when(on(enabled, "uptime"@), s4);
    lemma_carry_when(on(enabled, "memory.total"@), s1, r);
    lemma_carry_when(on(enabled, "memory.usage"@), s2, r);
    lemma_carry_when(on(enabled, "process.count"@), s3, r);
    lemma_carry_when(on(enabled, "uptime"@), s4, r);
    lemma_carry_concat(w1, w2, r);
    lemma_carry_concat(w1 + w2, w3, r);
    lemma_carry_concat(w1 + w2 + w3, w4, r);
}

proof fn lemma_device_part_carries(enabled: Seq<Seq<char>>, timestamp: i64, r: SystemReadings)
    ensures
        all_carry_readings(device_part(enabled, timestamp, r), r),
{
    lemma_metric_names_differ();
    let rb = on(enabled, "network.bytes_received"@);
    let sb = on(enabled, "network.bytes_sent"@);
    let st = on(enabled, "storage.total"@);
    let su = on(enabled, "storage.usage"@);
    let gu = on(enabled, "gpu.usage"@);
    let gt = on(enabled, "gpu.memory.total"@);
    let gm = on(enabled, "gpu.memory.usage"@);
    let net = network_samples(r.networks@, rb, sb, timestamp);
    let disk = disk_samples(r.disks@, st, su, timestamp);
    let gpu = gpu_samples(r.gpus@, gu, gt, gm, timestamp);
    assert(all_carry_readings(net, r)) by {
        assert forall|j: int| 0 <= j < net.len() implies carries_reading(#[trigger] net[j], r) by {
            lemma_networks_metric(r.networks@, rb, sb, timestamp, j);
        }
    }
    assert(all_carry_readings(disk, r)) by {
        assert forall|j: int| 0 <= j < disk.len() implies carries_reading(#[trigger] disk[j], r) by {
            lemma_disks_metric(r.disks@, st, su, timestamp, j);
        }
    }
    assert(all_carry_readings(gpu, r)) by {
        assert forall|j: int| 0 <= j < gpu.len() implies carries_reading(#[trigger] gpu[j], r) by {
            lemma_gpus_metric(r.gpus@, gu, gt, gm, timestamp, j);
        }
    }
    lemma_carry_concat(net, disk, r);
    lemma_carry_concat(net + disk, gpu, r);
}

/// Every sample of a collection run for CPU total usage, memory, processes
/// or uptime carries that metric's own reading, and each of those metrics
/// that is enabled is sampled with it.
pub proof fn law_collected_values_are_the_readings(enabled: Seq<Seq<char>>, timestamp: i64, r: SystemReadings, i: int)
    requires
        0 <= i < collected(enabled, timestamp, r).len(),
    ensures
        ({
            let x = collected(enabled, timestamp, r)[i];
            &&& x.metric == "cpu.total.usage"@ ==> x.value == SampleValue::Bits(r.cpu_total)
            &&& x.metric == "memory.total"@ ==> x.value == SampleValue::Whole(r.memory_total)
            &&& x.metric == "memory.usage"@ ==> x.value == SampleValue::Whole(r.memory_used)
            &&& x.metric == "process.count"@ ==> x.value == SampleValue::Whole(r.process_count)
            &&& x.metric == "uptime"@ ==> x.value == SampleValue::Whole(r.uptime)
        }),
{
    lemma_cpu_part_carries(enabled, timestamp, r);
    lemma_host_part_carries(enabled, timestamp, r);
    lemma_device_part_carries(enabled, timestamp, r);
    let a = cpu_part(enabled, timestamp, r);
    let b = host_part(enabled, timestamp, r);
    let c = device_part(enabled, timestamp, r);
    lemma_carry_concat(a, b, r);
    lemma_carry_concat(a + b, c, r);
    assert(carries_reading(collected(enabled, timestamp, r)[i], r));
}

proof fn lemma_contains_concat(a: Seq<SampleView>, b: Seq<SampleView>, x: SampleView)
    ensures
        a.contains(x) ==> (a + b).contains(x),
        b.contains(x) ==> (a + b).contains(x),
{
    if a.contains(x) {
        let k = choose|k: int| 0 <= k < a.len() && a[k] == x;
        assert((a + b)[k] == x);
    }
    if b.contains(x) {
        let k = choose|k: int| 0 <= k < b.len() && b[k] == x;
        assert((a + b)[a.len() + k] == x);
    }
}

/// Each enabled metric among CPU total usage, memory, processes and uptime
/// is sampled in a collection run, unlabelled, with its own reading.
pub proof fn law_enabled_readings_are_sampled(enabled: Seq<Seq<char>>, timestamp: i64, r: SystemReadings)
    ensures
        on(enabled, "cpu.total.usage"@) ==> collected(enabled, timestamp, r).contains(
            sv("cpu.total.usage"@, timestamp, SampleValue::Bits(r.cpu_total), Seq::empty())),
        on(enabled, "memory.total"@) ==> collected(enabled, timestamp, r).contains(
            sv("memory.total"@, timestamp, SampleValue::Whole(r.memory_total), Seq::empty())),
        on(enabled, "memory.usage"@) ==> collected(enabled, timestamp, r).contains(
            sv("memory.usage"@, timestamp, SampleValue::Whole(r.memory_used), Seq::empty())),
        on(enabled, "process.count"@) ==> collected(enabled, timestamp, r).contains(
            sv("process.count"@, timestamp, SampleValue::Whole(r.process_count), Seq::empty())),
        on(enabled, "uptime"@) ==> collected(enabled, timestamp, r).contains(
            sv("uptime"@, timestamp, SampleValue::Whole(r.uptime), Seq::empty())),
{
    let a = cpu_part(enabled, timestamp, r);
    let b = host_part(enabled, timestamp, r);
    let c = device_part(enabled, timestamp, r);
    let s0 = sv("cpu.total.usage"@, timestamp, SampleValue::Bits(r.cpu_total), Seq::empty());
    let s1 = sv("memory.total"@, timestamp, SampleValue::Whole(r.memory_total), Seq::empty());
    let s2 = sv("memory.usage"@, timestamp, SampleValue::Whole(r.memory_used), Seq::empty());
    let s3 = sv("process.count"@, timestamp, SampleValue::Whole(r.process_count), Seq::empty());
    let s4 = sv("uptime"@, timestamp, SampleValue::Whole(r.uptime), Seq::empty());
    let w0 = when(on(enabled, "cpu.total.usage"@), s0);
    let w1 = when(on(enabled, "memory.total"@), s1);
    let w2 = when(on(enabled, "memory.usage"@), s2);
    let w3 = when(on(enabled, "process.count"@), s3);
    let w4 = when(on(enabled, "uptime"@), s4);
    assert(on(enabled, "cpu.total.usage"@) ==> w0[0] == s0);
    assert(on(enabled, "memory.total"@) ==> w1[0] == s1);
    assert(on(enabled, "memory.usage"@) ==> w2[0] == s2);
    assert(on(enabled, "process.count"@) ==> w3[0] == s3);
    assert(on(enabled, "uptime"@) ==> w4[0] == s4);
    let cores = if on(enabled, "cpu.core.usage"@) { core_samples(r.cpu_cores@, timestamp) } else { Seq::empty() };
    lemma_contains_concat(w0, cores, s0);
    let xs = seq![s0, s1, s2, s3, s4];
    assert forall|k: int| 0 <= k < 5 implies ({
        let x = #[trigger] xs[k];
        (w1.contains(x) || w2.contains(x) || w3.contains(x) || w4.contains(x)) ==> b.contains(x)
    }) by {
        let x = xs[k];
        lemma_contains_concat(w1, w2, x);
        lemma_contains_concat(w1 + w2, w3, x);
        lemma_contains_concat(w1 + w2 + w3, w4, x);
    }
    assert forall|k: int| 0 <= k < 5 implies ({
        let x = #[trigger] xs[k];
        (a.contains(x) || b.contains(x)) ==> collected(enabled, timestamp, r).contains(x)
    }) by {
        let x = xs[k];
        lemma_contains_concat(a, b, x);
        lemma_contains_concat(a + b, c, x);
    }
    assert(xs[0] == s0 && xs[1] == s1 && xs[2] == s2 && xs[3] == s3 && xs[4] == s4);
}

/// Whether `x` is the traffic sample of some interface of `nets`: labelled
/// with that interface, it carries that interface's received (or, for
/// `sent`, transmitted) byte count.
pub open spec fn reads_interface(x: SampleView, nets: Seq<NetworkReading>, sent: bool) -> bool {
    exists|k: int| 0 <= k < nets.len() && x.labels == seq![("interface"@, (#[trigger] nets[k]).interface@)]
        && x.value == SampleValue::Whole(if sent { nets[k].transmitted } else { nets[k].received })
}

/// Whether `x` is the capacity sample of some volume of `disks`: labelled
/// with that volume, it carries its total (or, for `usage`, total minus
/// available, and zero when more is available than the total).
pub open spec fn reads_volume(x: SampleView, disks: Seq<DiskReading>, usage: bool) -> bool {
    exists|k: int| 0 <= k < disks.len() && x.labels == seq![("volume"@, (#[trigger] disks[k]).volume@)]
        && x.value == SampleValue::Whole(if usage {
            if disks[k].total >= disks[k].available { (disks[k].total - disks[k].available) as u64 } else { 0u64 }
        } else {
            disks[k].total
        })
}

/// Whether `x` is a sample of some device of `gpus` that reported the
/// reading: labelled first with the device's index, it carries the
/// utilization (`which == 0`), total memory (`1`) or used memory (`2`).
pub open spec fn reads_gpu(x: SampleView, gpus: Seq<GpuReading>, which: int) -> bool {
    exists|k: int| 0 <= k < gpus.len() && x.labels.len() >= 1
        && x.labels[0] == ("gpu"@, decimal((#[trigger] gpus[k]).index as nat))
        && (if which == 0 {
            gpus[k].utilization matches Some(u) && x.value == SampleValue::Whole(u as u64)
        } else {
            gpus[k].memory matches Some(m) && x.value == SampleValue::Whole(if which == 1 { m.0 } else { m.1 })
        })
}

/// Whether the sample `x` of a run carries a reading of the device it is
/// labelled with, for the metrics that have one reading per device.
pub open spec fn carries_device_reading(x: SampleView, r: SystemReadings) -> bool {
    &&& x.metric == "cpu.core.usage"@ ==> exists|k: int| 0 <= k < r.cpu_cores@.len()
        && x.labels == seq![("core"@, decimal(k as nat))] && x.value == SampleValue::Bits(#[trigger] r.cpu_cores@[k])
    &&& x.metric == "network.bytes_received"@ ==> reads_interface(x, r.networks@, false)
    &&& x.metric == "network.bytes_sent"@ ==> reads_interface(x, r.networks@, true)
    &&& x.metric == "storage.total"@ ==> reads_volume(x, r.disks@, false)
    &&& x.metric == "storage.usage"@ ==> reads_volume(x, r.disks@, true)
    &&& x.metric == "gpu.usage"@ ==> reads_gpu(x, r.gpus@, 0)
    &&& x.metric == "gpu.memory.total"@ ==> reads_gpu(x, r.gpus@, 1)
    &&& x.metric == "gpu.memory.usage"@ ==> reads_gpu(x, r.gpus@, 2)
}

spec fn all_carry_device_readings(s: Seq<SampleView>, r: SystemReadings) -> bool {
    forall|j: int| 0 <= j < s.len() ==> carries_device_reading(#[trigger] s[j], r)
}

proof fn lemma_device_carry_concat(a: Seq<SampleView>, b: Seq<SampleView>, r: SystemReadings)
    requires
        all_carry_device_readings(a, r),
        all_carry_device_readings(b, r),
    ensures
        all_carry_device_readings(a + b, r),
{
    assert forall|j: int| 0 <= j < (a + b).len() implies carries_device_reading(#[trigger] (a + b)[j], r) by {
        if j < a.len() {
            assert((a + b)[j] == a[j]);
        } else {
            assert((a + b)[j] == b[j - a.len()]);
        }
    }
}

proof fn lemma_networks_read(nets: Seq<NetworkReading>, received: bool, sent: bool, timestamp: i64, j: int)
    requires
        0 <= j < network_samples(nets, received, sent, timestamp).len(),
    ensures
        ({
            let x = network_samples(nets, received, sent, timestamp)[j];
            (x.metric == "network.bytes_received"@ && reads_interface(x, nets, false))
                || (x.metric == "network.bytes_sent"@ && reads_interface(x, nets, true))
        }),
    decreases nets.len(),
{
    let init = nets.drop_last();
    let rest = network_samples(init, received, sent, timestamp);
    let all = network_samples(nets, received, sent, timestamp);
    let n = nets.last();
    let k = nets.len() - 1;
    assert(nets[k] == n);
    if j < rest.len() {
        lemma_networks_read(init, received, sent, timestamp, j);
        assert(all[j] == rest[j]);
        let x = rest[j];
        if reads_interface(x, init, false) {
            let i = choose|i: int| 0 <= i < init.len() && x.labels == seq![("interface"@, (#[trigger] init[i]).interface@)]
                && x.value == SampleValue::Whole(init[i].received);
            assert(nets[i] == init[i]);
        }
        if reads_interface(x, init, true) {
            let i = choose|i: int| 0 <= i < init.len() && x.labels == seq![("interface"@, (#[trigger] init[i]).interface@)]
                && x.value == SampleValue::Whole(init[i].transmitted);
            assert(nets[i] == init[i]);
        }
    } else {
        let e = network_entry(n, received, sent, timestamp);
        assert(all[j] == e[j - rest.len()]);
    }
}

proof fn lemma_disks_read(disks: Seq<DiskReading>, total: bool, usage: bool, timestamp: i64, j: int)
    requires
        0 <= j < disk_samples(disks, total, usage, timestamp).len(),
    ensures
        ({
            let x = disk_samples(disks, total, usage, timestamp)[j];
            (x.metric == "storage.total"@ && reads_volume(x, disks, false))
                || (x.metric == "storage.usage"@ && reads_volume(x, disks, true))
        }),
    decreases disks.len(),
{
    let init = disks.drop_last();
    let rest = disk_samples(init, total, usage, timestamp);
    let all = disk_samples(disks, total, usage, timestamp);
    let d = disks.last();
    let k = disks.len() - 1;
    assert(disks[k] == d);
    if j < rest.len() {
        lemma_disks_read(init, total, usage, timestamp, j);
        assert(all[j] == rest[j]);
        let x = rest[j];
        if reads_volume(x, init, false) {
            let i = choose|i: int| 0 <= i < init.len() && x.labels == seq![("volume"@, (#[trigger] init[i]).volume@)]
                && x.value == SampleValue::Whole(init[i].total);
            assert(disks[i] == init[i]);
        }
        if reads_volume(x, init, true) {
            let i = choose|i: int| 0 <= i < init.len() && x.labels == seq![("volume"@, (#[trigger] init[i]).volume@)]
                && x.value == SampleValue::Whole(if init[i].total >= init[i].available { (init[i].total - init[i].available) as u64 } else { 0u64 });
            assert(disks[i] == init[i]);
        }
    } else {
        let e = disk_entry(d, total, usage, timestamp);
        assert(all[j] == e[j - rest.len()]);
    }
}

proof fn lemma_gpus_read(gpus: Seq<GpuReading>, usage: bool, mem_total: bool, mem_used: bool, timestamp: i64, j: int)
    requires
        0 <= j < gpu_samples(gpus, usage, mem_total, mem_used, timestamp).len(),
    ensures
        ({
            let x = gpu_samples(gpus, usage, mem_total, mem_used, timestamp)[j];
            (x.metric == "gpu.usage"@ && reads_gpu(x, gpus, 0))
                || (x.metric == "gpu.memory.total"@ && reads_gpu(x, gpus, 1))
                || (x.metric == "gpu.memory.usage"@ && reads_gpu(x, gpus, 2))
        }),
    decreases gpus.len(),
{
    let init = gpus.drop_last();
    let rest = gpu_samples(init, usage, mem_total, mem_used, timestamp);
    let all = gpu_samples(gpus, usage, mem_total, mem_used, timestamp);
    let g = gpus.last();
    let k = gpus.len() - 1;
    assert(gpus[k] == g);
    if j < rest.len() {
        lemma_gpus_read(init, usage, mem_total, mem_used, timestamp, j);
        assert(all[j] == rest[j]);
        let x = rest[j];
        assert forall|w: int| 0 <= w <= 2 && reads_gpu(x, init, w) implies reads_gpu(x, gpus, w) by {
            let i = choose|i: int| 0 <= i < init.len() && x.labels.len() >= 1
                && x.labels[0] == ("gpu"@, decimal((#[trigger] init[i]).index as nat))
                && (if w == 0 {
                    init[i].utilization matches Some(u) && x.value == SampleValue::Whole(u as u64)
                } else {
                    init[i].memory matches Some(m) && x.value == SampleValue::Whole(if w == 1 { m.0 } else { m.1 })
                });
            assert(gpus[i] == init[i]);
        }
    } else {
        let e = gpu_entry(g, usage, mem_total, mem_used, timestamp);
        assert(all[j] == e[j - rest.len()]);
        assert(gpu_labels(g)[0] == ("gpu"@, decimal(g.index as nat)));
    }
}

proof fn lemma_device_names_differ()
    ensures
        "cpu.core.usage"@ != "network.bytes_received"@,
        "cpu.core.usage"@ != "network.bytes_sent"@,
        "cpu.core.usage"@ != "storage.total"@,
        "cpu.core.usage"@ != "storage.usage"@,
        "cpu.core.usage"@ != "gpu.usage"@,
        "cpu.core.usage"@ != "gpu.memory.total"@,
        "cpu.core.usage"@ != "gpu.memory.usage"@,
        "network.bytes_received"@ != "network.bytes_sent"@,
        "network.bytes_received"@ != "storage.total"@,
        "network.bytes_received"@ != "storage.usage"@,
        "network.bytes_received"@ != "gpu.usage"@,
        "network.bytes_received"@ != "gpu.memory.total"@,
        "network.bytes_received"@ != "gpu.memory.usage"@,
        "network.bytes_sent"@ != "storage.total"@,
        "network.bytes_sent"@ != "storage.usage"@,
        "network.bytes_sent"@ != "gpu.usage"@,
        "network.bytes_sent"@ != "gpu.memory.total"@,
        "network.bytes_sent"@ != "gpu.memory.usage"@,
        "storage.total"@ != "storage.usage"@,
        "storage.total"@ != "gpu.usage"@,
        "storage.total"@ != "gpu.memory.total"@,
        "storage.total"@ != "gpu.memory.usage"@,
        "storage.usage"@ != "gpu.usage"@,
        "storage.usage"@ != "gpu.memory.total"@,
        "storage.usage"@ != "gpu.memory.usage"@,
        "gpu.usage"@ != "gpu.memory.total"@,
        "gpu.usage"@ != "gpu.memory.usage"@,
        "gpu.memory.total"@ != "gpu.memory.usage"@,
{
    reveal_strlit("cpu.core.usage");
    reveal_strlit("network.bytes_received");
    reveal_strlit("network.bytes_sent");
    reveal_strlit("storage.total");
    reveal_strlit("storage.usage");
    reveal_strlit("gpu.usage");
    reveal_strlit("gpu.memory.total");
    reveal_strlit("gpu.memory.usage");
    assert("cpu.core.usage"@.len() != "network.bytes_received"@.len());
    assert("cpu.core.usage"@.len() != "network.bytes_sent"@.len());
    assert("cpu.core.usage"@.len() != "storage.total"@.len());
    assert("cpu.core.usage"@.len() != "storage.usage"@.len());
    assert("cpu.core.usage"@.len() != "gpu.usage"@.len());
    assert("cpu.core.usage"@.len() != "gpu.memory.total"@.len());
    assert("cpu.core.usage"@.len() != "gpu.memory.usage"@.len());
    assert("network.bytes_received"@.len() != "network.bytes_sent"@.len());
    assert("network.bytes_received"@.len() != "storage.total"@.len());
    assert("network.bytes_received"@.len() != "storage.usage"@.len());
    assert("network.bytes_received"@.len() != "gpu.usage"@.len());
    assert("network.bytes_received"@.len() != "gpu.memory.total"@.len());
    assert("network.bytes_received"@.len() != "gpu.memory.usage"@.len());
    assert("network.bytes_sent"@.len() != "storage.total"@.len());
    assert("network.bytes_sent"@.len() != "storage.usage"@.len());
    assert("network.bytes_sent"@.len() != "gpu.usage"@.len());
    assert("network.bytes_sent"@.len() != "gpu.memory.total"@.len());
    assert("network.bytes_sent"@.len() != "gpu.memory.usage"@.len());
    assert("storage.total"@[8] != "storage.usage"@[8]);
    assert("storage.total"@.len() != "gpu.usage"@.len());
    assert("storage.total"@.len() != "gpu.memory.total"@.len());
    assert("storage.total"@.len() != "gpu.memory.usage"@.len());
    assert("storage.usage"@.len() != "gpu.usage"@.len());
    assert("storage.usage"@.len() != "gpu.memory.total"@.len());
    assert("storage.usage"@.len() != "gpu.memory.usage"@.len());
    assert("gpu.usage"@.len() != "gpu.memory.total"@.len());
    assert("gpu.usage"@.len() != "gpu.memory.usage"@.len());
    assert("gpu.memory.total"@[11] != "gpu.memory.usage"@[11]);
}

proof fn lemma_parts_carry_device_readings(enabled: Seq<Seq<char>>, timestamp: i64, r: SystemReadings)
    ensures
        all_carry_device_readings(cpu_part(enabled, timestamp, r), r),
        all_carry_device_readings(host_part(enabled, timestamp, r), r),
{
    lemma_metric_names_differ();
    lemma_device_names_differ();
    let a = cpu_part(enabled, timestamp, r);
    let total = sv("cpu.total.usage"@, timestamp, SampleValue::Bits(r.cpu_total), Seq::empty());
    let w0 = when(on(enabled, "cpu.total.usage"@), total);
    let cores = if on(enabled, "cpu.core.usage"@) { core_samples(r.cpu_cores@, timestamp) } else { Seq::empty() };
    if r.cpu_cores@.len() > 0 {
        law_one_sample_per_core(r.cpu_cores@, timestamp, 0);
    } else {
        assert(core_samples(r.cpu_cores@, timestamp).len() == 0);
    }
    assert(a == w0 + cores);
    assert forall|j: int| 0 <= j < a.len() implies carries_device_reading(#[trigger] a[j], r) by {
        if j < w0.len() {
            assert(a[j] == total);
        } else {
            assert(a[j] == cores[j - w0.len()]);
            law_one_sample_per_core(r.cpu_cores@, timestamp, j - w0.len());
        }
    }
    let b = host_part(enabled, timestamp, r);
    lemma_host_part_carries(enabled, timestamp, r);
    assert forall|j: int| 0 <= j < b.len() implies carries_device_reading(#[trigger] b[j], r) by {
        lemma_host_metric(enabled, timestamp, r, j);
    }
}

proof fn lemma_host_metric(enabled: Seq<Seq<char>>, timestamp: i64, r: SystemReadings, j: int)
    requires
        0 <= j < host_part(enabled, timestamp, r).len(),
    ensures
        ({
            let m = host_part(enabled, timestamp, r)[j].metric;
            m == "memory.total"@ || m == "memory.usage"@ || m == "process.count"@ || m == "uptime"@
        }),
{
    let s1 = sv("memory.total"@, timestamp, SampleValue::Whole(r.memory_total), Seq::empty());
    let s2 = sv("memory.usage"@, timestamp, SampleValue::Whole(r.memory_used), Seq::empty());
    let s3 = sv("process.count"@, timestamp, SampleValue::Whole(r.process_count), Seq::empty());
    let s4 = sv("uptime"@, timestamp, SampleValue::Whole(r.uptime), Seq::empty());
    let w1 = when(on(enabled, "memory.total"@), s1);
    let w2 = when(on(enabled, "memory.usage"@), s2);
    let w3 = when(on(enabled, "process.count"@), s3);
    let w4 = when(on(enabled, "uptime"@), s4);
    let b = host_part(enabled, timestamp, r);
    assert(b == w1 + w2 + w3 + w4);
    if j < w1.len() {
        assert(b[j] == s1);
    } else if j < w1.len() + w2.len() {
        assert(b[j] == s2);
    } else if j < w1.len() + w2.len() + w3.len() {
        assert(b[j] == s3);
    } else {
        assert(b[j] == s4);
    }
}

proof fn lemma_device_part_carries_device_readings(enabled: Seq<Seq<char>>, timestamp: i64, r: SystemReadings)
    ensures
        all_carry_device_readings(device_part(enabled, timestamp, r), r),
{
    lemma_device_names_differ();
    let rb = on(enabled, "network.bytes_received"@);
    let sb = on(enabled, "network.bytes_sent"@);
    let st = on(enabled, "storage.total"@);
    let su = on(enabled, "storage.usage"@);
    let gu = on(enabled, "gpu.usage"@);
    let gt = on(enabled, "gpu.memory.total"@);
    let gm = on(enabled, "gpu.memory.usage"@);
    let net = network_samples(r.networks@, rb, sb, timestamp);
    let disk = disk_samples(r.disks@, st, su, timestamp);
    let gpu = gpu_samples(r.gpus@, gu, gt, gm, timestamp);
    assert forall|j: int| 0 <= j < net.len() implies carries_device_reading(#[trigger] net[j], r) by {
        lemma_networks_read(r.networks@, rb, sb, timestamp, j);
    }
    assert forall|j: int| 0 <= j < disk.len() implies carries_device_reading(#[trigger] disk[j], r) by {
        lemma_disks_read(r.disks@, st, su, timestamp, j);
    }
    assert forall|j: int| 0 <= j < gpu.len() implies carries_device_reading(#[trigger] gpu[j], r) by {
        lemma_gpus_read(r.gpus@, gu, gt, gm, timestamp, j);
    }
    lemma_device_carry_concat(net, disk, r);
    lemma_device_carry_concat(net + disk, gpu, r);
}

/// Every per-device sample of a collection run carries a reading of the
/// device it is labelled with: a core's usage, an interface's received or
/// transmitted bytes, a volume's total or used capacity, a GPU's
/// utilization or total or used memory, each under its own metric.
pub proof fn law_device_samples_carry_their_readings(enabled: Seq<Seq<char>>, timestamp: i64, r: SystemReadings, i: int)
    requires
        0 <= i < collected(enabled, timestamp, r).len(),
    ensures
        carries_device_reading(collected(enabled, timestamp, r)[i], r),
{
    lemma_parts_carry_device_readings(enabled, timestamp, r);
    lemma_device_part_carries_device_readings(enabled, timestamp, r);
    let a = cpu_part(enabled, timestamp, r);
    let b = host_part(enabled, timestamp, r);
    let c = device_part(enabled, timestamp, r);
    lemma_device_carry_concat(a, b, r);
    lemma_device_carry_concat(a + b, c, r);
}

/// A collection run samples every CPU core once, in order, labelled with
/// its index.
pub proof fn law_one_sample_per_core(cores: Seq<u64>, timestamp: i64, i: int)
    requires
        0 <= i < cores.len(),
    ensures
        core_samples(cores, timestamp).len() == cores.len(),
        core_samples(cores, timestamp)[i] == sv("cpu.core.usage"@, timestamp, SampleValue::Bits(cores[i]), seq![("core"@, decimal(i as nat))]),
    decreases cores.len(),
{
    let init = cores.drop_last();
    let rest = core_samples(init, timestamp);
    if cores.len() > 1 {
        law_one_sample_per_core(init, timestamp, if i < cores.len() - 1 { i } else { 0 });
    } else {
        assert(rest.len() == 0);
    }
    let last = sv("cpu.core.usage"@, timestamp, SampleValue::Bits(cores.last()), seq![("core"@, decimal((cores.len() - 1) as nat))]);
    assert(core_samples(cores, timestamp) == rest.push(last));
    if i < cores.len() - 1 {
        assert(init[i] == cores[i]);
        assert(rest.push(last)[i] == rest[i]);
    }
}

/// A volume's reported usage never exceeds its reported total.
pub proof fn law_storage_usage_within_total(d: DiskReading, timestamp: i64)
    ensures
        disk_entry(d, true, true, timestamp).len() == 2,
        disk_entry(d, true, true, timestamp)[0].value == SampleValue::Whole(d.total),
        disk_entry(d, true, true, timestamp)[1].value matches SampleValue::Whole(used) && used <= d.total,
{
}

proof fn lemma_no_network_samples(nets: Seq<NetworkReading>, timestamp: i64)
    ensures
        network_samples(nets, false, false, timestamp) == Seq::<SampleView>::empty(),
    decreases nets.len(),
{
    if nets.len() > 0 {
        lemma_no_network_samples(nets.drop_last(), timestamp);
        assert(network_entry(nets.last(), false, false, timestamp) =~= Seq::<SampleView>::empty());
    }
}

proof fn lemma_no_disk_samples(disks: Seq<DiskReading>, timestamp: i64)
    ensures
        disk_samples(disks, false, false, timestamp) == Seq::<SampleView>::empty(),
    decreases disks.len(),
{
    if disks.len() > 0 {
        lemma_no_disk_samples(disks.drop_last(), timestamp);
        assert(disk_entry(disks.last(), false, false, timestamp) =~= Seq::<SampleView>::empty());
    }
}

} // verus!
