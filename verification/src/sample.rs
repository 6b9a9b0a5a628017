//! Metric samples: one value of one metric, at one time, for one label set.
use vstd::prelude::*;
use vstd::string::*;
use crate::catalog::{lex_less, lemma_lex_less_transitive};

verus! {

broadcast use vstd::string::group_string_axioms;

/// The value of a sample. Counters, byte quantities and durations are whole
/// numbers; measured ratios are carried as the bit pattern of an IEEE-754
/// double, which only the presentation layer turns back into a number.
#[derive(Debug, Clone, Copy, PartialEq, Eq, Structural)]
pub enum SampleValue {
    Whole(u64),
    Bits(u64),
}

/// One sample. `timestamp` is in milliseconds since the Unix epoch; `labels`
/// holds `(key, value)` pairs, which are written out in the order given
/// (the collector and the store give them in ascending key order).
#[derive(Debug)]
pub struct MetricSample {
    pub metric: String,
    pub timestamp: i64,
    pub value: SampleValue,
    pub labels: Vec<(String, String)>,
}

/// A sample as plain values.
pub struct SampleView {
    pub metric: Seq<char>,
    pub timestamp: int,
    pub value: SampleValue,
    pub labels: Seq<(Seq<char>, Seq<char>)>,
}

/// Label pairs as plain values.
pub open spec fn labels_view(labels: Seq<(String, String)>) -> Seq<(Seq<char>, Seq<char>)> {
    labels.map_values(|p: (String, String)| (p.0@, p.1@))
}

impl View for MetricSample {
    type V = SampleView;

    open spec fn view(&self) -> SampleView {
        SampleView {
            metric: self.metric@,
            timestamp: self.timestamp as int,
            value: self.value,
            labels: labels_view(self.labels@),
        }
    }
}

/// Whether the label keys are strictly ascending, in the order in which
/// `String` compares them, so that no key occurs twice.
pub open spec fn keys_ascending(labels: Seq<(Seq<char>, Seq<char>)>) -> bool {
    forall|i: int, j: int| 0 <= i < j < labels.len() ==> lex_less(labels[i].0, labels[j].0)
}

/// Whether every sample's label keys are strictly ascending.
pub open spec fn labels_in_order(samples: Seq<SampleView>) -> bool {
    forall|i: int| 0 <= i < samples.len() ==> keys_ascending(#[trigger] samples[i].labels)
}

proof fn lemma_lex_less_skip(a: Seq<char>, b: Seq<char>, i: int)
    requires
        0 <= i <= a.len(),
        i <= b.len(),
        a.take(i) == b.take(i),
    ensures
        lex_less(a, b) == lex_less(a.skip(i), b.skip(i)),
    decreases i,
{
    if i == 0 {
        assert(a.skip(0) =~= a);
        assert(b.skip(0) =~= b);
    } else {
        assert(a[0] == a.take(i)[0] && b[0] == b.take(i)[0]);
        assert(a.drop_first().take(i - 1) =~= a.take(i).drop_first());
        assert(b.drop_first().take(i - 1) =~= b.take(i).drop_first());
        lemma_lex_less_skip(a.drop_first(), b.drop_first(), i - 1);
        assert(a.drop_first().skip(i - 1) =~= a.skip(i));
        assert(b.drop_first().skip(i - 1) =~= b.skip(i));
    }
}

/// Whether `a` sorts before `b`, character by character.
pub(crate) fn key_less(a: &str, b: &str) -> (r: bool)
    ensures
        r == lex_less(a@, b@),
{
    let n = a.unicode_len();
    let m = b.unicode_len();
    let mut i: usize = 0;
    while i < n && i < m
        invariant
            n == a@.len(),
            m == b@.len(),
            i <= n,
            i <= m,
            a@.take(i as int) == b@.take(i as int),
        decreases n - i,
    {
        let x = a.get_char(i);
        let y = b.get_char(i);
        if x != y {
            proof {
                lemma_lex_less_skip(a@, b@, i as int);
                assert(a@.skip(i as int)[0] == x && b@.skip(i as int)[0] == y);
            }
            return x < y;
        }
        assert(a@.take(i + 1) =~= a@.take(i as int).push(x));
        assert(b@.take(i + 1) =~= b@.take(i as int).push(y));
        i = i + 1;
    }
    proof {
        lemma_lex_less_skip(a@, b@, i as int);
    }
    i == n && i < m
}

/// Whether the label keys are strictly ascending, as `keys_ascending`
/// states it; stored labels must be.
pub fn labels_in_key_order(labels: &Vec<(String, String)>) -> (r: bool)
    ensures
        r == keys_ascending(labels_view(labels@)),
{
    let ghost view = labels_view(labels@);
    let n = labels.len();
    if n < 2 {
        return true;
    }
    let mut k: usize = 1;
    while k < n
        invariant
            n == labels@.len(),
            view == labels_view(labels@),
            1 <= k <= n,
            forall|i: int, j: int| 0 <= i < j < k ==> lex_less(#[trigger] view[i].0, #[trigger] view[j].0),
        decreases n - k,
    {
        if !key_less(labels[k - 1].0.as_str(), labels[k].0.as_str()) {
            assert(!lex_less(view[k - 1].0, view[k as int].0));
            return false;
        }
        assert forall|i: int, j: int| 0 <= i < j < k + 1 implies lex_less(#[trigger] view[i].0, #[trigger] view[j].0) by {
            if j == k && i < k - 1 {
                lemma_lex_less_transitive(view[i].0, view[k - 1].0, view[k as int].0);
            }
        }
        k = k + 1;
    }
    true
}

/// Samples as plain values.
pub open spec fn samples_view(samples: Seq<MetricSample>) -> Seq<SampleView> {
    samples.map_values(|s: MetricSample| s@)
}

/// A copy of the label pairs.
pub fn copy_labels(labels: &Vec<(String, String)>) -> (r: Vec<(String, String)>)
    ensures
        labels_view(r@) == labels_view(labels@),
{
    let mut out: Vec<(String, String)> = Vec::new();
    let n = labels.len();
    let mut i: usize = 0;
    while i < n
        invariant
            n == labels@.len(),
            i <= n,
            labels_view(out@) =~= labels_view(labels@).take(i as int),
        decreases n - i,
    {
        let ghost before = labels_view(out@);
        let pair = (labels[i].0.clone(), labels[i].1.clone());
        out.push(pair);
        assert(labels_view(out@) =~= before.push((labels@[i as int].0@, labels@[i as int].1@)));
        i = i + 1;
        assert(labels_view(out@) =~= labels_view(labels@).take(i as int));
    }
    assert(labels_view(labels@).take(n as int) =~= labels_view(labels@));
    out
}

impl MetricSample {
    /// A copy of this sample.
    pub fn duplicate(&self) -> (r: MetricSample)
        ensures
            r@ == self@,
    {
        MetricSample {
            metric: self.metric.clone(),
            timestamp: self.timestamp,
            value: self.value,
            labels: copy_labels(&self.labels),
        }
    }
}

/// `sorted` with `x` placed after every sample whose timestamp is not later.
pub open spec fn insert_by_time(sorted: Seq<MetricSample>, x: MetricSample) -> Seq<MetricSample>
    decreases sorted.len(),
{
    if sorted.len() == 0 {
        seq![x]
    } else if sorted.last().timestamp <= x.timestamp {
        sorted.push(x)
    } else {
        insert_by_time(sorted.drop_last(), x).push(sorted.last())
    }
}

/// The samples in ascending timestamp order; samples with equal timestamps
/// keep their relative order.
pub open spec fn sort_by_time(samples: Seq<MetricSample>) -> Seq<MetricSample>
    decreases samples.len(),
{
    if samples.len() == 0 {
        samples
    } else {
        insert_by_time(sort_by_time(samples.drop_last()), samples.last())
    }
}

/// Whether the samples are in ascending timestamp order.
pub open spec fn time_ordered(samples: Seq<MetricSample>) -> bool {
    forall|i: int, j: int| 0 <= i <= j < samples.len() ==> samples[i].timestamp <= samples[j].timestamp
}

/// Sorts the samples by timestamp with `slice::sort_by_key`, which is a
/// stable sort: the result is ascending by timestamp, and samples with equal
/// timestamps keep their relative order. That is what `sort_by_time` states.
#[verifier::external_body]
fn sort_by_timestamp(samples: &mut Vec<MetricSample>)
    ensures
        final(samples)@ == sort_by_time(old(samples)@),
{
    samples.sort_by_key(|sample| sample.timestamp);
}

/// Merges the per-metric reads of a raw query into one list ordered by
/// timestamp; samples with equal timestamps keep their order.
pub fn order_by_timestamp(samples: &mut Vec<MetricSample>)
    ensures
        final(samples)@ == sort_by_time(old(samples)@),
{
    sort_by_timestamp(samples);
}

proof fn lemma_insert_by_time(sorted: Seq<MetricSample>, x: MetricSample)
    requires
        time_ordered(sorted),
    ensures
        time_ordered(insert_by_time(sorted, x)),
        insert_by_time(sorted, x).to_multiset() == sorted.to_multiset().insert(x),
        insert_by_time(sorted, x).len() == sorted.len() + 1,
        forall|i: int| 0 <= i < insert_by_time(sorted, x).len() ==>
            #[trigger] insert_by_time(sorted, x)[i] == x
            || sorted.contains(insert_by_time(sorted, x)[i]),
    decreases sorted.len(),
{
    broadcast use vstd::seq_lib::group_seq_properties;
    if sorted.len() == 0 {
        assert(seq![x] =~= Seq::<MetricSample>::empty().push(x));
    } else if sorted.last().timestamp <= x.timestamp {
    } else {
        let init = sorted.drop_last();
        assert(time_ordered(init));
        lemma_insert_by_time(init, x);
        let r = insert_by_time(init, x);
        assert(sorted =~= init.push(sorted.last()));
        assert forall|i: int| 0 <= i < r.len() implies r[i].timestamp <= sorted.last().timestamp by {
            if r[i] != x {
                let k = init.index_of(r[i]);
                assert(init[k] == r[i]);
                assert(sorted[k] == r[i]);
            }
        }
        assert forall|i: int| 0 <= i < r.push(sorted.last()).len() implies
            #[trigger] r.push(sorted.last())[i] == x
            || sorted.contains(r.push(sorted.last())[i]) by {
            if i < r.len() {
                if r[i] != x {
                    let k = init.index_of(r[i]);
                    assert(sorted[k] == r[i]);
                }
            } else {
                assert(sorted[sorted.len() - 1] == sorted.last());
            }
        }
    }
}

/// Ordering by timestamp puts the samples in ascending timestamp order and
/// neither loses nor adds a sample.
pub proof fn law_sort_orders_and_permutes(samples: Seq<MetricSample>)
    ensures
        time_ordered(sort_by_time(samples)),
        sort_by_time(samples).to_multiset() == samples.to_multiset(),
        sort_by_time(samples).len() == samples.len(),
    decreases samples.len(),
{
    broadcast use vstd::seq_lib::group_seq_properties;
    if samples.len() > 0 {
        law_sort_orders_and_permutes(samples.drop_last());
        lemma_insert_by_time(sort_by_time(samples.drop_last()), samples.last());
        assert(samples =~= samples.drop_last().push(samples.last()));
    }
}

} // verus!
