//! The Prometheus text exposition of a metric snapshot.
//!
//! Every sample becomes one line: the metric name prefixed with
//! `computer_state_` and with dots turned into underscores, the labels in
//! braces, a space, the value and a newline.
use vstd::prelude::*;
use vstd::string::*;
use crate::sample::{MetricSample, SampleView, samples_view};
use crate::settings::names_view;
use crate::text::push_char_at;

verus! {

broadcast use vstd::string::group_string_axioms;

/// `s` with every `.` replaced by `_`.
pub open spec fn underscored(s: Seq<char>) -> Seq<char> {
    s.map_values(|c: char| if c == '.' { '_' } else { c })
}

/// How a character of a label value is written: `\` and `"` are escaped
/// with a backslash, and a line feed is written as `\n`.
pub open spec fn escaped_char(c: char) -> Seq<char> {
    if c == '\\' {
        seq!['\\', '\\']
    } else if c == '\n' {
        seq!['\\', 'n']
    } else if c == '"' {
        seq!['\\', '"']
    } else {
        seq![c]
    }
}

/// A label value as written in the exposition.
pub open spec fn escaped(s: Seq<char>) -> Seq<char>
    decreases s.len(),
{
    if s.len() == 0 {
        Seq::empty()
    } else {
        escaped(s.drop_last()) + escaped_char(s.last())
    }
}

/// One label: `key="value"`.
pub open spec fn label_text(pair: (Seq<char>, Seq<char>)) -> Seq<char> {
    underscored(pair.0) + "=\""@ + escaped(pair.1) + "\""@
}

/// The labels, separated by commas.
pub open spec fn label_list(labels: Seq<(Seq<char>, Seq<char>)>) -> Seq<char>
    decreases labels.len(),
{
    if labels.len() == 0 {
        Seq::empty()
    } else if labels.len() == 1 {
        label_text(labels[0])
    } else {
        label_list(labels.drop_last()) + ","@ + label_text(labels.last())
    }
}

/// The label block: nothing without labels, else the labels in braces.
pub open spec fn label_block(labels: Seq<(Seq<char>, Seq<char>)>) -> Seq<char> {
    if labels.len() == 0 {
        Seq::empty()
    } else {
        "{"@ + label_list(labels) + "}"@
    }
}

/// The exposition line of one sample whose value is written as `value`.
pub open spec fn exposition_line(sample: SampleView, value: Seq<char>) -> Seq<char> {
    "computer_state_"@ + underscored(sample.metric) + label_block(sample.labels) + " "@ + value + "\n"@
}

/// The exposition of the samples, `values[i]` being the written value of
/// sample `i`.
pub open spec fn exposition(samples: Seq<SampleView>, values: Seq<Seq<char>>) -> Seq<char>
    decreases samples.len(),
{
    if samples.len() == 0 || values.len() == 0 {
        Seq::empty()
    } else {
        exposition(samples.drop_last(), values.drop_last()) + exposition_line(samples.last(), values.last())
    }
}

/// A written label value never breaks the line and never ends its quotes
/// early: it holds no line feed, and every `"` in it follows a backslash.
/// Text without a backslash, quote or line feed is written as it is.
pub proof fn law_escaped_values_stay_quoted(s: Seq<char>)
    ensures
        forall|k: int| 0 <= k < escaped(s).len() ==> #[trigger] escaped(s)[k] != '\n',
        forall|k: int| 0 <= k < escaped(s).len() && #[trigger] escaped(s)[k] == '"' ==> k > 0 && escaped(s)[k - 1] == '\\',
        (forall|k: int| 0 <= k < s.len() ==> #[trigger] s[k] != '\\' && s[k] != '"' && s[k] != '\n') ==> escaped(s) == s,
    decreases s.len(),
{
    if s.len() > 0 {
        let init = s.drop_last();
        law_escaped_values_stay_quoted(init);
        let a = escaped(init);
        let b = escaped_char(s.last());
        assert(escaped(s) == a + b);
        assert forall|k: int| 0 <= k < escaped(s).len() implies #[trigger] escaped(s)[k] != '\n' by {
            if k < a.len() {
                assert(escaped(s)[k] == a[k]);
            } else {
                assert(escaped(s)[k] == b[k - a.len()]);
            }
        }
        assert forall|k: int| 0 <= k < escaped(s).len() && #[trigger] escaped(s)[k] == '"' implies k > 0 && escaped(s)[k - 1] == '\\' by {
            if k < a.len() {
                assert(escaped(s)[k] == a[k]);
                assert(escaped(s)[k - 1] == a[k - 1]);
            } else {
                assert(escaped(s)[k] == b[k - a.len()]);
                assert(k - a.len() == 1);
                assert(escaped(s)[k - 1] == b[0]);
            }
        }
        if forall|k: int| 0 <= k < s.len() ==> #[trigger] s[k] != '\\' && s[k] != '"' && s[k] != '\n' {
            assert forall|k: int| 0 <= k < init.len() implies #[trigger] init[k] != '\\' && init[k] != '"' && init[k] != '\n' by {
                assert(init[k] == s[k]);
            }
            assert(s[s.len() - 1] == s.last());
            assert(a + b =~= s);
        }
    }
}

fn push_underscored(out: &mut String, s: &str)
    ensures
        final(out)@ == old(out)@ + underscored(s@),
{
    let n = s.unicode_len();
    let ghost start = out@;
    let mut i: usize = 0;
    while i < n
        invariant
            n == s@.len(),
            i <= n,
            out@ == start + underscored(s@.take(i as int)),
        decreases n - i,
    {
        let ghost before = out@;
        if s.get_char(i) == '.' {
            out.append("_");
            proof {
                reveal_strlit("_");
            }
            assert(out@ =~= before.push('_'));
        } else {
            push_char_at(out, s, i);
        }
        i = i + 1;
        assert(underscored(s@.take(i as int)) =~= underscored(s@.take(i - 1)).push(
            if s@[i - 1] == '.' { '_' } else { s@[i - 1] },
        ));
    }
    assert(s@.take(n as int) =~= s@);
}

fn push_escaped(out: &mut String, s: &str)
    ensures
        final(out)@ == old(out)@ + escaped(s@),
{
    let n = s.unicode_len();
    let ghost start = out@;
    let mut i: usize = 0;
    while i < n
        invariant
            n == s@.len(),
            i <= n,
            out@ == start + escaped(s@.take(i as int)),
        decreases n - i,
    {
        let c = s.get_char(i);
        let ghost before = out@;
        if c == '\\' {
            out.append("\\\\");
            proof {
                reveal_strlit("\\\\");
            }
            assert("\\\\"@ =~= seq!['\\', '\\']);
        } else if c == '\n' {
            out.append("\\n");
            proof {
                reveal_strlit("\\n");
            }
            assert("\\n"@ =~= seq!['\\', 'n']);
        } else if c == '"' {
            out.append("\\\"");
            proof {
                reveal_strlit("\\\"");
            }
            assert("\\\""@ =~= seq!['\\', '"']);
        } else {
            push_char_at(out, s, i);
        }
        assert(out@ =~= before + escaped_char(c));
        assert(s@.take(i + 1).drop_last() =~= s@.take(i as int));
        i = i + 1;
    }
    assert(s@.take(n as int) =~= s@);
}

fn push_labels(out: &mut String, labels: &Vec<(String, String)>)
    ensures
        final(out)@ == old(out)@ + label_block(crate::sample::labels_view(labels@)),
{
    let ghost view = crate::sample::labels_view(labels@);
    let n = labels.len();
    if n == 0 {
        assert(out@ + label_block(view) =~= out@);
        return;
    }
    let ghost start = out@;
    out.append("{");
    let mut i: usize = 0;
    while i < n
        invariant
            n == labels@.len(),
            n > 0,
            view == crate::sample::labels_view(labels@),
            i <= n,
            out@ == start + "{"@ + label_list(view.take(i as int)),
        decreases n - i,
    {
        let ghost before = out@;
        if i > 0 {
            out.append(",");
        }
        push_underscored(out, labels[i].0.as_str());
        out.append("=\"");
        push_escaped(out, labels[i].1.as_str());
        out.append("\"");
        assert(view.take(i + 1).drop_last() =~= view.take(i as int));
        if i == 0 {
            assert(out@ =~= before + label_text(view[0]));
            assert(label_list(view.take(1)) == label_text(view.take(1)[0]));
        } else {
            assert(out@ =~= before + ","@ + label_text(view[i as int]));
        }
        i = i + 1;
        assert(out@ =~= start + "{"@ + label_list(view.take(i as int)));
    }
    out.append("}");
    assert(view.take(n as int) =~= view);
    assert(out@ =~= start + label_block(view));
}

/// Renders the samples in the Prometheus text format; `values[i]` is the
/// written value of `samples[i]`.
pub fn prometheus_text(samples: &Vec<MetricSample>, values: &Vec<String>) -> (r: String)
    requires
        samples@.len() == values@.len(),
    ensures
        r@ == exposition(samples_view(samples@), names_view(values@)),
{
    let ghost sv = samples_view(samples@);
    let ghost vv = names_view(values@);
    let mut out = String::new();
    let n = samples.len();
    let mut i: usize = 0;
    while i < n
        invariant
            n == samples@.len(),
            n == values@.len(),
            sv == samples_view(samples@),
            vv == names_view(values@),
            i <= n,
            out@ == exposition(sv.take(i as int), vv.take(i as int)),
        decreases n - i,
    {
        let ghost before = out@;
        let sample = &samples[i];
        out.append("computer_state_");
        push_underscored(&mut out, sample.metric.as_str());
        push_labels(&mut out, &sample.labels);
        out.append(" ");
        out.append(values[i].as_str());
        out.append("\n");
        assert(out@ =~= before + exposition_line(sv[i as int], vv[i as int]));
        assert(sv.take(i + 1).drop_last() =~= sv.take(i as int));
        assert(vv.take(i + 1).drop_last() =~= vv.take(i as int));
        i = i + 1;
    }
    assert(sv.take(n as int) =~= sv);
    assert(vv.take(n as int) =~= vv);
    out
}

} // verus!
