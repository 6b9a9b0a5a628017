//! The application settings: collection schedule, retention, HTTP access and
//! the metrics that are enabled.
use vstd::prelude::*;
use vstd::string::*;
use crate::catalog::{sorted_ids, sorted_metric_ids, lex_less, lemma_lex_less_total, lemma_lex_less_transitive, lemma_lex_less_irreflexive};
use crate::sample::key_less;
use crate::policy::{IpAddress, address_at};
use crate::text::str_eq;

verus! {

broadcast use vstd::string::group_string_axioms;

/// How often metrics are collected and how long they are kept.
#[derive(Debug, Clone)]
pub struct CollectionSettings {
    pub interval_seconds: u64,
    pub retention_days: u32,
}

/// Where the HTTP API listens and who may use it.
#[derive(Debug, Clone)]
pub struct HttpSettings {
    pub port: u16,
    pub allowed_interfaces: Vec<String>,
}

/// The whole settings document. `metrics` holds one `(name, enabled)` pair
/// per metric; a name that occurs twice counts by its first occurrence.
#[derive(Debug, Clone)]
pub struct AppSettings {
    pub version: u32,
    pub collection: CollectionSettings,
    pub http: HttpSettings,
    pub metrics: Vec<(String, bool)>,
}

/// What the settings file held when it was read.
pub enum StoredSettings {
    /// There was no settings file.
    Missing,
    /// The file could not be read as settings (it has been set aside).
    Malformed,
    /// The file held these settings.
    Parsed(AppSettings),
}

/// The `(name, enabled)` pairs as plain values.
pub open spec fn entries_view(entries: Seq<(String, bool)>) -> Seq<(Seq<char>, bool)> {
    entries.map_values(|e: (String, bool)| (e.0@, e.1))
}

/// Strings as plain values.
pub open spec fn names_view(names: Seq<String>) -> Seq<Seq<char>> {
    names.map_values(|s: String| s@)
}

/// The setting of metric `name`: the flag of its first pair, if any.
pub open spec fn setting_of(entries: Seq<(Seq<char>, bool)>, name: Seq<char>) -> Option<bool>
    decreases entries.len(),
{
    if entries.len() == 0 {
        None
    } else if entries[0].0 == name {
        Some(entries[0].1)
    } else {
        setting_of(entries.drop_first(), name)
    }
}

/// Whether metric `name` is enabled: it has a setting, and that setting is on.
pub open spec fn enabled_in(entries: Seq<(Seq<char>, bool)>, name: Seq<char>) -> bool {
    setting_of(entries, name) == Some(true)
}

/// The names of the enabled metrics, in the order of their first pairs: a
/// pair counts only where no earlier pair names the same metric.
pub open spec fn enabled_names(entries: Seq<(Seq<char>, bool)>) -> Seq<Seq<char>>
    decreases entries.len(),
{
    if entries.len() == 0 {
        Seq::empty()
    } else {
        let init = entries.drop_last();
        let rest = enabled_names(init);
        if entries.last().1 && setting_of(init, entries.last().0) is None {
            rest.push(entries.last().0)
        } else {
            rest
        }
    }
}

/// Whether the names of the pairs are strictly ascending, as the keys of a
/// map ordered by name are; so each metric has at most one pair.
pub open spec fn keys_in_order(entries: Seq<(Seq<char>, bool)>) -> bool {
    forall|i: int, j: int| 0 <= i < j < entries.len() ==> lex_less(entries[i].0, entries[j].0)
}

/// `sorted` with the pair `x` placed before the first pair whose name sorts
/// after its name.
pub open spec fn insert_in_order(sorted: Seq<(Seq<char>, bool)>, x: (Seq<char>, bool)) -> Seq<(Seq<char>, bool)>
    decreases sorted.len(),
{
    if sorted.len() == 0 {
        seq![x]
    } else if lex_less(x.0, sorted[0].0) {
        seq![x] + sorted
    } else {
        seq![sorted[0]] + insert_in_order(sorted.drop_first(), x)
    }
}

/// `sorted` with the pair `x` added in name order, unless its metric
/// already has a setting there.
pub open spec fn add_setting(sorted: Seq<(Seq<char>, bool)>, x: (Seq<char>, bool)) -> Seq<(Seq<char>, bool)> {
    if setting_of(sorted, x.0) is Some { sorted } else { insert_in_order(sorted, x) }
}

/// The pairs in name order, each metric with the setting of its first pair:
/// what a map keyed by metric name holds of them.
pub open spec fn normalized(entries: Seq<(Seq<char>, bool)>) -> Seq<(Seq<char>, bool)>
    decreases entries.len(),
{
    if entries.len() == 0 {
        Seq::empty()
    } else {
        add_setting(normalized(entries.drop_last()), entries.last())
    }
}

/// The pairs in name order once every name of `ids` that has no setting
/// yet has been added, enabled.
pub open spec fn migrate_with(entries: Seq<(Seq<char>, bool)>, ids: Seq<Seq<char>>) -> Seq<(Seq<char>, bool)>
    decreases ids.len(),
{
    if ids.len() == 0 {
        normalized(entries)
    } else {
        add_setting(migrate_with(entries, ids.drop_last()), (ids.last(), true))
    }
}

/// The default metric pairs: every catalog metric, enabled, in ascending order.
pub open spec fn default_entries() -> Seq<(Seq<char>, bool)> {
    sorted_ids().map_values(|id: Seq<char>| (id, true))
}

/// Whether `s` is the default settings document.
pub open spec fn is_default(s: AppSettings) -> bool {
    &&& s.version == 1
    &&& s.collection.interval_seconds == 60
    &&& s.collection.retention_days == 7
    &&& s.http.port == 8888
    &&& names_view(s.http.allowed_interfaces@) == seq!["loopback"@, "tailscale"@]
    &&& entries_view(s.metrics@) == default_entries()
}

/// Whether an allowed-interface entry is acceptable: a keyword, or text that
/// reads as an IP address.
pub open spec fn interface_valid(name: Seq<char>, address: Option<IpAddress>) -> bool {
    name == "loopback"@ || name == "tailscale"@ || address is Some
}

/// The first unacceptable allowed-interface entry at index `i` or later.
pub open spec fn invalid_interface_from(
    allowed: Seq<Seq<char>>,
    addresses: Seq<Option<IpAddress>>,
    i: int,
) -> Option<Seq<char>>
    decreases allowed.len() - i,
{
    if i < 0 || i >= allowed.len() {
        None
    } else if !interface_valid(allowed[i], address_at(addresses, i)) {
        Some(allowed[i])
    } else {
        invalid_interface_from(allowed, addresses, i + 1)
    }
}

/// What validation answers for `s`: the first rule it breaks, with its
/// message, or success.
pub open spec fn validation(s: AppSettings, addresses: Seq<Option<IpAddress>>) -> Result<(), Seq<char>> {
    if s.version != 1 {
        Err("unsupported settings version"@)
    } else if !(10 <= s.collection.interval_seconds <= 86_400) {
        Err("collection interval must be between 10 seconds and 24 hours"@)
    } else if !(1 <= s.collection.retention_days <= 365) {
        Err("retention must be between 1 and 365 days"@)
    } else if s.http.port == 0 {
        Err("port must be between 1 and 65535"@)
    } else if s.http.allowed_interfaces@.len() == 0 {
        Err("at least one allowed interface is required"@)
    } else {
        match invalid_interface_from(names_view(s.http.allowed_interfaces@), addresses, 0) {
            Some(name) => Err("invalid allowed interface: "@ + name),
            None => Ok(()),
        }
    }
}

impl Default for AppSettings {
    /// Collection every minute, seven days of history, port 8888 open to
    /// loopback and Tailscale peers, every metric enabled.
    fn default() -> (r: Self)
        ensures
            is_default(r),
            keys_in_order(entries_view(r.metrics@)),
    {
        proof {
            law_default_keys_in_order();
        }
        let ids = sorted_metric_ids();
        let mut metrics: Vec<(String, bool)> = Vec::new();
        let n = ids.len();
        let mut i: usize = 0;
        while i < n
            invariant
                n == ids@.len(),
                n == sorted_ids().len(),
                i <= n,
                forall|j: int| 0 <= j < ids@.len() ==> #[trigger] ids@[j]@ == sorted_ids()[j],
                entries_view(metrics@) =~= default_entries().take(i as int),
            decreases n - i,
        {
            let ghost before = entries_view(metrics@);
            let name = String::from_str(ids[i]);
            metrics.push((name, true));
            assert(entries_view(metrics@) =~= before.push((sorted_ids()[i as int], true)));
            i = i + 1;
            assert(entries_view(metrics@) =~= default_entries().take(i as int));
        }
        let mut allowed: Vec<String> = Vec::new();
        allowed.push(String::from_str("loopback"));
        allowed.push(String::from_str("tailscale"));
        assert(names_view(allowed@) =~= seq!["loopback"@, "tailscale"@]);
        assert(default_entries().take(n as int) =~= default_entries());
        AppSettings {
            version: 1,
            collection: CollectionSettings { interval_seconds: 60, retention_days: 7 },
            http: HttpSettings { port: 8888, allowed_interfaces: allowed },
            metrics,
        }
    }
}

proof fn lemma_setting_of_suffix(entries: Seq<(Seq<char>, bool)>, i: int, name: Seq<char>)
    requires
        0 <= i < entries.len(),
        entries[i].0 != name,
    ensures
        setting_of(entries.subrange(i, entries.len() as int), name)
            == setting_of(entries.subrange(i + 1, entries.len() as int), name),
{
    assert(entries.subrange(i, entries.len() as int).drop_first()
        =~= entries.subrange(i + 1, entries.len() as int));
}

/// The setting of metric `name` in `entries`, as `setting_of` states it.
pub fn lookup_setting(entries: &Vec<(String, bool)>, name: &str) -> (r: Option<bool>)
    ensures
        r == setting_of(entries_view(entries@), name@),
{
    let ghost view = entries_view(entries@);
    let n = entries.len();
    let mut i: usize = 0;
    assert(view.subrange(0, n as int) =~= view);
    while i < n
        invariant
            n == entries@.len(),
            view == entries_view(entries@),
            i <= n,
            setting_of(view, name@) == setting_of(view.subrange(i as int, n as int), name@),
        decreases n - i,
    {
        if str_eq(entries[i].0.as_str(), name) {
            assert(view.subrange(i as int, n as int)[0] == view[i as int]);
            return Some(entries[i].1);
        }
        proof {
            lemma_setting_of_suffix(view, i as int, name@);
        }
        i = i + 1;
    }
    assert(view.subrange(n as int, n as int).len() == 0);
    None
}

/// Whether a pair before index `i` names the metric `name`.
fn named_before(entries: &Vec<(String, bool)>, i: usize, name: &str) -> (r: bool)
    requires
        i <= entries@.len(),
    ensures
        r == (setting_of(entries_view(entries@).take(i as int), name@) is Some),
{
    let ghost view = entries_view(entries@);
    let mut j: usize = 0;
    while j < i
        invariant
            i <= entries@.len(),
            view == entries_view(entries@),
            j <= i,
            setting_of(view.take(j as int), name@) is None,
        decreases i - j,
    {
        if str_eq(entries[j].0.as_str(), name) {
            proof {
                assert(view.take(i as int)[j as int] == view[j as int]);
                lemma_setting_prefix(view.take(i as int), j as int);
            }
            return true;
        }
        proof {
            assert(view.take(j + 1) =~= view.take(j as int).push(view[j as int]));
            lemma_setting_of_push(view.take(j as int), view[j as int], name@);
        }
        j = j + 1;
    }
    false
}

impl AppSettings {
    /// Whether metric `name` is enabled (a metric without setting is not).
    pub fn metric_enabled(&self, name: &str) -> (r: bool)
        ensures
            r == enabled_in(entries_view(self.metrics@), name@),
    {
        match lookup_setting(&self.metrics, name) {
            Some(enabled) => enabled,
            None => false,
        }
    }

    /// The names of the enabled metrics, in the order of their first pairs.
    pub fn enabled_metrics(&self) -> (r: Vec<String>)
        ensures
            names_view(r@) == enabled_names(entries_view(self.metrics@)),
    {
        let ghost view = entries_view(self.metrics@);
        let n = self.metrics.len();
        let mut out: Vec<String> = Vec::new();
        let mut i: usize = 0;
        while i < n
            invariant
                n == self.metrics@.len(),
                view == entries_view(self.metrics@),
                i <= n,
                names_view(out@) =~= enabled_names(view.take(i as int)),
            decreases n - i,
        {
            assert(view.take(i as int + 1).drop_last() =~= view.take(i as int));
            if self.metrics[i].1 && !named_before(&self.metrics, i, self.metrics[i].0.as_str()) {
                out.push(self.metrics[i].0.clone());
            }
            i = i + 1;
            assert(names_view(out@) =~= enabled_names(view.take(i as int)));
        }
        assert(view.take(n as int) =~= view);
        out
    }

    /// Adds every catalog metric that has no setting yet, enabled; the pairs
    /// come out in name order, one per metric, each metric keeping the
    /// setting of its first pair. Nothing else changes.
    pub fn migrated(self) -> (r: Self)
        ensures
            r.version == self.version,
            r.collection == self.collection,
            r.http == self.http,
            entries_view(r.metrics@) == migrate_with(entries_view(self.metrics@), sorted_ids()),
            keys_in_order(entries_view(r.metrics@)),
    {
        let ghost initial = entries_view(self.metrics@);
        let mut out: Vec<(String, bool)> = Vec::new();
        let n = self.metrics.len();
        let mut i: usize = 0;
        assert(initial.take(0) =~= Seq::<(Seq<char>, bool)>::empty());
        assert(entries_view(out@) =~= Seq::<(Seq<char>, bool)>::empty());
        while i < n
            invariant
                n == self.metrics@.len(),
                initial == entries_view(self.metrics@),
                i <= n,
                entries_view(out@) == normalized(initial.take(i as int)),
                keys_in_order(entries_view(out@)),
            decreases n - i,
        {
            let ghost before = entries_view(out@);
            proof {
                assert(initial.take(i + 1).drop_last() =~= initial.take(i as int));
                assert(initial.take(i + 1).last() == initial[i as int]);
                lemma_add_setting(before, initial[i as int]);
            }
            let name = self.metrics[i].0.clone();
            let flag = self.metrics[i].1;
            if lookup_setting(&out, name.as_str()).is_none() {
                insert_setting(&mut out, name, flag);
            }
            i = i + 1;
        }
        assert(initial.take(n as int) =~= initial);
        let ids = sorted_metric_ids();
        let m = ids.len();
        let mut k: usize = 0;
        assert(sorted_ids().take(0) =~= Seq::<Seq<char>>::empty());
        while k < m
            invariant
                m == ids@.len(),
                m == sorted_ids().len(),
                k <= m,
                forall|j: int| 0 <= j < ids@.len() ==> #[trigger] ids@[j]@ == sorted_ids()[j],
                entries_view(out@) == migrate_with(initial, sorted_ids().take(k as int)),
                keys_in_order(entries_view(out@)),
            decreases m - k,
        {
            let ghost before = entries_view(out@);
            proof {
                assert(sorted_ids().take(k + 1).drop_last() =~= sorted_ids().take(k as int));
                assert(sorted_ids().take(k + 1).last() == sorted_ids()[k as int]);
                lemma_add_setting(before, (sorted_ids()[k as int], true));
            }
            if lookup_setting(&out, ids[k]).is_none() {
                insert_setting(&mut out, String::from_str(ids[k]), true);
            }
            k = k + 1;
        }
        assert(sorted_ids().take(m as int) =~= sorted_ids());
        AppSettings { version: self.version, collection: self.collection, http: self.http, metrics: out }
    }

    /// Checks the document against the limits the application accepts.
    /// `addresses[i]` is the IP address that allowed interface `i` parses
    /// as, if it parses as one.
    pub fn validate(&self, addresses: &Vec<Option<IpAddress>>) -> (r: Result<(), String>)
        ensures
            match r {
                Ok(()) => validation(*self, addresses@) == Ok::<(), Seq<char>>(()),
                Err(message) => validation(*self, addresses@) == Err::<(), Seq<char>>(message@),
            },
    {
        if self.version != 1 {
            return Err(String::from_str("unsupported settings version"));
        }
        if !(10 <= self.collection.interval_seconds && self.collection.interval_seconds <= 86_400) {
            return Err(String::from_str("collection interval must be between 10 seconds and 24 hours"));
        }
        if !(1 <= self.collection.retention_days && self.collection.retention_days <= 365) {
            return Err(String::from_str("retention must be between 1 and 365 days"));
        }
        if self.http.port == 0 {
            return Err(String::from_str("port must be between 1 and 65535"));
        }
        let allowed = &self.http.allowed_interfaces;
        if allowed.len() == 0 {
            return Err(String::from_str("at least one allowed interface is required"));
        }
        let ghost names = names_view(allowed@);
        let n = allowed.len();
        let mut i: usize = 0;
        while i < n
            invariant
                n == allowed@.len(),
                names == names_view(allowed@),
                allowed == &self.http.allowed_interfaces,
                self.version == 1,
                10 <= self.collection.interval_seconds <= 86_400,
                1 <= self.collection.retention_days <= 365,
                self.http.port != 0,
                n > 0,
                i <= n,
                invalid_interface_from(names, addresses@, 0) == invalid_interface_from(names, addresses@, i as int),
            decreases n - i,
        {
            let entry = allowed[i].as_str();
            let has_address = i < addresses.len() && addresses[i].is_some();
            if !(str_eq(entry, "loopback") || str_eq(entry, "tailscale") || has_address) {
                assert(names[i as int] == entry@);
                assert(!interface_valid(names[i as int], address_at(addresses@, i as int)));
                assert(invalid_interface_from(names, addresses@, i as int) == Some(names[i as int]));
                let mut message = String::from_str("invalid allowed interface: ");
                message.append(entry);
                return Err(message);
            }
            i = i + 1;
        }
        Ok(())
    }

    /// The settings to start from, given what the settings file held: the
    /// stored document brought up to date by `migrated`, or the defaults
    /// when there was none or it was malformed.
    pub fn from_stored(stored: StoredSettings) -> (r: Self)
        ensures
            match stored {
                StoredSettings::Parsed(s) => {
                    &&& r.version == s.version
                    &&& r.collection == s.collection
                    &&& r.http == s.http
                    &&& entries_view(r.metrics@) == migrate_with(entries_view(s.metrics@), sorted_ids())
                },
                _ => is_default(r),
            },
            keys_in_order(entries_view(r.metrics@)),
    {
        match stored {
            StoredSettings::Parsed(s) => s.migrated(),
            _ => AppSettings::default(),
        }
    }
}


proof fn lemma_setting_of_push(entries: Seq<(Seq<char>, bool)>, x: (Seq<char>, bool), name: Seq<char>)
    ensures
        setting_of(entries.push(x), name) == (if setting_of(entries, name) is Some {
            setting_of(entries, name)
        } else if x.0 == name {
            Some(x.1)
        } else {
            None
        }),
    decreases entries.len(),
{
    if entries.len() > 0 {
        assert(entries.push(x)[0] == entries[0]);
        assert(entries.push(x).drop_first() =~= entries.drop_first().push(x));
        lemma_setting_of_push(entries.drop_first(), x, name);
    } else {
        assert(entries.push(x)[0] == x);
        assert(entries.push(x).drop_first() =~= Seq::<(Seq<char>, bool)>::empty());
        assert(setting_of(Seq::<(Seq<char>, bool)>::empty(), name) is None);
    }
}

proof fn lemma_lex_less_asymmetric(a: Seq<char>, b: Seq<char>)
    requires
        lex_less(a, b),
    ensures
        !lex_less(b, a),
{
    if lex_less(b, a) {
        lemma_lex_less_transitive(a, b, a);
        lemma_lex_less_irreflexive(a);
    }
}

proof fn lemma_setting_of_front(x: (Seq<char>, bool), rest: Seq<(Seq<char>, bool)>, name: Seq<char>)
    ensures
        setting_of(seq![x] + rest, name) == (if x.0 == name { Some(x.1) } else { setting_of(rest, name) }),
{
    assert((seq![x] + rest)[0] == x);
    assert((seq![x] + rest).drop_first() =~= rest);
}

proof fn lemma_ordered_absent(entries: Seq<(Seq<char>, bool)>, name: Seq<char>)
    requires
        keys_in_order(entries),
        forall|j: int| 0 <= j < entries.len() ==> lex_less(#[trigger] entries[j].0, name),
    ensures
        setting_of(entries, name) is None,
{
    if setting_of(entries, name) is Some {
        lemma_setting_of_found(entries, name);
        let i = choose|i: int| 0 <= i < entries.len() && entries[i].0 == name && entries[i].1 == setting_of(entries, name)->0;
        lemma_lex_less_irreflexive(name);
    }
}

proof fn lemma_insert_in_order(s: Seq<(Seq<char>, bool)>, x: (Seq<char>, bool))
    requires
        keys_in_order(s),
        setting_of(s, x.0) is None,
    ensures
        keys_in_order(insert_in_order(s, x)),
        forall|name: Seq<char>| #[trigger] setting_of(insert_in_order(s, x), name)
            == (if name == x.0 { Some(x.1) } else { setting_of(s, name) }),
        forall|i: int| 0 <= i < insert_in_order(s, x).len() ==>
            #[trigger] insert_in_order(s, x)[i] == x || s.contains(insert_in_order(s, x)[i]),
    decreases s.len(),
{
    let r = insert_in_order(s, x);
    if s.len() == 0 {
        assert forall|name: Seq<char>| #[trigger] setting_of(r, name) == (if name == x.0 { Some(x.1) } else { setting_of(s, name) }) by {
            lemma_setting_of_front(x, s, name);
        }
        assert(r =~= seq![x] + s);
    } else if lex_less(x.0, s[0].0) {
        assert forall|name: Seq<char>| #[trigger] setting_of(r, name) == (if name == x.0 { Some(x.1) } else { setting_of(s, name) }) by {
            lemma_setting_of_front(x, s, name);
        }
        assert forall|i: int, j: int| 0 <= i < j < r.len() implies lex_less(r[i].0, r[j].0) by {
            if i == 0 {
                if j > 1 {
                    lemma_lex_less_transitive(x.0, s[0].0, s[j - 1].0);
                }
            }
        }
        assert forall|i: int| 0 <= i < r.len() implies #[trigger] r[i] == x || s.contains(r[i]) by {
            if i > 0 {
                assert(s[i - 1] == r[i]);
            }
        }
    } else {
        let s0 = s[0];
        let t = s.drop_first();
        assert(s0.0 != x.0);
        lemma_lex_less_total(s0.0, x.0);
        assert(lex_less(s0.0, x.0));
        assert(keys_in_order(t)) by {
            assert forall|i: int, j: int| 0 <= i < j < t.len() implies lex_less(t[i].0, t[j].0) by {
                assert(t[i] == s[i + 1] && t[j] == s[j + 1]);
            }
        }
        lemma_insert_in_order(t, x);
        let rest = insert_in_order(t, x);
        assert(r == seq![s0] + rest);
        assert forall|name: Seq<char>| #[trigger] setting_of(r, name) == (if name == x.0 { Some(x.1) } else { setting_of(s, name) }) by {
            lemma_setting_of_front(s0, rest, name);
            assert(s =~= seq![s0] + t);
            lemma_setting_of_front(s0, t, name);
        }
        assert forall|i: int| 0 <= i < r.len() implies #[trigger] r[i] == x || s.contains(r[i]) by {
            if i == 0 {
                assert(s[0] == r[0]);
            } else {
                assert(r[i] == rest[i - 1]);
                if rest[i - 1] != x {
                    let k = choose|k: int| 0 <= k < t.len() && t[k] == rest[i - 1];
                    assert(s[k + 1] == r[i]);
                }
            }
        }
        assert forall|i: int, j: int| 0 <= i < j < r.len() implies lex_less(r[i].0, r[j].0) by {
            if i == 0 {
                assert(r[j] == rest[j - 1]);
                if rest[j - 1] != x {
                    let k = choose|k: int| 0 <= k < t.len() && t[k] == rest[j - 1];
                    assert(s[k + 1] == r[j]);
                }
            } else {
                assert(r[i] == rest[i - 1] && r[j] == rest[j - 1]);
            }
        }
    }
}

proof fn lemma_add_setting(s: Seq<(Seq<char>, bool)>, x: (Seq<char>, bool))
    requires
        keys_in_order(s),
    ensures
        keys_in_order(add_setting(s, x)),
        forall|name: Seq<char>| #[trigger] setting_of(add_setting(s, x), name) == (if setting_of(s, name) is Some {
            setting_of(s, name)
        } else if name == x.0 {
            Some(x.1)
        } else {
            None
        }),
{
    if setting_of(s, x.0) is None {
        lemma_insert_in_order(s, x);
    }
}

proof fn lemma_insert_at(s: Seq<(Seq<char>, bool)>, x: (Seq<char>, bool), p: int)
    requires
        0 <= p <= s.len(),
        forall|j: int| 0 <= j < p ==> !lex_less(x.0, #[trigger] s[j].0),
        p < s.len() ==> lex_less(x.0, s[p].0),
    ensures
        insert_in_order(s, x) == s.insert(p, x),
    decreases p,
{
    if p == 0 {
        if s.len() == 0 {
            assert(seq![x] =~= s.insert(0, x));
        } else {
            assert(seq![x] + s =~= s.insert(0, x));
        }
    } else {
        let t = s.drop_first();
        assert forall|j: int| 0 <= j < p - 1 implies !lex_less(x.0, #[trigger] t[j].0) by {
            assert(t[j] == s[j + 1]);
        }
        lemma_insert_at(t, x, p - 1);
        assert(seq![s[0]] + t.insert(p - 1, x) =~= s.insert(p, x));
    }
}

/// Adds the pair `(name, flag)` to pairs in name order, before the first
/// pair whose name sorts after `name`.
fn insert_setting(out: &mut Vec<(String, bool)>, name: String, flag: bool)
    requires
        keys_in_order(entries_view(old(out)@)),
        setting_of(entries_view(old(out)@), name@) is None,
    ensures
        entries_view(final(out)@) == insert_in_order(entries_view(old(out)@), (name@, flag)),
{
    let ghost view = entries_view(out@);
    let n = out.len();
    let mut p: usize = 0;
    let mut placed = false;
    while !placed && p < n
        invariant
            n == out@.len(),
            view == entries_view(out@),
            p <= n,
            placed ==> p < n && lex_less(name@, view[p as int].0),
            forall|j: int| 0 <= j < p ==> !lex_less(name@, #[trigger] view[j].0),
        decreases n - p + (if placed { 0int } else { 1int }),
    {
        if key_less(name.as_str(), out[p].0.as_str()) {
            placed = true;
        } else {
            p = p + 1;
        }
    }
    proof {
        lemma_insert_at(view, (name@, flag), p as int);
    }
    out.insert(p, (name, flag));
    assert(entries_view(out@) =~= view.insert(p as int, (name@, flag)));
}

proof fn lemma_normalized(entries: Seq<(Seq<char>, bool)>)
    ensures
        keys_in_order(normalized(entries)),
        forall|name: Seq<char>| #[trigger] setting_of(normalized(entries), name) == setting_of(entries, name),
    decreases entries.len(),
{
    if entries.len() == 0 {
        assert forall|name: Seq<char>| #[trigger] setting_of(normalized(entries), name) == setting_of(entries, name) by {}
    } else {
        let init = entries.drop_last();
        lemma_normalized(init);
        lemma_add_setting(normalized(init), entries.last());
        assert(init.push(entries.last()) =~= entries);
        assert forall|name: Seq<char>| #[trigger] setting_of(normalized(entries), name) == setting_of(entries, name) by {
            lemma_setting_of_push(init, entries.last(), name);
        }
    }
}

/// The setting that migrating with `ids` gives metric `name`: the one it
/// had, else enabled for a name of `ids`, else none.
pub open spec fn migrated_setting(entries: Seq<(Seq<char>, bool)>, ids: Seq<Seq<char>>, name: Seq<char>) -> Option<bool> {
    if setting_of(entries, name) is Some {
        setting_of(entries, name)
    } else if ids.contains(name) {
        Some(true)
    } else {
        None
    }
}

proof fn lemma_migrate(entries: Seq<(Seq<char>, bool)>, ids: Seq<Seq<char>>)
    ensures
        keys_in_order(migrate_with(entries, ids)),
        forall|name: Seq<char>| #[trigger] setting_of(migrate_with(entries, ids), name) == migrated_setting(entries, ids, name),
    decreases ids.len(),
{
    if ids.len() == 0 {
        lemma_normalized(entries);
    } else {
        let init = ids.drop_last();
        lemma_migrate(entries, init);
        lemma_add_setting(migrate_with(entries, init), (ids.last(), true));
        assert forall|name: Seq<char>| #[trigger] setting_of(migrate_with(entries, ids), name) == migrated_setting(entries, ids, name) by {
            if ids.contains(name) && name != ids.last() {
                let k = choose|k: int| 0 <= k < ids.len() && ids[k] == name;
                assert(init[k] == name);
            }
            if init.contains(name) {
                let k = choose|k: int| 0 <= k < init.len() && init[k] == name;
                assert(ids[k] == name);
            }
            assert(ids[ids.len() - 1] == ids.last());
        }
    }
}

proof fn lemma_insert_at_end(t: Seq<(Seq<char>, bool)>, x: (Seq<char>, bool))
    requires
        forall|j: int| 0 <= j < t.len() ==> lex_less(#[trigger] t[j].0, x.0),
    ensures
        insert_in_order(t, x) == t.push(x),
    decreases t.len(),
{
    if t.len() == 0 {
        assert(seq![x] =~= t.push(x));
    } else {
        lemma_lex_less_asymmetric(t[0].0, x.0);
        let rest = t.drop_first();
        assert forall|j: int| 0 <= j < rest.len() implies lex_less(#[trigger] rest[j].0, x.0) by {
            assert(rest[j] == t[j + 1]);
        }
        lemma_insert_at_end(rest, x);
        assert(seq![t[0]] + rest.push(x) =~= t.push(x));
    }
}

proof fn lemma_normalized_of_ordered(s: Seq<(Seq<char>, bool)>)
    requires
        keys_in_order(s),
    ensures
        normalized(s) == s,
    decreases s.len(),
{
    if s.len() > 0 {
        let init = s.drop_last();
        assert(keys_in_order(init)) by {
            assert forall|i: int, j: int| 0 <= i < j < init.len() implies lex_less(init[i].0, init[j].0) by {
                assert(init[i] == s[i] && init[j] == s[j]);
            }
        }
        lemma_normalized_of_ordered(init);
        assert forall|j: int| 0 <= j < init.len() implies lex_less(#[trigger] init[j].0, s.last().0) by {
            assert(init[j] == s[j]);
        }
        lemma_ordered_absent(init, s.last().0);
        lemma_insert_at_end(init, s.last());
        assert(init.push(s.last()) =~= s);
    }
}

proof fn lemma_migrate_noop(s: Seq<(Seq<char>, bool)>, ids: Seq<Seq<char>>)
    requires
        keys_in_order(s),
        forall|k: int| 0 <= k < ids.len() ==> setting_of(s, #[trigger] ids[k]) is Some,
    ensures
        migrate_with(s, ids) == s,
    decreases ids.len(),
{
    if ids.len() == 0 {
        lemma_normalized_of_ordered(s);
    } else {
        assert forall|k: int| 0 <= k < ids.drop_last().len() implies setting_of(s, #[trigger] ids.drop_last()[k]) is Some by {
            assert(ids.drop_last()[k] == ids[k]);
        }
        lemma_migrate_noop(s, ids.drop_last());
        assert(setting_of(s, ids[ids.len() - 1]) is Some);
    }
}

/// Migration keeps every choice already made: a metric that had a setting
/// keeps the setting of its first pair.
pub proof fn law_migration_keeps_choices(entries: Seq<(Seq<char>, bool)>, name: Seq<char>)
    requires
        setting_of(entries, name) is Some,
    ensures
        setting_of(migrate_with(entries, sorted_ids()), name) == setting_of(entries, name),
{
    lemma_migrate(entries, sorted_ids());
}

/// After migration every catalog metric has a setting, and a metric outside
/// the catalog has one only if it had one before.
pub proof fn law_migration_covers_catalog(entries: Seq<(Seq<char>, bool)>, name: Seq<char>)
    ensures
        sorted_ids().contains(name) ==> setting_of(migrate_with(entries, sorted_ids()), name) is Some,
        !sorted_ids().contains(name) ==> setting_of(migrate_with(entries, sorted_ids()), name) == setting_of(entries, name),
{
    lemma_migrate(entries, sorted_ids());
}

/// Migration gives the pairs in strictly ascending name order, one pair per
/// metric, as the map of the settings file holds them.
pub proof fn law_migration_in_key_order(entries: Seq<(Seq<char>, bool)>)
    ensures
        keys_in_order(migrate_with(entries, sorted_ids())),
{
    lemma_migrate(entries, sorted_ids());
}

/// Migrating twice is migrating once.
pub proof fn law_migration_idempotent(entries: Seq<(Seq<char>, bool)>)
    ensures
        migrate_with(migrate_with(entries, sorted_ids()), sorted_ids()) == migrate_with(entries, sorted_ids()),
{
    let m = migrate_with(entries, sorted_ids());
    lemma_migrate(entries, sorted_ids());
    assert forall|k: int| 0 <= k < sorted_ids().len() implies setting_of(m, #[trigger] sorted_ids()[k]) is Some by {
        assert(sorted_ids().contains(sorted_ids()[k]));
    }
    lemma_migrate_noop(m, sorted_ids());
}

/// The default metric pairs are in strictly ascending name order.
pub proof fn law_default_keys_in_order()
    ensures
        keys_in_order(default_entries()),
{
    assert forall|i: int, j: int| 0 <= i < j < default_entries().len() implies lex_less(default_entries()[i].0, default_entries()[j].0) by {
        crate::catalog::law_sorted_ids_ascending(i, j);
    }
}

/// Migration leaves the default metric settings as they are.
pub proof fn law_defaults_need_no_migration()
    ensures
        migrate_with(default_entries(), sorted_ids()) == default_entries(),
{
    law_default_keys_in_order();
    assert forall|k: int| 0 <= k < sorted_ids().len() implies setting_of(default_entries(), #[trigger] sorted_ids()[k]) is Some by {
        lemma_setting_prefix(default_entries(), k);
    }
    lemma_migrate_noop(default_entries(), sorted_ids());
}

proof fn lemma_no_invalid_interface(allowed: Seq<Seq<char>>, addresses: Seq<Option<IpAddress>>, i: int)
    requires
        0 <= i <= allowed.len(),
    ensures
        invalid_interface_from(allowed, addresses, i) is None <==> forall|j: int| i <= j < allowed.len() ==> (
            #[trigger] allowed[j] == "loopback"@ || allowed[j] == "tailscale"@ || address_at(addresses, j) is Some),
    decreases allowed.len() - i,
{
    if i < allowed.len() {
        lemma_no_invalid_interface(allowed, addresses, i + 1);
    }
}

/// A settings document is accepted exactly when its version is 1, it
/// collects every 10 seconds to 24 hours, keeps 1 to 365 days of history,
/// listens on a port from 1 to 65535, and allows at least one interface,
/// each `loopback`, `tailscale` or an IP address.
pub proof fn law_validation_accepts_exactly(s: AppSettings, addresses: Seq<Option<IpAddress>>)
    ensures
        validation(s, addresses) is Ok <==> ({
            let allowed = names_view(s.http.allowed_interfaces@);
            &&& s.version == 1
            &&& 10 <= s.collection.interval_seconds <= 86_400
            &&& 1 <= s.collection.retention_days <= 365
            &&& 1 <= s.http.port <= 65_535
            &&& allowed.len() >= 1
            &&& forall|j: int| 0 <= j < allowed.len() ==> (#[trigger] allowed[j] == "loopback"@
                || allowed[j] == "tailscale"@ || address_at(addresses, j) is Some)
        }),
{
    lemma_no_invalid_interface(names_view(s.http.allowed_interfaces@), addresses, 0);
}

/// The default settings are valid, whatever the allowed interfaces parse as.
pub proof fn law_defaults_are_valid(s: AppSettings, addresses: Seq<Option<IpAddress>>)
    requires
        is_default(s),
    ensures
        validation(s, addresses) == Ok::<(), Seq<char>>(()),
{
    let names = names_view(s.http.allowed_interfaces@);
    assert(names[0] == "loopback"@);
    assert(names[1] == "tailscale"@);
    assert(invalid_interface_from(names, addresses, 2) is None);
    assert(invalid_interface_from(names, addresses, 1) is None);
}

proof fn lemma_setting_of_found(entries: Seq<(Seq<char>, bool)>, name: Seq<char>)
    requires
        setting_of(entries, name) is Some,
    ensures
        exists|i: int| 0 <= i < entries.len() && entries[i].0 == name && entries[i].1 == setting_of(entries, name)->0,
    decreases entries.len(),
{
    if entries[0].0 != name {
        let rest = entries.drop_first();
        lemma_setting_of_found(rest, name);
        let i = choose|i: int| 0 <= i < rest.len() && rest[i].0 == name && rest[i].1 == setting_of(rest, name)->0;
        assert(entries[i + 1] == rest[i]);
    }
}

/// The metrics that a collection run asks for (`enabled_metrics`) are
/// exactly those that count as enabled elsewhere (`metric_enabled`).
pub proof fn law_enabled_names_match(entries: Seq<(Seq<char>, bool)>, name: Seq<char>)
    ensures
        enabled_names(entries).contains(name) <==> enabled_in(entries, name),
    decreases entries.len(),
{
    if entries.len() == 0 {
        assert(enabled_names(entries).len() == 0);
    } else {
        let init = entries.drop_last();
        let x = entries.last();
        let rest = enabled_names(init);
        law_enabled_names_match(init, name);
        assert(init.push(x) =~= entries);
        lemma_setting_of_push(init, x, name);
        if x.1 && setting_of(init, x.0) is None {
            assert(rest.push(x.0)[rest.len() as int] == x.0);
            if rest.push(x.0).contains(name) && name != x.0 {
                let k = choose|k: int| 0 <= k < rest.push(x.0).len() && rest.push(x.0)[k] == name;
                assert(rest[k] == name);
            }
            if rest.contains(name) {
                let k = choose|k: int| 0 <= k < rest.len() && rest[k] == name;
                assert(rest.push(x.0)[k] == name);
            }
        }
    }
}

proof fn lemma_setting_prefix(entries: Seq<(Seq<char>, bool)>, k: int)
    requires
        0 <= k < entries.len(),
    ensures
        setting_of(entries, entries[k].0) is Some,
    decreases k,
{
    if k > 0 && entries[0].0 != entries[k].0 {
        lemma_setting_prefix(entries.drop_first(), k - 1);
    }
}

} // verus!
