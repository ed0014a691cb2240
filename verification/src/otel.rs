//! Telemetry: where it goes, which records stay out of it, and the values that
//! one export reads.
use vstd::prelude::*;
use vstd::string::StringExecFns;
use crate::broker::{Broker, BrokerView};
use crate::config::{check_otlp_protocol, is_otlp_protocol, otlp_protocol_fault, Config};
use crate::error::Result;
use crate::metrics::snapshot::SeriesView;
use crate::metrics::{Series, Snapshot};
use crate::text;
use crate::text::{chars_of, has_prefix, starts_with_chars, string_of};

verus! {

broadcast use text::group_views;

/// How many log records wait for export at most; more are dropped.
pub const LOG_QUEUE_SIZE: usize = 2048;

/// Seconds that a collector has to take a batch.
pub const EXPORT_TIMEOUT: u64 = 10;

/// A text without slashes at its end.
pub open spec fn without_slashes(s: Seq<char>) -> Seq<char>
    decreases s.len(),
{
    if s.len() > 0 && s.last() == '/' {
        without_slashes(s.drop_last())
    } else {
        s
    }
}

/// The address of a signal under a base address.
pub fn signal_url(base: &str, path: &str) -> (r: String)
    ensures
        r@ == without_slashes(base@) + "/"@ + path@,
{
    let c: Vec<char> = chars_of(base);
    let mut n: usize = c.len();
    assert(c@.take(n as int) =~= c@);
    while n > 0 && c[n - 1] == '/'
        invariant
            n <= c@.len(),
            without_slashes(c@) == without_slashes(c@.take(n as int)),
        decreases n,
    {
        assert(c@.take(n as int).drop_last() =~= c@.take(n - 1));
        n = n - 1;
    }
    let kept: &[char] = vstd::slice::slice_subrange(c.as_slice(), 0, n);
    assert(kept@ =~= c@.take(n as int));
    let mut r: String = string_of(kept);
    r.append("/");
    r.append(path);
    r
}

/// Whether a target is a module or one of its submodules.
pub open spec fn is_under(target: Seq<char>, module: Seq<char>) -> bool {
    has_prefix(target, module) && (target.len() == module.len() || has_prefix(
        target.skip(module.len() as int),
        seq![':', ':'],
    ))
}

/// Whether records of a target stay out of the export: those of the exporter
/// itself and of what it is made of. A failing export would otherwise make
/// records that are exported in turn, without end.
pub open spec fn stays_out(target: Seq<char>) -> bool {
    ||| is_under(target, "opentelemetry"@)
    ||| is_under(target, "opentelemetry_sdk"@)
    ||| is_under(target, "opentelemetry_otlp"@)
    ||| is_under(target, "reqwest"@)
    ||| is_under(target, "hyper"@)
    ||| is_under(target, "hyper_util"@)
    ||| is_under(target, "h2"@)
    ||| is_under(target, "rustls"@)
    ||| is_under(target, "tower"@)
}

fn under(target: &[char], module: &str) -> (r: bool)
    ensures
        r == is_under(target@, module@),
{
    let m: Vec<char> = chars_of(module);
    if !starts_with_chars(target, m.as_slice()) {
        return false;
    }
    if target.len() == m.len() {
        return true;
    }
    let rest: &[char] = vstd::slice::slice_subrange(target, m.len(), target.len());
    assert(rest@ =~= target@.skip(m@.len() as int));
    let mut colons: Vec<char> = Vec::new();
    colons.push(':');
    colons.push(':');
    assert(colons@ =~= seq![':', ':']);
    starts_with_chars(rest, colons.as_slice())
}

/// Whether records of a target stay out of the export.
pub fn is_exporter_target(target: &str) -> (r: bool)
    ensures
        r == stays_out(target@),
{
    let t: Vec<char> = chars_of(target);
    let t: &[char] = t.as_slice();
    under(t, "opentelemetry") || under(t, "opentelemetry_sdk") || under(t, "opentelemetry_otlp")
        || under(t, "reqwest") || under(t, "hyper") || under(t, "hyper_util") || under(t, "h2")
        || under(t, "rustls") || under(t, "tower")
}

/// What is exported, where to and how often.
#[derive(Debug)]
pub struct Export {
    pub endpoint: String,
    pub headers: Vec<(String, String)>,
    /// Seconds between two exports.
    pub interval: u32,
    pub metrics: bool,
    pub logs: bool,
}

/// What is exported with a configuration: nothing without an endpoint. The
/// protocol has to be one that can be spoken.
pub fn export_plan(cfg: &Config) -> (r: Result<Option<Export>>)
    ensures
        match r {
            Ok(None) => cfg@.otlp_endpoint is None,
            Ok(Some(e)) => cfg@.otlp_endpoint == Some(e.endpoint@) && is_otlp_protocol(
                cfg@.otlp_protocol,
            ) && text::pair_views(e.headers@) == cfg@.otlp_headers && e.interval == (
            if cfg@.otlp_interval == 0 {
                1
            } else {
                cfg@.otlp_interval
            }) && e.metrics == cfg@.otlp_metrics && e.logs == cfg@.otlp_logs,
            Err(e) => cfg@.otlp_endpoint is Some && !is_otlp_protocol(cfg@.otlp_protocol)
                && e.says_config(otlp_protocol_fault(cfg@.otlp_protocol)),
        },
{
    let endpoint: String = match &cfg.otlp_endpoint {
        Some(e) => e.clone(),
        None => {
            return Ok(None);
        },
    };
    match check_otlp_protocol(cfg.otlp_protocol.as_str()) {
        Ok(_) => {},
        Err(e) => {
            return Err(e);
        },
    }
    let interval: u32 = if cfg.otlp_interval == 0 {
        1
    } else {
        cfg.otlp_interval
    };
    Ok(
        Some(
            Export {
                endpoint,
                headers: cfg.otlp_headers.iter(),
                interval,
                metrics: cfg.otlp_metrics,
                logs: cfg.otlp_logs,
            },
        ),
    )
}

/// The values of series.
pub open spec fn series_values(s: Seq<SeriesView>) -> Seq<u64> {
    Seq::new(s.len(), |i: int| s[i].value)
}

/// The values of one snapshot, which all readers of an export share. They are
/// taken anew once they are as old as half the time between two exports.
pub struct SnapshotCache {
    values: Vec<u64>,
    taken: u64,
    max_age: u64,
}

/// The values of one snapshot.
pub struct SnapshotCacheView {
    pub values: Seq<u64>,
    /// When they were taken, in milliseconds.
    pub taken: u64,
    /// How old they may become, in milliseconds.
    pub max_age: u64,
}

impl View for SnapshotCache {
    type V = SnapshotCacheView;

    closed spec fn view(&self) -> SnapshotCacheView {
        SnapshotCacheView { values: self.values@, taken: self.taken, max_age: self.max_age }
    }
}

impl SnapshotCacheView {
    /// Whether the values are too old at a time.
    pub open spec fn stale(self, at: u64) -> bool {
        at - self.taken >= self.max_age
    }

    /// The value at a place.
    pub open spec fn at(self, index: int) -> u64 {
        if 0 <= index < self.values.len() {
            self.values[index]
        } else {
            0
        }
    }
}

/// The values of a broker's statistics.
pub open spec fn values_of(b: BrokerView, uptime: u64) -> Seq<u64> {
    series_values(b.statistics(uptime).all_series())
}

fn read_values(broker: &mut Broker, now: u64, uptime: u64) -> (r: Vec<u64>)
    requires
        old(broker).wf(),
    ensures
        final(broker).wf(),
        final(broker)@ == old(broker)@.purged(now),
        r@ == values_of(final(broker)@, uptime),
{
    let snapshot: Snapshot = broker.snapshot(now, uptime);
    let series: Vec<Series> = snapshot.series();
    let ghost all = snapshot.all_series();
    let mut out: Vec<u64> = Vec::new();
    let mut i: usize = 0;
    while i < series.len()
        invariant
            i <= series@.len(),
            all == text::views(series@),
            out@.len() == i,
            forall|j: int| 0 <= j < i ==> #[trigger] out@[j] == all[j].value,
        decreases series.len() - i,
    {
        assert(all[i as int] == series@[i as int]@);
        out.push(series[i].value);
        i = i + 1;
    }
    assert(all.len() == series@.len());
    assert(out@ =~= series_values(all));
    out
}

impl SnapshotCache {
    /// Takes the values of a broker at `at` milliseconds, for exports every
    /// `interval` seconds.
    pub fn new(broker: &mut Broker, interval: u32, at: u64, now: u64, uptime: u64) -> (r: Self)
        requires
            old(broker).wf(),
        ensures
            final(broker).wf(),
            final(broker)@ == old(broker)@.purged(now),
            r@ == (SnapshotCacheView {
                values: values_of(final(broker)@, uptime),
                taken: at,
                max_age: (interval * 500) as u64,
            }),
    {
        let values: Vec<u64> = read_values(broker, now, uptime);
        SnapshotCache { values, taken: at, max_age: interval as u64 * 500 }
    }

    /// The value of the series at a place, at `at` milliseconds.
    pub fn value(&mut self, broker: &mut Broker, index: usize, at: u64, now: u64, uptime: u64) -> (r:
        u64)
        requires
            old(broker).wf(),
        ensures
            final(broker).wf(),
            r == final(self)@.at(index as int),
            if old(self)@.stale(at) {
                final(broker)@ == old(broker)@.purged(now) && final(self)@ == (SnapshotCacheView {
                    values: values_of(final(broker)@, uptime),
                    taken: at,
                    ..old(self)@
                })
            } else {
                final(broker)@ == old(broker)@ && final(self)@ == old(self)@
            },
    {
        if at >= self.taken && at - self.taken >= self.max_age {
            self.values = read_values(broker, now, uptime);
            self.taken = at;
        }
        if index < self.values.len() {
            self.values[index]
        } else {
            0
        }
    }
}

/// Values that are read soon after one another are those of one snapshot.
pub proof fn one_export_reads_one_snapshot(c: SnapshotCacheView, at: u64, later: u64)
    requires
        c.taken == at,
        at <= later,
        later - at < c.max_age,
    ensures
        !c.stale(later),
{
}

/// A base address keeps all but the slashes at its end, and all of those go.
pub proof fn only_slashes_at_the_end_go(s: Seq<char>)
    ensures
        without_slashes(s).is_prefix_of(s),
        without_slashes(s).len() > 0 ==> without_slashes(s).last() != '/',
        forall|i: int| without_slashes(s).len() <= i < s.len() ==> #[trigger] s[i] == '/',
    decreases s.len(),
{
    if s.len() > 0 && s.last() == '/' {
        let d = s.drop_last();
        only_slashes_at_the_end_go(d);
        assert forall|i: int| without_slashes(s).len() <= i < s.len() implies #[trigger] s[i] == '/' by {
            if i < d.len() {
                assert(d[i] == '/');
            }
        }
    }
}

} // verus!
