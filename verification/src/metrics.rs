//! Query metrics: a counting collector and the names of the Prometheus
//! metrics a named collector registers.

use vstd::prelude::*;
use crate::error::PluginError;
use crate::error::ErrView;
use crate::sets::{prefix_error_view, unsupported_prefix};
use crate::text::{
    append_chars, chars_eq, chars_of, has_prefix, owned, slice_chars, starts_with,
    string_from_chars, trim, trim_chars,
};

verus! {

/// Counts queries and adds up their latencies. Times are milliseconds on a
/// clock the caller reads.
#[derive(Debug, Clone)]
pub struct MetricsCollectorPlugin {
    /// Queries counted since the last reset.
    pub counter: usize,
    /// When the collector was made.
    pub start_time_ms: u64,
    /// When the counters were last reset.
    pub last_reset_ms: u64,
    /// Sum of the latencies reported, in whole milliseconds.
    pub total_latency_ms: usize,
}

impl MetricsCollectorPlugin {
    /// A collector starting from `counter` queries at time `now_ms`.
    pub fn new(counter: usize, now_ms: u64) -> (p: MetricsCollectorPlugin)
        ensures
            p.counter == counter,
            p.start_time_ms == now_ms,
            p.last_reset_ms == now_ms,
            p.total_latency_ms == 0,
    {
        MetricsCollectorPlugin {
            counter,
            start_time_ms: now_ms,
            last_reset_ms: now_ms,
            total_latency_ms: 0,
        }
    }

    /// The number of queries counted.
    pub fn count(&self) -> (n: usize)
        ensures
            n == self.counter,
    {
        self.counter
    }

    /// Counts one query and, when given, its latency in milliseconds; the
    /// counters wrap as atomic counters do.
    pub fn record(&mut self, latency_ms: Option<usize>)
        ensures
            final(self).counter == old(self).counter.wrapping_add(1),
            final(self).total_latency_ms == match latency_ms {
                Some(l) => old(self).total_latency_ms.wrapping_add(l),
                None => old(self).total_latency_ms,
            },
            final(self).start_time_ms == old(self).start_time_ms,
            final(self).last_reset_ms == old(self).last_reset_ms,
    {
        self.counter = self.counter.wrapping_add(1);
        match latency_ms {
            Some(l) => {
                self.total_latency_ms = self.total_latency_ms.wrapping_add(l);
            },
            None => {},
        }
    }

    /// Sets the counters to zero and the reset time to `now_ms`.
    pub fn reset(&mut self, now_ms: u64)
        ensures
            final(self).counter == 0,
            final(self).total_latency_ms == 0,
            final(self).last_reset_ms == now_ms,
            final(self).start_time_ms == old(self).start_time_ms,
    {
        self.counter = 0;
        self.total_latency_ms = 0;
        self.last_reset_ms = now_ms;
    }

    /// Milliseconds since the last reset (0 if the clock went back).
    pub fn time_since_reset(&self, now_ms: u64) -> (d: u64)
        ensures
            d == if now_ms >= self.last_reset_ms {
                (now_ms - self.last_reset_ms) as u64
            } else {
                0
            },
    {
        if now_ms >= self.last_reset_ms {
            now_ms - self.last_reset_ms
        } else {
            0
        }
    }

    /// The plugin's registered name.
    pub fn name(&self) -> (s: &'static str)
        ensures
            s@ == "metrics_collector"@,
    {
        "metrics_collector"
    }

    /// Sets the collector up from its exec form; the prefix must be
    /// `metrics_collector` and the rest is ignored.
    pub fn quick_setup(prefix: &str, exec_str: &str, now_ms: u64) -> (r: Result<MetricsCollectorPlugin, PluginError>)
        ensures
            r is Ok <==> prefix@ == "metrics_collector"@,
            r matches Ok(p) ==> p.counter == 0 && p.total_latency_ms == 0 && p.last_reset_ms == now_ms,
            r matches Err(e) ==> e.view() == prefix_error_view(prefix@, "metrics_collector"@),
    {
        let p = chars_of(prefix);
        let want = chars_of("metrics_collector");
        if !chars_eq(&p, &want) {
            return Err(unsupported_prefix(prefix, "metrics_collector"));
        }
        Ok(MetricsCollectorPlugin::new(0, now_ms))
    }
}

/// `s` with every `-` replaced by `_`.
pub open spec fn underscored(s: Seq<char>) -> Seq<char> {
    s.map_values(|c: char| if c == '-' { '_' } else { c })
}

fn underscore_chars(s: &Vec<char>) -> (r: Vec<char>)
    ensures
        r@ == underscored(s@),
{
    let mut r: Vec<char> = Vec::new();
    let mut i: usize = 0;
    while i < s.len()
        invariant
            i <= s@.len(),
            r@ == underscored(s@.take(i as int)),
        decreases s.len() - i,
    {
        let c = if s[i] == '-' {
            '_'
        } else {
            s[i]
        };
        r.push(c);
        assert(underscored(s@.take(i + 1)) =~= underscored(s@.take(i as int)).push(c));
        i = i + 1;
    }
    assert(s@.take(s@.len() as int) =~= s@);
    r
}

/// The names of the four metrics a collector called `name` registers:
/// query total, error total, active threads and response latency.
pub open spec fn prom_metric_names(name: Seq<char>) -> (Seq<char>, Seq<char>, Seq<char>, Seq<char>) {
    let n = underscored(name);
    (
        "dns_query_total_"@ + n,
        "dns_err_total_"@ + n,
        "dns_thread_active_"@ + n,
        "dns_response_latency_millisecond_"@ + n,
    )
}

fn prefixed(p: &str, n: &Vec<char>) -> (r: String)
    ensures
        r@ == p@ + n@,
{
    let mut t = chars_of(p);
    append_chars(&mut t, n);
    string_from_chars(&t)
}

/// The metric names of a collector called `name` (see [`prom_metric_names`]).
pub fn metric_names(name: &str) -> (r: (String, String, String, String))
    ensures
        (r.0@, r.1@, r.2@, r.3@) == prom_metric_names(name@),
{
    let n = underscore_chars(&chars_of(name));
    (
        prefixed("dns_query_total_", &n),
        prefixed("dns_err_total_", &n),
        prefixed("dns_thread_active_", &n),
        prefixed("dns_response_latency_millisecond_", &n),
    )
}

/// The collector name the exec form `prom_metrics_collector <exec_str>`
/// gives: `default` for an empty string, else what follows `name=`.
pub open spec fn prom_exec_name(prefix: Seq<char>, exec_str: Seq<char>) -> Result<Seq<char>, ErrView> {
    if prefix != "prom_metrics_collector"@ {
        Err(prefix_error_view(prefix, "prom_metrics_collector"@))
    } else if trim(exec_str).len() == 0 {
        Ok("default"@)
    } else if has_prefix(trim(exec_str), "name="@) {
        Ok(trim(exec_str).skip(5))
    } else {
        Err(
            ErrView::Config(
                "Invalid prometheus_metrics_collector configuration: '"@ + exec_str
                    + "'. Expected format: 'name=<metric_name>'"@,
            ),
        )
    }
}

/// Reads the exec form of the Prometheus collector (see [`prom_exec_name`]).
pub fn prom_quick_setup_name(prefix: &str, exec_str: &str) -> (r: Result<String, PluginError>)
    ensures
        match prom_exec_name(prefix@, exec_str@) {
            Ok(n) => r matches Ok(s) && s@ == n,
            Err(e) => r matches Err(x) && x.view() == e,
        },
{
    let p = chars_of(prefix);
    let want = chars_of("prom_metrics_collector");
    if !chars_eq(&p, &want) {
        return Err(unsupported_prefix(prefix, "prom_metrics_collector"));
    }
    let e = chars_of(exec_str);
    let t = trim_chars(&e);
    if t.len() == 0 {
        return Ok(owned("default"));
    }
    let key = chars_of("name=");
    proof {
        reveal_strlit("name=");
    }
    if starts_with(&t, &key) {
        return Ok(string_from_chars(&slice_chars(&t, 5, t.len())));
    }
    let mut m = chars_of("Invalid prometheus_metrics_collector configuration: '");
    append_chars(&mut m, &e);
    let tail = chars_of("'. Expected format: 'name=<metric_name>'");
    append_chars(&mut m, &tail);
    Err(PluginError::Config(string_from_chars(&m)))
}

} // verus!
