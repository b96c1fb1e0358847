//! Upstream forwarding: the upstream list and its settings, per-upstream
//! health counters, the choice of upstream, and the decisions of a
//! sequential forwarding run. Sending queries is done by the caller.

use vstd::prelude::*;
use crate::config::{
    arg_get, as_i64, get_arg, get_key, int_of, is_number, map_get, str_is, str_of,
    ConfigValue,
};
use crate::error::PluginError;
use crate::error::ErrView;
use crate::text::{
    append_chars, chars_of, find_char, first_of, has_prefix, slice_chars, split_once,
    starts_with, string_from_chars,
};

verus! {

/// How an upstream is chosen for a query.
#[derive(Debug, Clone, Copy, PartialEq, Eq, Structural)]
pub enum LoadBalanceStrategy {
    RoundRobin,
    Random,
    Fastest,
}

/// Health counters of one upstream; the average response time is in
/// microseconds, over the successful queries.
#[derive(Debug, Clone, Copy, PartialEq, Eq, Structural)]
pub struct UpstreamHealth {
    pub queries: u64,
    pub successes: u64,
    pub failures: u64,
    pub avg_response_time_us: u64,
}

/// `x + 1`, wrapping at `u64::MAX` as an atomic counter does.
pub open spec fn bump(x: u64) -> u64 {
    if x == u64::MAX {
        0
    } else {
        (x + 1) as u64
    }
}

/// The running average after a success of `new_us` when `count` successes,
/// averaging `avg`, came before.
pub open spec fn next_avg(avg: u64, count: u64, new_us: u64) -> int {
    if count == 0 {
        new_us as int
    } else {
        (avg * count + new_us) / (count + 1)
    }
}

proof fn lemma_avg_bounded(avg: u64, count: u64, new_us: u64)
    requires
        count > 0,
    ensures
        0 <= next_avg(avg, count, new_us),
        next_avg(avg, count, new_us) <= if avg >= new_us { avg as int } else { new_us as int },
{
    let m: int = if avg >= new_us { avg as int } else { new_us as int };
    let c = count as int;
    let a = avg as int;
    let n = new_us as int;
    assert(a * c <= m * c) by (nonlinear_arith)
        requires
            0 <= a <= m,
            0 < c,
    ;
    assert(m * c + m == m * (c + 1)) by (nonlinear_arith);
    assert((a * c + n) / (c + 1) <= m) by (nonlinear_arith)
        requires
            a * c + n <= m * (c + 1),
            0 < c,
            0 <= a * c + n,
    ;
    assert(0 <= (a * c + n) / (c + 1)) by (nonlinear_arith)
        requires
            0 <= a * c + n,
            0 < c,
    ;
}

impl UpstreamHealth {
    /// All counters at zero.
    pub fn new() -> (h: UpstreamHealth)
        ensures
            h == UpstreamHealth::fresh(),
    {
        UpstreamHealth { queries: 0, successes: 0, failures: 0, avg_response_time_us: 0 }
    }

    /// The counters of an upstream that has not been queried.
    pub open spec fn fresh() -> UpstreamHealth {
        UpstreamHealth { queries: 0, successes: 0, failures: 0, avg_response_time_us: 0 }
    }

    /// Counts a successful query that took `response_time_us` microseconds
    /// and folds it into the average.
    pub fn record_success(&mut self, response_time_us: u64)
        ensures
            final(self).queries == bump(old(self).queries),
            final(self).successes == bump(old(self).successes),
            final(self).failures == old(self).failures,
            final(self).avg_response_time_us as int == next_avg(
                old(self).avg_response_time_us,
                old(self).successes,
                response_time_us,
            ),
    {
        self.queries = self.queries.wrapping_add(1);
        let count = self.successes;
        self.successes = self.successes.wrapping_add(1);
        if count == 0 {
            self.avg_response_time_us = response_time_us;
        } else {
            proof {
                lemma_avg_bounded(self.avg_response_time_us, count, response_time_us);
                let a = self.avg_response_time_us as int;
                let c = count as int;
                assert(a * c <= 0xffff_ffff_ffff_ffff * 0xffff_ffff_ffff_ffff) by (nonlinear_arith)
                    requires
                        0 <= a <= 0xffff_ffff_ffff_ffff,
                        0 <= c <= 0xffff_ffff_ffff_ffff,
                ;
                assert(0 <= a * c) by (nonlinear_arith)
                    requires
                        0 <= a,
                        0 <= c,
                ;
            }
            let total: u128 = (self.avg_response_time_us as u128) * (count as u128)
                + response_time_us as u128;
            let avg: u128 = total / (count as u128 + 1);
            self.avg_response_time_us = avg as u64;
        }
    }

    /// Counts a failed query.
    pub fn record_failure(&mut self)
        ensures
            final(self).queries == bump(old(self).queries),
            final(self).failures == bump(old(self).failures),
            final(self).successes == old(self).successes,
            final(self).avg_response_time_us == old(self).avg_response_time_us,
    {
        self.queries = self.queries.wrapping_add(1);
        self.failures = self.failures.wrapping_add(1);
    }

    /// `(queries, successes, failures)`.
    pub fn counters(&self) -> (r: (u64, u64, u64))
        ensures
            r == (self.queries, self.successes, self.failures),
    {
        (self.queries, self.successes, self.failures)
    }

    /// The average response time of successful queries, in microseconds.
    pub fn avg_response_time_us(&self) -> (r: u64)
        ensures
            r == self.avg_response_time_us,
    {
        self.avg_response_time_us
    }
}

/// One configured upstream server with its health counters.
#[derive(Debug)]
pub struct Upstream {
    pub addr: String,
    pub tag: Option<String>,
    pub health: UpstreamHealth,
}

/// An upstream's address and tag.
pub struct UpstreamView {
    pub addr: Seq<char>,
    pub tag: Option<Seq<char>>,
}

impl Upstream {
    pub open spec fn view(&self) -> UpstreamView {
        UpstreamView {
            addr: self.addr@,
            tag: match self.tag {
                Some(t) => Some(t@),
                None => None,
            },
        }
    }

    /// An untagged upstream with fresh counters.
    pub fn new(addr: String) -> (u: Upstream)
        ensures
            u.addr@ == addr@,
            u.tag is None,
            u.health == UpstreamHealth::fresh(),
    {
        Upstream { addr, tag: None, health: UpstreamHealth::new() }
    }

    /// A tagged upstream with fresh counters.
    pub fn with_tag(addr: String, tag: String) -> (u: Upstream)
        ensures
            u.addr@ == addr@,
            u.tag matches Some(t) && t@ == tag@,
            u.health == UpstreamHealth::fresh(),
    {
        Upstream { addr, tag: Some(tag), health: UpstreamHealth::new() }
    }
}

/// The text with every leading copy of `p` removed (`trim_start_matches`).
pub open spec fn strip_all(s: Seq<char>, p: Seq<char>) -> Seq<char>
    decreases s.len(),
{
    if p.len() > 0 && has_prefix(s, p) {
        strip_all(s.skip(p.len() as int), p)
    } else {
        s
    }
}

/// An upstream address as configured, normalised: URLs are kept; otherwise
/// `udp://` and `tcp://` prefixes are removed and `:53` is added when no
/// port is given.
pub open spec fn normalized_addr(s: Seq<char>) -> Seq<char> {
    if has_prefix(s, "http://"@) || has_prefix(s, "https://"@) {
        s
    } else {
        let a = strip_all(strip_all(s, "udp://"@), "tcp://"@);
        if first_of(a, ':') < a.len() {
            a
        } else {
            a + ":53"@
        }
    }
}

fn strip_all_chars(s: &Vec<char>, p: &Vec<char>) -> (r: Vec<char>)
    requires
        p@.len() > 0,
    ensures
        r@ == strip_all(s@, p@),
{
    let mut i: usize = 0;
    let mut rest = slice_chars(s, 0, s.len());
    assert(rest@ =~= s@.skip(0));
    assert(s@.skip(0) =~= s@);
    while starts_with(&rest, p)
        invariant
            p@.len() > 0,
            i <= s@.len(),
            rest@ == s@.skip(i as int),
            strip_all(s@, p@) == strip_all(rest@, p@),
        decreases s.len() - i,
    {
        let n = p.len();
        assert(rest@.skip(n as int) =~= s@.skip(i + n));
        i = i + n;
        rest = slice_chars(s, i, s.len());
        assert(rest@ =~= s@.skip(i as int));
    }
    rest
}

/// Normalises an upstream address (see [`normalized_addr`]).
pub fn normalize_addr(input: &str) -> (r: String)
    ensures
        r@ == normalized_addr(input@),
{
    let s = chars_of(input);
    let http = chars_of("http://");
    let https = chars_of("https://");
    if starts_with(&s, &http) || starts_with(&s, &https) {
        return string_from_chars(&s);
    }
    let udp = chars_of("udp://");
    let tcp = chars_of("tcp://");
    proof {
        reveal_strlit("udp://");
        reveal_strlit("tcp://");
    }
    let a = strip_all_chars(&s, &udp);
    let mut a = strip_all_chars(&a, &tcp);
    let k = find_char(&a, ':');
    if k >= a.len() {
        let port = chars_of(":53");
        append_chars(&mut a, &port);
    }
    string_from_chars(&a)
}

/// Splits `addr|tag` at the first `|` (`str::split_once`).
fn split_tag(e: &Vec<char>) -> (r: (Vec<char>, Option<Vec<char>>))
    ensures
        match split_once(e@, '|') {
            Some((a, t)) => r.0@ == a && (r.1 matches Some(x) && x@ == t),
            None => r.0@ == e@ && r.1 is None,
        },
{
    let k = find_char(e, '|');
    if k < e.len() {
        (slice_chars(e, 0, k), Some(slice_chars(e, k + 1, e.len())))
    } else {
        (slice_chars(e, 0, e.len()), None)
    }
}

/// An upstream from a list entry `addr` or `addr|tag`.
fn upstream_from_entry(e: &Vec<char>) -> (u: Upstream)
    ensures
        u.view() == entry_view(e@),
        u.health == UpstreamHealth::fresh(),
{
    let (a, t) = split_tag(e);
    match t {
        Some(t) => Upstream::with_tag(string_from_chars(&a), string_from_chars(&t)),
        None => Upstream::new(string_from_chars(&a)),
    }
}

/// The upstream an entry `addr` or `addr|tag` names.
pub open spec fn entry_view(e: Seq<char>) -> UpstreamView {
    match split_once(e, '|') {
        Some((a, t)) => UpstreamView { addr: a, tag: Some(t) },
        None => UpstreamView { addr: e, tag: None },
    }
}

/// The upstream one item of the `upstreams` argument describes.
pub open spec fn upstream_item(item: ConfigValue) -> Result<UpstreamView, ErrView> {
    match item {
        ConfigValue::Str(s) => Ok(entry_view(normalized_addr(s@))),
        ConfigValue::Mapping(m) => match map_get(m@, "addr"@) {
            Some(ConfigValue::Str(a)) => Ok(
                UpstreamView {
                    addr: normalized_addr(a@),
                    tag: match map_get(m@, "tag"@) {
                        Some(t) => str_of(t),
                        None => None,
                    },
                },
            ),
            _ => Err(ErrView::Config("upstream mapping must contain addr"@)),
        },
        _ => Err(ErrView::Config("upstreams must be array of strings or mappings"@)),
    }
}

/// The upstreams a list describes, or the error of its first bad item.
pub open spec fn upstream_items(items: Seq<ConfigValue>) -> Result<Seq<UpstreamView>, ErrView>
    decreases items.len(),
{
    if items.len() == 0 {
        Ok(Seq::empty())
    } else {
        match upstream_items(items.drop_last()) {
            Err(e) => Err(e),
            Ok(v) => match upstream_item(items.last()) {
                Err(e) => Err(e),
                Ok(u) => Ok(v.push(u)),
            },
        }
    }
}

/// The timeout in seconds an optional `timeout` argument gives (default 5).
pub open spec fn timeout_arg(v: Option<ConfigValue>) -> Result<u64, ErrView> {
    match v {
        Some(n) => if is_number(n) {
            match int_of(n) {
                Some(i) => Ok(i as u64),
                None => Err(ErrView::Config("Invalid timeout value"@)),
            }
        } else {
            Ok(5)
        },
        None => Ok(5),
    }
}

/// The strategy an optional `strategy` argument names (default round robin).
pub open spec fn strategy_arg(v: Option<ConfigValue>) -> Result<LoadBalanceStrategy, ErrView> {
    match v {
        Some(ConfigValue::Str(s)) => if s@ == "round_robin"@ || s@ == "roundrobin"@ {
            Ok(LoadBalanceStrategy::RoundRobin)
        } else if s@ == "random"@ {
            Ok(LoadBalanceStrategy::Random)
        } else if s@ == "fastest"@ {
            Ok(LoadBalanceStrategy::Fastest)
        } else {
            Err(ErrView::Config("Unknown strategy: "@ + s@))
        },
        _ => Ok(LoadBalanceStrategy::RoundRobin),
    }
}

/// Whether an optional `health_checks` argument turns health checks on
/// (default off).
pub open spec fn health_arg(v: Option<ConfigValue>) -> bool {
    match v {
        Some(ConfigValue::Bool(b)) => b,
        _ => false,
    }
}

/// The attempt limit an optional `max_attempts` argument gives (default 3).
pub open spec fn attempts_arg(v: Option<ConfigValue>) -> Result<usize, ErrView> {
    match v {
        Some(n) => if is_number(n) {
            match int_of(n) {
                Some(i) => Ok(i as usize),
                None => Err(ErrView::Config("Invalid max_attempts value"@)),
            }
        } else {
            Ok(3)
        },
        None => Ok(3),
    }
}

/// The settings of a forwarding engine.
pub struct ForwardView {
    pub upstreams: Seq<UpstreamView>,
    pub timeout_secs: u64,
    pub strategy: LoadBalanceStrategy,
    pub health_checks_enabled: bool,
    pub max_attempts: usize,
}

/// What the forward plugin's arguments configure, or the first error.
pub open spec fn forward_settings(args: Seq<(String, ConfigValue)>) -> Result<ForwardView, ErrView> {
    match arg_get(args, "upstreams"@) {
        None => Err(ErrView::Config("upstreams is required for forward plugin"@)),
        Some(ConfigValue::List(items)) => match upstream_items(items@) {
            Err(e) => Err(e),
            Ok(ups) => match timeout_arg(arg_get(args, "timeout"@)) {
                Err(e) => Err(e),
                Ok(t) => match strategy_arg(arg_get(args, "strategy"@)) {
                    Err(e) => Err(e),
                    Ok(st) => match attempts_arg(arg_get(args, "max_attempts"@)) {
                        Err(e) => Err(e),
                        Ok(m) => Ok(
                            ForwardView {
                                upstreams: ups,
                                timeout_secs: t,
                                strategy: st,
                                health_checks_enabled: health_arg(arg_get(args, "health_checks"@)),
                                max_attempts: m,
                            },
                        ),
                    },
                },
            },
        },
        Some(_) => Err(ErrView::Config("upstreams must be an array"@)),
    }
}

/// The forwarding engine's state: upstreams and settings.
#[derive(Debug)]
pub struct Forward {
    pub upstreams: Vec<Upstream>,
    pub timeout_secs: u64,
    pub strategy: LoadBalanceStrategy,
    pub health_checks_enabled: bool,
    pub max_attempts: usize,
}

/// The upstreams' addresses and tags.
pub open spec fn upstream_views(v: Seq<Upstream>) -> Seq<UpstreamView> {
    v.map_values(|u: Upstream| u.view())
}

/// The upstreams' average response times.
pub open spec fn avg_times(v: Seq<Upstream>) -> Seq<u64> {
    v.map_values(|u: Upstream| u.health.avg_response_time_us)
}

/// Whether every upstream's counters are at zero.
pub open spec fn all_fresh(v: Seq<Upstream>) -> bool {
    forall|i: int| 0 <= i < v.len() ==> (#[trigger] v[i]).health == UpstreamHealth::fresh()
}

/// The fastest choice over the first `n` averages: `(index, time)`. An
/// upstream without a measurement (average 0) is taken as soon as it is
/// seen, and once taken the choice stays.
pub open spec fn fastest_state(avgs: Seq<u64>, n: int) -> (int, u64)
    decreases n,
{
    if n <= 1 {
        (0, avgs[0])
    } else {
        let (bi, bt) = fastest_state(avgs, n - 1);
        let a = avgs[n - 1];
        if bt == 0 {
            (bi, bt)
        } else if a == 0 || a < bt {
            (n - 1, a)
        } else {
            (bi, bt)
        }
    }
}

/// The index a strategy picks among `avgs.len()` upstreams, given a turn
/// counter and, for the random strategy, a clock reading in nanoseconds.
pub open spec fn select_spec(strategy: LoadBalanceStrategy, avgs: Seq<u64>, current: usize, nanos: u128) -> Option<usize> {
    if avgs.len() == 0 {
        None
    } else {
        match strategy {
            LoadBalanceStrategy::RoundRobin => Some((current as int % avgs.len() as int) as usize),
            LoadBalanceStrategy::Random => Some(((nanos as usize) as int % avgs.len() as int) as usize),
            LoadBalanceStrategy::Fastest => Some(fastest_state(avgs, avgs.len() as int).0 as usize),
        }
    }
}

/// Round robin serves every upstream in turn: from any turn counter, one of
/// the next `n` selections (for `n` upstreams) picks each upstream.
pub proof fn lemma_round_robin_covers(avgs: Seq<u64>, start: usize, nanos: u128, i: int)
    requires
        0 <= i < avgs.len(),
        start + avgs.len() <= usize::MAX + 1,
    ensures
        exists|k: int|
            0 <= k < avgs.len() && #[trigger] select_spec(LoadBalanceStrategy::RoundRobin, avgs, (start + k) as usize, nanos)
                == Some(i as usize),
{
    let n = avgs.len() as int;
    let c = start as int;
    let q = c / n;
    let r = c % n;
    vstd::arithmetic::div_mod::lemma_fundamental_div_mod(c, n);
    assert(0 <= r < n) by {
        vstd::arithmetic::div_mod::lemma_mod_bound(c, n);
    }
    let k = if i >= r {
        i - r
    } else {
        n - r + i
    };
    let qk = if i >= r {
        q
    } else {
        q + 1
    };
    assert(c + k == qk * n + i) by (nonlinear_arith)
        requires
            c == n * q + r,
            k == (if i >= r { i - r } else { n - r + i }),
            qk == (if i >= r { q } else { q + 1 }),
    ;
    vstd::arithmetic::div_mod::lemma_fundamental_div_mod_converse(c + k, n, qk, i);
    assert(select_spec(LoadBalanceStrategy::RoundRobin, avgs, (start + k) as usize, nanos) == Some(i as usize));
}

proof fn lemma_fastest(avgs: Seq<u64>, n: int)
    requires
        1 <= n <= avgs.len(),
    ensures
        0 <= fastest_state(avgs, n).0 < n,
        avgs[fastest_state(avgs, n).0] == fastest_state(avgs, n).1,
        forall|j: int| 0 <= j < n ==> fastest_state(avgs, n).1 == 0 || fastest_state(avgs, n).1 <= avgs[j],
    decreases n,
{
    if n > 1 {
        lemma_fastest(avgs, n - 1);
    }
}

/// The fastest choice is an upstream whose average is 0 (not measured) or no
/// larger than any other upstream's.
pub proof fn lemma_fastest_is_minimal(avgs: Seq<u64>)
    requires
        avgs.len() > 0,
    ensures
        ({
            let i = fastest_state(avgs, avgs.len() as int).0;
            &&& 0 <= i < avgs.len()
            &&& forall|j: int| 0 <= j < avgs.len() ==> avgs[i] == 0 || avgs[i] <= avgs[j]
        }),
{
    lemma_fastest(avgs, avgs.len() as int);
}

impl Forward {
    /// An engine with these upstreams, timeout and strategy; health checks
    /// off and at most 3 attempts.
    pub fn new(upstreams: Vec<Upstream>, timeout_secs: u64, strategy: LoadBalanceStrategy) -> (f: Forward)
        ensures
            f.upstreams@ == upstreams@,
            f.timeout_secs == timeout_secs,
            f.strategy == strategy,
            !f.health_checks_enabled,
            f.max_attempts == 3,
    {
        Forward { upstreams, timeout_secs, strategy, health_checks_enabled: false, max_attempts: 3 }
    }

    pub fn with_health_checks(self, enabled: bool) -> (f: Forward)
        ensures
            f == (Forward { health_checks_enabled: enabled, ..self }),
    {
        Forward { health_checks_enabled: enabled, ..self }
    }

    pub fn with_max_attempts(self, max: usize) -> (f: Forward)
        ensures
            f == (Forward { max_attempts: max, ..self }),
    {
        Forward { max_attempts: max, ..self }
    }

    pub open spec fn view(&self) -> ForwardView {
        ForwardView {
            upstreams: upstream_views(self.upstreams@),
            timeout_secs: self.timeout_secs,
            strategy: self.strategy,
            health_checks_enabled: self.health_checks_enabled,
            max_attempts: self.max_attempts,
        }
    }

    /// Records a query outcome on upstream `idx` (microseconds taken, and
    /// whether it succeeded); nothing changes when health checks are off.
    pub fn record_outcome(&mut self, idx: usize, elapsed_us: u64, success: bool)
        requires
            idx < old(self).upstreams@.len(),
        ensures
            final(self).view() == old(self).view(),
            final(self).upstreams@.len() == old(self).upstreams@.len(),
            forall|j: int| 0 <= j < old(self).upstreams@.len() && j != idx ==>
                #[trigger] final(self).upstreams@[j] == old(self).upstreams@[j],
            !old(self).health_checks_enabled ==> *final(self) == *old(self),
            old(self).health_checks_enabled && success ==> ({
                let o = old(self).upstreams@[idx as int].health;
                let n = final(self).upstreams@[idx as int].health;
                n.queries == bump(o.queries) && n.successes == bump(o.successes)
                    && n.failures == o.failures
                    && n.avg_response_time_us as int == next_avg(o.avg_response_time_us, o.successes, elapsed_us)
            }),
            old(self).health_checks_enabled && !success ==> ({
                let o = old(self).upstreams@[idx as int].health;
                let n = final(self).upstreams@[idx as int].health;
                n.queries == bump(o.queries) && n.failures == bump(o.failures)
                    && n.successes == o.successes && n.avg_response_time_us == o.avg_response_time_us
            }),
    {
        if !self.health_checks_enabled {
            return;
        }
        let mut h = self.upstreams[idx].health;
        if success {
            h.record_success(elapsed_us);
        } else {
            h.record_failure();
        }
        let ghost before = self.upstreams@;
        let mut all: Vec<Upstream> = Vec::new();
        std::mem::swap(&mut all, &mut self.upstreams);
        let mut u = all.remove(idx);
        u.health = h;
        all.insert(idx, u);
        self.upstreams = all;
        proof {
            assert forall|j: int| 0 <= j < before.len() && j != idx implies #[trigger] self.upstreams@[j] == before[j] by {
                if j < idx {
                } else {
                }
            }
            assert(upstream_views(self.upstreams@) =~= upstream_views(before));
        }
    }

    /// The upstream to use for turn `current_idx`; the random strategy uses
    /// `nanos`, a clock reading. `None` when there are no upstreams.
    pub fn select_upstream(&self, current_idx: usize, nanos: u128) -> (r: Option<usize>)
        ensures
            r == select_spec(self.strategy, avg_times(self.upstreams@), current_idx, nanos),
            r matches Some(i) ==> i < self.upstreams@.len(),
    {
        let n = self.upstreams.len();
        if n == 0 {
            return None;
        }
        let ghost avgs = avg_times(self.upstreams@);
        match self.strategy {
            LoadBalanceStrategy::RoundRobin => Some(current_idx % n),
            LoadBalanceStrategy::Random => Some((nanos as usize) % n),
            LoadBalanceStrategy::Fastest => {
                let mut best_idx: usize = 0;
                let mut best_time: u64 = self.upstreams[0].health.avg_response_time_us;
                let mut idx: usize = 1;
                while idx < n
                    invariant
                        n == self.upstreams@.len(),
                        avgs == avg_times(self.upstreams@),
                        1 <= idx <= n,
                        (best_idx as int, best_time) == fastest_state(avgs, idx as int),
                    decreases n - idx,
                {
                    let avg_time = self.upstreams[idx].health.avg_response_time_us;
                    if best_time != 0 && (avg_time == 0 || avg_time < best_time) {
                        best_idx = idx;
                        best_time = avg_time;
                    }
                    idx = idx + 1;
                }
                proof {
                    lemma_fastest(avgs, n as int);
                }
                Some(best_idx)
            },
        }
    }
}

proof fn lemma_items_err_sticks(items: Seq<ConfigValue>, k: int)
    requires
        0 <= k <= items.len(),
        upstream_items(items.take(k)) is Err,
    ensures
        upstream_items(items) == upstream_items(items.take(k)),
    decreases items.len() - k,
{
    if k < items.len() {
        assert(items.take(k + 1).drop_last() =~= items.take(k));
        lemma_items_err_sticks(items, k + 1);
    } else {
        assert(items.take(k) =~= items);
    }
}

/// Builds a forwarding engine step by step.
#[derive(Debug)]
pub struct ForwardBuilder {
    pub upstreams: Vec<Upstream>,
    pub timeout_secs: u64,
    pub strategy: LoadBalanceStrategy,
    pub health_checks_enabled: bool,
    pub max_attempts: usize,
}

impl ForwardBuilder {
    /// No upstreams, 5 s timeout, round robin, health checks off, 3 attempts.
    pub fn new() -> (b: ForwardBuilder)
        ensures
            b.upstreams@.len() == 0,
            b.timeout_secs == 5,
            b.strategy == LoadBalanceStrategy::RoundRobin,
            !b.health_checks_enabled,
            b.max_attempts == 3,
    {
        ForwardBuilder {
            upstreams: Vec::new(),
            timeout_secs: 5,
            strategy: LoadBalanceStrategy::RoundRobin,
            health_checks_enabled: false,
            max_attempts: 3,
        }
    }

    pub fn add_upstream(self, u: Upstream) -> (b: ForwardBuilder)
        ensures
            b.upstreams@ == self.upstreams@.push(u),
            b.timeout_secs == self.timeout_secs,
            b.strategy == self.strategy,
            b.health_checks_enabled == self.health_checks_enabled,
            b.max_attempts == self.max_attempts,
    {
        let mut b = self;
        b.upstreams.push(u);
        b
    }

    pub fn timeout(self, secs: u64) -> (b: ForwardBuilder)
        ensures
            b == (ForwardBuilder { timeout_secs: secs, ..self }),
    {
        ForwardBuilder { timeout_secs: secs, ..self }
    }

    pub fn strategy(self, strategy: LoadBalanceStrategy) -> (b: ForwardBuilder)
        ensures
            b == (ForwardBuilder { strategy, ..self }),
    {
        ForwardBuilder { strategy, ..self }
    }

    pub fn enable_health_checks(self, enabled: bool) -> (b: ForwardBuilder)
        ensures
            b == (ForwardBuilder { health_checks_enabled: enabled, ..self }),
    {
        ForwardBuilder { health_checks_enabled: enabled, ..self }
    }

    pub fn max_attempts(self, max: usize) -> (b: ForwardBuilder)
        ensures
            b == (ForwardBuilder { max_attempts: max, ..self }),
    {
        ForwardBuilder { max_attempts: max, ..self }
    }

    /// The engine with the builder's settings.
    pub fn build(self) -> (f: Forward)
        ensures
            f.upstreams@ == self.upstreams@,
            f.timeout_secs == self.timeout_secs,
            f.strategy == self.strategy,
            f.health_checks_enabled == self.health_checks_enabled,
            f.max_attempts == self.max_attempts,
    {
        Forward::new(self.upstreams, self.timeout_secs, self.strategy)
            .with_health_checks(self.health_checks_enabled)
            .with_max_attempts(self.max_attempts)
    }

    fn upstream_from_item(item: &ConfigValue) -> (r: Result<Upstream, PluginError>)
        ensures
            match upstream_item(*item) {
                Ok(u) => r matches Ok(x) && x.view() == u && x.health == UpstreamHealth::fresh(),
                Err(e) => r matches Err(x) && x.view() == e,
            },
    {
        match item {
            ConfigValue::Str(s) => {
                let n = normalize_addr(s.as_str());
                let e = chars_of(n.as_str());
                Ok(upstream_from_entry(&e))
            },
            ConfigValue::Mapping(m) => {
                match get_key(m, "addr") {
                    Some(ConfigValue::Str(a)) => {
                        let addr = normalize_addr(a.as_str());
                        match get_key(m, "tag") {
                            Some(ConfigValue::Str(t)) => Ok(Upstream::with_tag(addr, t.clone())),
                            _ => Ok(Upstream::new(addr)),
                        }
                    },
                    _ => Err(
                        PluginError::Config(crate::text::owned("upstream mapping must contain addr")),
                    ),
                }
            },
            _ => Err(
                PluginError::Config(
                    crate::text::owned("upstreams must be array of strings or mappings"),
                ),
            ),
        }
    }

    /// Reads the forward plugin's arguments: `upstreams` (required; strings
    /// `addr` or `addr|tag`, or mappings with `addr` and `tag`), `timeout`
    /// (seconds), `strategy`, `health_checks` and `max_attempts`.
    pub fn from_args(args: &Vec<(String, ConfigValue)>) -> (r: Result<Forward, PluginError>)
        ensures
            match forward_settings(args@) {
                Ok(v) => r matches Ok(f) && f.view() == v && all_fresh(f.upstreams@),
                Err(e) => r matches Err(x) && x.view() == e,
            },
    {
        let items = match get_arg(args, "upstreams") {
            None => {
                return Err(
                    PluginError::Config(
                        crate::text::owned("upstreams is required for forward plugin"),
                    ),
                );
            },
            Some(ConfigValue::List(items)) => items,
            Some(_) => {
                return Err(PluginError::Config(crate::text::owned("upstreams must be an array")));
            },
        };
        let mut ups: Vec<Upstream> = Vec::new();
        let mut i: usize = 0;
        assert(items@.take(0) =~= Seq::<ConfigValue>::empty());
        assert(upstream_views(ups@) =~= Seq::<UpstreamView>::empty());
        while i < items.len()
            invariant
                arg_get(args@, "upstreams"@) == Some(ConfigValue::List(*items)),
                i <= items@.len(),
                upstream_items(items@.take(i as int)) == Ok::<Seq<UpstreamView>, ErrView>(upstream_views(ups@)),
                all_fresh(ups@),
            decreases items.len() - i,
        {
            assert(items@.take(i + 1).drop_last() =~= items@.take(i as int));
            assert(items@.take(i + 1).last() == items@[i as int]);
            match Self::upstream_from_item(&items[i]) {
                Ok(u) => {
                    let ghost prev = ups@;
                    ups.push(u);
                    assert(upstream_views(ups@) =~= upstream_views(prev).push(u.view()));
                },
                Err(e) => {
                    proof {
                        lemma_items_err_sticks(items@, i as int + 1);
                    }
                    return Err(e);
                },
            }
            i = i + 1;
        }
        assert(items@.take(items@.len() as int) =~= items@);
        let mut builder = ForwardBuilder::new();
        match get_arg(args, "timeout") {
            Some(n) => {
                if matches!(n, ConfigValue::Int(_) | ConfigValue::Float) {
                    match as_i64(n) {
                        Some(secs) => {
                            builder = builder.timeout(secs as u64);
                        },
                        None => {
                            return Err(PluginError::Config(crate::text::owned("Invalid timeout value")));
                        },
                    }
                }
            },
            None => {},
        }
        match get_arg(args, "strategy") {
            Some(ConfigValue::Str(s)) => {
                let st = if str_is(s, "round_robin") || str_is(s, "roundrobin") {
                    LoadBalanceStrategy::RoundRobin
                } else if str_is(s, "random") {
                    LoadBalanceStrategy::Random
                } else if str_is(s, "fastest") {
                    LoadBalanceStrategy::Fastest
                } else {
                    let mut m = chars_of("Unknown strategy: ");
                    let sc = chars_of(s.as_str());
                    append_chars(&mut m, &sc);
                    return Err(PluginError::Config(string_from_chars(&m)));
                };
                builder = builder.strategy(st);
            },
            _ => {},
        }
        let health = match get_arg(args, "health_checks") {
            Some(ConfigValue::Bool(b)) => *b,
            _ => false,
        };
        builder = builder.enable_health_checks(health);
        match get_arg(args, "max_attempts") {
            Some(n) => {
                if matches!(n, ConfigValue::Int(_) | ConfigValue::Float) {
                    match as_i64(n) {
                        Some(m) => {
                            builder = builder.max_attempts(m as usize);
                        },
                        None => {
                            return Err(
                                PluginError::Config(crate::text::owned("Invalid max_attempts value")),
                            );
                        },
                    }
                }
            },
            None => {},
        }
        builder.upstreams = ups;
        Ok(builder.build())
    }
}

/// The upstream entries of [`ForwardPlugin::new`], each `addr` or `addr|tag`.
pub open spec fn entry_views(v: Seq<String>) -> Seq<UpstreamView> {
    v.map_values(|e: String| entry_view(e@))
}

/// How the plugin handles a query.
#[derive(Debug, Clone, Copy, PartialEq, Eq, Structural)]
pub enum ForwardMode {
    /// A response is already set: nothing to do.
    Skip,
    /// Query every upstream at once and take the first answer; fall back to
    /// a sequential run if none succeeds.
    Race,
    /// Try upstreams one at a time.
    Sequential,
}

/// The next step of a sequential run.
#[derive(Debug, Clone, Copy, PartialEq, Eq, Structural)]
pub enum SequentialStep {
    /// Send the query to this upstream.
    Query(usize),
    /// Stop and report the last failure.
    GiveUp,
}

/// Forwards queries to upstream servers.
#[derive(Debug)]
pub struct ForwardPlugin {
    pub core: Forward,
    /// Turn counter for round-robin selection.
    pub current: usize,
    /// Race several upstreams; the first response wins.
    pub concurrent_queries: bool,
    pub tag: Option<String>,
}

impl ForwardPlugin {
    /// A plugin over these upstreams (`addr` or `addr|tag`), 5 s timeout,
    /// round robin, health checks off, 3 attempts.
    pub fn new(upstreams: Vec<String>) -> (p: ForwardPlugin)
        ensures
            p.core.view() == (ForwardView {
                upstreams: entry_views(upstreams@),
                timeout_secs: 5,
                strategy: LoadBalanceStrategy::RoundRobin,
                health_checks_enabled: false,
                max_attempts: 3,
            }),
            all_fresh(p.core.upstreams@),
            p.current == 0,
            !p.concurrent_queries,
            p.tag is None,
    {
        ForwardPlugin::with_timeout(upstreams, 5)
    }

    /// A plugin over these upstreams (`addr` or `addr|tag`) with the given
    /// timeout in seconds, round robin, health checks off, 3 attempts.
    pub fn with_timeout(upstreams: Vec<String>, timeout_secs: u64) -> (p: ForwardPlugin)
        ensures
            p.core.view() == (ForwardView {
                upstreams: entry_views(upstreams@),
                timeout_secs: timeout_secs,
                strategy: LoadBalanceStrategy::RoundRobin,
                health_checks_enabled: false,
                max_attempts: 3,
            }),
            all_fresh(p.core.upstreams@),
            p.current == 0,
            !p.concurrent_queries,
            p.tag is None,
    {
        let mut ups: Vec<Upstream> = Vec::new();
        let mut i: usize = 0;
        while i < upstreams.len()
            invariant
                i <= upstreams@.len(),
                upstream_views(ups@) == entry_views(upstreams@.take(i as int)),
                all_fresh(ups@),
            decreases upstreams.len() - i,
        {
            let e = chars_of(upstreams[i].as_str());
            let u = upstream_from_entry(&e);
            let ghost prev = ups@;
            ups.push(u);
            proof {
                assert(upstream_views(ups@) =~= upstream_views(prev).push(u.view()));
                assert(entry_views(upstreams@.take(i + 1)) =~= entry_views(upstreams@.take(i as int)).push(
                    entry_view(upstreams@[i as int]@),
                ));
            }
            i = i + 1;
        }
        proof {
            assert(upstreams@.take(upstreams@.len() as int) =~= upstreams@);
        }
        let core = Forward::new(ups, timeout_secs, LoadBalanceStrategy::RoundRobin).with_health_checks(
            false,
        ).with_max_attempts(3);
        ForwardPlugin { core, current: 0, concurrent_queries: false, tag: None }
    }

    /// Sets the plugin up from its arguments: the engine's settings as
    /// [`ForwardBuilder::from_args`] reads them, and `concurrent` (a number
    /// above 1 turns racing on).
    pub fn init(args: &Vec<(String, ConfigValue)>, tag: Option<String>) -> (r: Result<ForwardPlugin, PluginError>)
        ensures
            match forward_settings(args@) {
                Ok(v) => r matches Ok(p) && p.core.view() == v && all_fresh(p.core.upstreams@)
                    && p.current == 0 && p.tag == tag
                    && p.concurrent_queries == concurrent_arg(arg_get(args@, "concurrent"@)),
                Err(e) => r matches Err(x) && x.view() == e,
            },
    {
        let core = match ForwardBuilder::from_args(args) {
            Ok(c) => c,
            Err(e) => {
                return Err(e);
            },
        };
        let concurrent = match get_arg(args, "concurrent") {
            Some(n) => {
                if matches!(n, ConfigValue::Int(_) | ConfigValue::Float) {
                    match as_i64(n) {
                        Some(k) => k > 1,
                        None => false,
                    }
                } else {
                    false
                }
            },
            None => false,
        };
        Ok(ForwardPlugin { core, current: 0, concurrent_queries: concurrent, tag })
    }

    /// The plugin's registered name.
    pub fn name(&self) -> (s: &'static str)
        ensures
            s@ == "forward"@,
    {
        "forward"
    }

    /// The upstream addresses, in order.
    pub fn upstream_addrs(&self) -> (r: Vec<String>)
        ensures
            r@.len() == self.core.upstreams@.len(),
            forall|i: int| 0 <= i < r@.len() ==> #[trigger] r@[i]@ == self.core.upstreams@[i].addr@,
    {
        let mut r: Vec<String> = Vec::new();
        let mut i: usize = 0;
        while i < self.core.upstreams.len()
            invariant
                i <= self.core.upstreams@.len(),
                r@.len() == i,
                forall|j: int| 0 <= j < i ==> #[trigger] r@[j]@ == self.core.upstreams@[j].addr@,
            decreases self.core.upstreams.len() - i,
        {
            r.push(self.core.upstreams[i].addr.clone());
            i = i + 1;
        }
        r
    }

    /// Takes the next turn and picks its upstream (see
    /// [`Forward::select_upstream`]).
    pub fn select_upstream(&mut self, nanos: u128) -> (r: Option<usize>)
        ensures
            r == select_spec(old(self).core.strategy, avg_times(old(self).core.upstreams@), old(self).current, nanos),
            r matches Some(i) ==> i < old(self).core.upstreams@.len(),
            final(self).current == old(self).current.wrapping_add(1),
            final(self).core == old(self).core,
            final(self).concurrent_queries == old(self).concurrent_queries,
            final(self).tag == old(self).tag,
    {
        let idx = self.current;
        self.current = self.current.wrapping_add(1);
        self.core.select_upstream(idx, nanos)
    }

    /// Records a query outcome on upstream `idx` when health checks are on
    /// (see [`Forward::record_outcome`]).
    pub fn record_upstream_health(&mut self, idx: usize, elapsed_us: u64, success: bool)
        requires
            idx < old(self).core.upstreams@.len(),
        ensures
            final(self).current == old(self).current,
            final(self).concurrent_queries == old(self).concurrent_queries,
            final(self).tag == old(self).tag,
            final(self).core.view() == old(self).core.view(),
            !old(self).core.health_checks_enabled ==> final(self).core == old(self).core,
            old(self).core.health_checks_enabled && success ==> ({
                let o = old(self).core.upstreams@[idx as int].health;
                let n = final(self).core.upstreams@[idx as int].health;
                n.queries == bump(o.queries) && n.successes == bump(o.successes)
                    && n.failures == o.failures
                    && n.avg_response_time_us as int == next_avg(o.avg_response_time_us, o.successes, elapsed_us)
            }),
            old(self).core.health_checks_enabled && !success ==> ({
                let o = old(self).core.upstreams@[idx as int].health;
                let n = final(self).core.upstreams@[idx as int].health;
                n.queries == bump(o.queries) && n.failures == bump(o.failures)
                    && n.successes == o.successes && n.avg_response_time_us == o.avg_response_time_us
            }),
            forall|j: int| 0 <= j < old(self).core.upstreams@.len() && j != idx ==>
                #[trigger] final(self).core.upstreams@[j] == old(self).core.upstreams@[j],
    {
        self.core.record_outcome(idx, elapsed_us, success);
    }

    /// How a query is handled: skipped when a response is already set, raced
    /// when racing is on and there are several upstreams, else sequential.
    pub fn execute_mode(&self, has_response: bool) -> (m: ForwardMode)
        ensures
            m == (if has_response {
                ForwardMode::Skip
            } else if self.concurrent_queries && self.core.upstreams@.len() > 1 {
                ForwardMode::Race
            } else {
                ForwardMode::Sequential
            }),
    {
        if has_response {
            ForwardMode::Skip
        } else if self.concurrent_queries && self.core.upstreams.len() > 1 {
            ForwardMode::Race
        } else {
            ForwardMode::Sequential
        }
    }

    /// The next step of a sequential run after `failures` failed queries:
    /// give up after one failure when health checks are off, or once the
    /// attempts reach the limit or the number of upstreams; otherwise take a
    /// turn and query the upstream it picks.
    pub fn sequential_next(&mut self, failures: usize, nanos: u128) -> (r: SequentialStep)
        ensures
            ({
                let stop = (failures > 0 && !old(self).core.health_checks_enabled)
                    || !(failures < old(self).core.max_attempts && failures < old(self).core.upstreams@.len());
                &&& stop ==> r == SequentialStep::GiveUp && final(self).current == old(self).current
                &&& !stop ==> r == SequentialStep::Query(
                    select_spec(old(self).core.strategy, avg_times(old(self).core.upstreams@), old(self).current, nanos)->Some_0,
                ) && final(self).current == old(self).current.wrapping_add(1)
            }),
            final(self).core == old(self).core,
            final(self).concurrent_queries == old(self).concurrent_queries,
            final(self).tag == old(self).tag,
            r matches SequentialStep::Query(i) ==> i < old(self).core.upstreams@.len(),
    {
        if failures > 0 && !self.core.health_checks_enabled {
            return SequentialStep::GiveUp;
        }
        if !(failures < self.core.max_attempts && failures < self.core.upstreams.len()) {
            return SequentialStep::GiveUp;
        }
        match self.select_upstream(nanos) {
            Some(i) => SequentialStep::Query(i),
            None => SequentialStep::GiveUp,
        }
    }
}

/// Whether an optional `concurrent` argument turns racing on.
pub open spec fn concurrent_arg(v: Option<ConfigValue>) -> bool {
    match v {
        Some(n) => is_number(n) && match int_of(n) {
            Some(k) => k > 1,
            None => false,
        },
        None => false,
    }
}

} // verus!
