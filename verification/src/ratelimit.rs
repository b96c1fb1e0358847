//! Per-client query rate limiting over fixed windows. Window state lives in
//! a concurrent map from the `dashmap` crate; times are milliseconds on a
//! monotonic clock the caller reads.

use vstd::prelude::*;
use crate::config::{arg_get, as_i64, as_u64, get_arg, int_of, is_number, uint_of, ConfigValue};
use crate::dns::{copy_questions, Context, Message, RCODE_REFUSED};
use crate::error::PluginError;
use crate::ip::IpAddr;
use crate::error::ErrView;
use crate::text::{chars_of, parse_unsigned, parse_unsigned_chars};

verus! {

#[verifier::external_type_specification]
#[verifier::external_body]
#[verifier::reject_recursive_types(K)]
#[verifier::reject_recursive_types(V)]
#[verifier::reject_recursive_types(S)]
pub struct ExDashMap<K, V, S>(dashmap::DashMap<K, V, S>);

/// A client address as a key: `(0, v4)` or `(1, v6)`.
pub open spec fn client_key(ip: IpAddr) -> (u8, u128) {
    match ip {
        IpAddr::V4(a) => (0u8, a as u128),
        IpAddr::V6(a) => (1u8, a),
    }
}

pub fn client_key_of(ip: &IpAddr) -> (k: (u8, u128))
    ensures
        k == client_key(*ip),
{
    match ip {
        IpAddr::V4(a) => (0u8, *a as u128),
        IpAddr::V6(a) => (1u8, *a),
    }
}

/// Client windows: for each client key, `(count, window start)`.
pub type Windows = dashmap::DashMap<ClientKey, Window>;

/// A client key: `(0, v4)` or `(1, v6)`.
pub type ClientKey = (u8, u128);

/// A window: `(count, start)`.
pub type Window = (u32, u64);

/// What a window map holds: for each client, `(count, window start)`.
pub uninterp spec fn window_map(m: Windows) -> Map<ClientKey, Window>;

/// No client windows.
pub open spec fn no_windows() -> Map<ClientKey, Window> {
    Map::empty()
}

/// An empty map (`DashMap::new`).
#[verifier::external_body]
fn windows_new() -> (fresh: dashmap::DashMap<ClientKey, Window>)
    ensures
        window_map(fresh) == no_windows(),
{
    dashmap::DashMap::new()
}

/// The window of a client (`DashMap::get`, the value copied out).
#[verifier::external_body]
fn windows_get(m: &Windows, k: ClientKey) -> (r: Option<Window>)
    ensures
        r == window_map(*m).get(k),
{
    m.get(&k).map(|v| *v)
}

/// Sets a client's window (`DashMap::insert`).
#[verifier::external_body]
fn windows_insert(m: &mut Windows, k: ClientKey, v: Window)
    ensures
        window_map(*final(m)) == window_map(*old(m)).insert(k, v),
{
    m.insert(k, v);
}

/// The number of clients (`DashMap::len`).
#[verifier::external_body]
fn windows_len(m: &Windows) -> (n: usize)
    ensures
        n == window_map(*m).len(),
{
    m.len()
}

/// Keeps the windows that [`window_live`] accepts at `now_ms`
/// (`DashMap::retain`).
#[verifier::external_body]
fn windows_retain(m: &mut Windows, now_ms: u64, window_secs: u64)
    requires
        window_secs <= u64::MAX / 2,
    ensures
        window_map(*final(m)) == window_map(*old(m)).restrict(
            window_map(*old(m)).dom().filter(|k: (u8, u128)| live_spec(window_map(*old(m))[k].1, now_ms, window_secs)),
        ),
{
    m.retain(|_, v| window_live(v.1, now_ms, window_secs))
}

/// Milliseconds from `from` to `now` (0 if the clock reads earlier).
pub open spec fn since(from: u64, now: u64) -> int {
    if now >= from {
        now - from
    } else {
        0
    }
}

/// Whether a window that started at `start` is kept by cleanup at `now`:
/// younger than two windows.
pub open spec fn live_spec(start: u64, now: u64, window_secs: u64) -> bool {
    since(start, now) < 2 * window_secs * 1000
}

/// Whether a window is kept by cleanup (see [`live_spec`]).
pub fn window_live(start: u64, now_ms: u64, window_secs: u64) -> (b: bool)
    ensures
        b == live_spec(start, now_ms, window_secs),
{
    let e: u64 = if now_ms >= start {
        now_ms - start
    } else {
        0
    };
    (e as u128) < (window_secs as u128) * 2000
}

/// A client's window after one more query at `now`: a new window with
/// count 1 when there was none or the old one is over, else the count plus
/// one.
pub open spec fn next_window(w: Option<(u32, u64)>, now: u64, window_secs: u64) -> (u32, u64) {
    match w {
        None => (1, now),
        Some((c, start)) => if since(start, now) >= window_secs * 1000 {
            (1, now)
        } else {
            ((c + 1) as u32, start)
        },
    }
}

/// Whether that query is over the limit: the window went on and its count
/// now exceeds `max`.
pub open spec fn over_limit(w: Option<(u32, u64)>, now: u64, window_secs: u64, max: u32) -> bool {
    match w {
        None => false,
        Some((c, start)) => since(start, now) < window_secs * 1000 && c + 1 > max,
    }
}

/// Within a window, a client's query is refused exactly when the client has
/// already made `max` queries in it, and it is counted; once the window is
/// over, the next query starts a new window and is never refused.
pub proof fn lemma_window_limit(c: u32, start: u64, now: u64, window_secs: u64, max: u32)
    ensures
        since(start, now) < window_secs * 1000 ==> (over_limit(Some((c, start)), now, window_secs, max) == (c
            >= max) && (c < u32::MAX ==> next_window(Some((c, start)), now, window_secs) == ((c + 1) as u32, start))),
        since(start, now) >= window_secs * 1000 ==> (!over_limit(Some((c, start)), now, window_secs, max)
            && next_window(Some((c, start)), now, window_secs) == (1u32, now)),
        !over_limit(None, now, window_secs, max) && next_window(None, now, window_secs) == (1u32, now),
{
}

/// Whether one more query can be counted without the count overflowing.
pub open spec fn has_room(w: Option<(u32, u64)>, now: u64, window_secs: u64) -> bool {
    match w {
        None => true,
        Some((c, start)) => since(start, now) >= window_secs * 1000 || c < u32::MAX,
    }
}

/// Limits how many queries each client may send per window.
#[derive(Debug)]
pub struct RateLimitPlugin {
    /// Maximum queries per window
    pub max_queries: u32,
    /// Time window in seconds
    pub window_secs: u64,
    /// Window per client
    pub limits: Windows,
}

/// The response a refused query gets: the request's id and questions, a
/// response with code REFUSED and no records.
pub open spec fn refusal_of(request: Message, r: Message) -> bool {
    &&& r.id == request.id
    &&& r.is_response
    &&& r.rcode == RCODE_REFUSED
    &&& r.questions@ == request.questions@
    &&& r.answers@.len() == 0
    &&& r.authority@.len() == 0
    &&& r.additional@.len() == 0
}

/// What an optional numeric argument gives: a number (as `u64` when it is
/// one, else as `i64`, then cast), a decimal string, or the default.
pub open spec fn count_arg(v: Option<ConfigValue>, name: Seq<char>, max: nat, default: nat) -> Result<nat, ErrView> {
    match v {
        None => Ok(default),
        Some(ConfigValue::Str(s)) => match parse_unsigned(s@, max) {
            Some(n) => Ok(n),
            None => Err(ErrView::Config("Invalid '"@ + name + "' string value"@)),
        },
        Some(n) => if is_number(n) {
            match uint_of(n) {
                Some(u) => Ok(if max == u32::MAX { (u as u32) as nat } else { u as nat }),
                None => match int_of(n) {
                    Some(i) => Ok(if max == u32::MAX { (i as u32) as nat } else { (i as u64) as nat }),
                    None => Err(ErrView::Config("Invalid '"@ + name + "' value"@)),
                },
            }
        } else {
            Err(ErrView::Config("Invalid '"@ + name + "' type"@))
        },
    }
}

fn count_setting(v: Option<&ConfigValue>, name: &str, wide: bool, default: u64) -> (r: Result<u64, PluginError>)
    requires
        wide || default <= u32::MAX,
    ensures
        match count_arg(
            match v {
                Some(x) => Some(*x),
                None => None,
            },
            name@,
            if wide { u64::MAX as nat } else { u32::MAX as nat },
            default as nat,
        ) {
            Ok(n) => r matches Ok(x) && x as nat == n,
            Err(e) => r matches Err(x) && x.view() == e,
        },
{
    let max: u64 = if wide {
        0xffff_ffff_ffff_ffff
    } else {
        0xffff_ffff
    };
    match v {
        None => Ok(default),
        Some(ConfigValue::Str(s)) => {
            let c = chars_of(s.as_str());
            match parse_unsigned_chars(&c, max) {
                Some(n) => Ok(n),
                None => {
                    let mut m = chars_of("Invalid '");
                    let nm = chars_of(name);
                    crate::text::append_chars(&mut m, &nm);
                    let tail = chars_of("' string value");
                    crate::text::append_chars(&mut m, &tail);
                    Err(PluginError::Config(crate::text::string_from_chars(&m)))
                },
            }
        },
        Some(n) => {
            if matches!(n, ConfigValue::Int(_) | ConfigValue::Float) {
                match as_u64(n) {
                    Some(u) => Ok(if wide { u } else { (u as u32) as u64 }),
                    None => match as_i64(n) {
                        Some(i) => Ok(if wide { i as u64 } else { (i as u32) as u64 }),
                        None => {
                            let mut m = chars_of("Invalid '");
                            let nm = chars_of(name);
                            crate::text::append_chars(&mut m, &nm);
                            let tail = chars_of("' value");
                            crate::text::append_chars(&mut m, &tail);
                            Err(PluginError::Config(crate::text::string_from_chars(&m)))
                        },
                    },
                }
            } else {
                let mut m = chars_of("Invalid '");
                let nm = chars_of(name);
                crate::text::append_chars(&mut m, &nm);
                let tail = chars_of("' type");
                crate::text::append_chars(&mut m, &tail);
                Err(PluginError::Config(crate::text::string_from_chars(&m)))
            }
        },
    }
}

impl RateLimitPlugin {
    /// A limiter of `max_queries` per `window_secs` seconds, with no client
    /// seen yet.
    pub fn new(max_queries: u32, window_secs: u64) -> (p: RateLimitPlugin)
        ensures
            p.max_queries == max_queries,
            p.window_secs == window_secs,
            window_map(p.limits) == no_windows(),
    {
        RateLimitPlugin { max_queries, window_secs, limits: windows_new() }
    }

    /// The plugin's registered name.
    pub fn name(&self) -> (s: &'static str)
        ensures
            s@ == "rate_limit"@,
    {
        "rate_limit"
    }

    /// The number of clients tracked.
    pub fn tracked_clients(&self) -> (n: usize)
        ensures
            n == window_map(self.limits).len(),
    {
        windows_len(&self.limits)
    }

    /// Counts a query from `ip` at `now_ms` and says whether it is over the
    /// limit.
    pub fn should_limit(&mut self, ip: &IpAddr, now_ms: u64) -> (b: bool)
        requires
            has_room(window_map(old(self).limits).get(client_key(*ip)), now_ms, old(self).window_secs),
        ensures
            ({
                let k = client_key(*ip);
                let w = window_map(old(self).limits).get(k);
                &&& b == over_limit(w, now_ms, old(self).window_secs, old(self).max_queries)
                &&& window_map(final(self).limits) == window_map(old(self).limits).insert(
                    k,
                    next_window(w, now_ms, old(self).window_secs),
                )
            }),
            final(self).max_queries == old(self).max_queries,
            final(self).window_secs == old(self).window_secs,
    {
        let k = client_key_of(ip);
        match windows_get(&self.limits, k) {
            None => {
                windows_insert(&mut self.limits, k, (1, now_ms));
                false
            },
            Some((c, start)) => {
                let e: u64 = if now_ms >= start {
                    now_ms - start
                } else {
                    0
                };
                if (e as u128) >= (self.window_secs as u128) * 1000 {
                    windows_insert(&mut self.limits, k, (1, now_ms));
                    false
                } else {
                    let c2 = c + 1;
                    windows_insert(&mut self.limits, k, (c2, start));
                    c2 > self.max_queries
                }
            },
        }
    }

    /// Whether one more query from `ip` at `now_ms` can be counted.
    pub fn can_count(&self, ip: &IpAddr, now_ms: u64) -> (b: bool)
        ensures
            b == has_room(window_map(self.limits).get(client_key(*ip)), now_ms, self.window_secs),
    {
        let k = client_key_of(ip);
        match windows_get(&self.limits, k) {
            None => true,
            Some((c, start)) => {
                let e: u64 = if now_ms >= start {
                    now_ms - start
                } else {
                    0
                };
                (e as u128) >= (self.window_secs as u128) * 1000 || c < 0xffff_ffff
            },
        }
    }

    /// Refuses the query when its client is over the limit: the response is
    /// then a refusal and the sequence stops. Queries without a client
    /// address are not counted. The window map changes as
    /// [`RateLimitPlugin::should_limit`] says.
    pub fn execute(&mut self, ctx: &mut Context, now_ms: u64) -> (limited: bool)
        requires
            old(ctx).client_ip matches Some(ip) ==> has_room(
                window_map(old(self).limits).get(client_key(ip)),
                now_ms,
                old(self).window_secs,
            ),
        ensures
            final(self).max_queries == old(self).max_queries,
            final(self).window_secs == old(self).window_secs,
            final(ctx).request == old(ctx).request,
            final(ctx).client_ip == old(ctx).client_ip,
            final(ctx).set_entries == old(ctx).set_entries,
            final(ctx).tag == old(ctx).tag,
            match old(ctx).client_ip {
                None => !limited && *final(ctx) == *old(ctx) && window_map(final(self).limits) == window_map(
                    old(self).limits,
                ),
                Some(ip) => {
                    let k = client_key(ip);
                    let w = window_map(old(self).limits).get(k);
                    &&& limited == over_limit(w, now_ms, old(self).window_secs, old(self).max_queries)
                    &&& window_map(final(self).limits) == window_map(old(self).limits).insert(
                        k,
                        next_window(w, now_ms, old(self).window_secs),
                    )
                    &&& limited ==> final(ctx).returned && (final(ctx).response matches Some(r) && refusal_of(
                        old(ctx).request,
                        r,
                    ))
                    &&& !limited ==> final(ctx).response == old(ctx).response && final(ctx).returned == old(
                        ctx,
                    ).returned
                },
            },
    {
        let ip = match &ctx.client_ip {
            Some(ip) => *ip,
            None => {
                return false;
            },
        };
        if self.should_limit(&ip, now_ms) {
            let mut response = Message::new();
            response.id = ctx.request.id;
            response.is_response = true;
            response.rcode = RCODE_REFUSED;
            response.questions = copy_questions(&ctx.request.questions);
            ctx.response = Some(response);
            ctx.returned = true;
            true
        } else {
            false
        }
    }

    /// Counts and limits the query like [`RateLimitPlugin::execute`] when the
    /// client's count has room; returns `None`, changing nothing, when it
    /// has none.
    pub fn execute_checked(&mut self, ctx: &mut Context, now_ms: u64) -> (r: Option<bool>)
        ensures
            r is None <==> (old(ctx).client_ip matches Some(ip) && !has_room(
                window_map(old(self).limits).get(client_key(ip)),
                now_ms,
                old(self).window_secs,
            )),
            r is None ==> *final(ctx) == *old(ctx) && window_map(final(self).limits) == window_map(old(self).limits),
            r matches Some(limited) ==> match old(ctx).client_ip {
                None => !limited && *final(ctx) == *old(ctx),
                Some(ip) => limited == over_limit(
                    window_map(old(self).limits).get(client_key(ip)),
                    now_ms,
                    old(self).window_secs,
                    old(self).max_queries,
                ) && window_map(final(self).limits) == window_map(old(self).limits).insert(
                    client_key(ip),
                    next_window(
                        window_map(old(self).limits).get(client_key(ip)),
                        now_ms,
                        old(self).window_secs,
                    ),
                ) && final(ctx).request == old(ctx).request && final(ctx).client_ip == old(ctx).client_ip
                    && final(ctx).set_entries == old(ctx).set_entries && final(ctx).tag == old(ctx).tag
                    && (limited ==> final(ctx).returned && (final(ctx).response matches Some(m) && refusal_of(
                    old(ctx).request,
                    m,
                ))) && (!limited ==> final(ctx).response == old(ctx).response && final(ctx).returned == old(
                    ctx,
                ).returned),
            },
            final(self).max_queries == old(self).max_queries,
            final(self).window_secs == old(self).window_secs,
    {
        match &ctx.client_ip {
            Some(ip) => {
                if !self.can_count(ip, now_ms) {
                    return None;
                }
            },
            None => {},
        }
        Some(self.execute(ctx, now_ms))
    }

    /// Drops the windows that are two windows old at `now_ms`.
    pub fn cleanup(&mut self, now_ms: u64)
        requires
            old(self).window_secs <= u64::MAX / 2,
        ensures
            window_map(final(self).limits) == window_map(old(self).limits).restrict(
                window_map(old(self).limits).dom().filter(|k: (u8, u128)| live_spec(window_map(old(self).limits)[k].1, now_ms, old(self).window_secs)),
            ),
            final(self).max_queries == old(self).max_queries,
            final(self).window_secs == old(self).window_secs,
    {
        windows_retain(&mut self.limits, now_ms, self.window_secs);
    }

    /// Seconds between cleanups: two windows, at least a minute.
    pub fn cleanup_interval_secs(&self) -> (s: u64)
        requires
            self.window_secs <= u64::MAX / 2,
        ensures
            s == 2 * (if self.window_secs >= 30 { self.window_secs } else { 30 }),
    {
        let w = if self.window_secs >= 30 {
            self.window_secs
        } else {
            30
        };
        w * 2
    }

    /// Sets the limiter up from `max_queries` (default 100) and
    /// `window_secs` (default 60): numbers, or decimal strings.
    pub fn init(args: &Vec<(String, ConfigValue)>) -> (r: Result<RateLimitPlugin, PluginError>)
        ensures
            match count_arg(arg_get(args@, "max_queries"@), "max_queries"@, u32::MAX as nat, 100) {
                Err(e) => r matches Err(x) && x.view() == e,
                Ok(m) => match count_arg(arg_get(args@, "window_secs"@), "window_secs"@, u64::MAX as nat, 60) {
                    Err(e) => r matches Err(x) && x.view() == e,
                    Ok(w) => r matches Ok(p) && p.max_queries == m && p.window_secs == w && window_map(p.limits)
                        == no_windows(),
                },
            },
    {
        let m = match count_setting(get_arg(args, "max_queries"), "max_queries", false, 100) {
            Ok(m) => m,
            Err(e) => {
                return Err(e);
            },
        };
        let w = match count_setting(get_arg(args, "window_secs"), "window_secs", true, 60) {
            Ok(w) => w,
            Err(e) => {
                return Err(e);
            },
        };
        Ok(RateLimitPlugin::new(m as u32, w))
    }
}

} // verus!
