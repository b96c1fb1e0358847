//! The response cache: entries and their lifetimes, statistics, cache keys,
//! and the decisions of serving from and storing into the cache. Entries
//! live in an LRU map from the `lru` crate. Times are passed in by the
//! caller: milliseconds on a monotonic clock, and Unix seconds.

use vstd::prelude::*;
use crate::dns::{
    copy_message, copy_questions, message_same, records_same, Context, Message, RData, Record,
    RCODE_NOERROR,
};
use crate::config::{arg_get, as_i64, as_u64, get_arg, int_of, is_number, uint_of, ConfigValue};
use crate::error::PluginError;
use crate::error::ErrView;
use crate::text::{all_digits, append_chars, chars_of, dec, dec_chars, is_digit, lemma_dec_value, lowercase_chars, string_from_chars, unicode_lower};

verus! {

/// TTL given to responses served while stale.
pub const STALE_RESPONSE_TTL_SECS: u32 = 5;

/// One cached response with its timing.
#[derive(Debug)]
pub struct CacheEntry {
    pub response: Message,
    /// When it was cached (monotonic milliseconds).
    pub cached_at_ms: u64,
    /// Lifetime of the response's records, in seconds.
    pub ttl: u32,
    /// How long the entry stays in the cache, in seconds.
    pub cache_ttl: u32,
    /// The TTL the response was stored with.
    pub original_ttl: u32,
    /// When it was last served (monotonic milliseconds).
    pub last_accessed_ms: u64,
    /// When it was cached (Unix seconds).
    pub cached_at_unix: u64,
}

/// Milliseconds from `from` to `now` (0 if the clock reads earlier).
pub open spec fn elapsed_ms(from: u64, now: u64) -> int {
    if now >= from {
        now - from
    } else {
        0
    }
}

/// Whole seconds elapsed, truncated to 32 bits as a `u32` cast does.
pub open spec fn elapsed_secs_u32(from: u64, now: u64) -> u32 {
    ((elapsed_ms(from, now) / 1000) as u64) as u32
}

/// `a - b`, or 0 when `b > a`.
pub open spec fn sat_sub(a: u32, b: u32) -> u32 {
    if a >= b {
        (a - b) as u32
    } else {
        0
    }
}

/// Whether two entries hold the same response and timing.
pub open spec fn entry_same(a: CacheEntry, b: CacheEntry) -> bool {
    &&& message_same(a.response, b.response)
    &&& a.cached_at_ms == b.cached_at_ms
    &&& a.ttl == b.ttl
    &&& a.cache_ttl == b.cache_ttl
    &&& a.original_ttl == b.original_ttl
    &&& a.last_accessed_ms == b.last_accessed_ms
    &&& a.cached_at_unix == b.cached_at_unix
}

impl CacheEntry {
    /// A copy of the entry.
    pub fn copy(&self) -> (c: CacheEntry)
        ensures
            entry_same(*self, c),
    {
        CacheEntry {
            response: copy_message(&self.response),
            cached_at_ms: self.cached_at_ms,
            ttl: self.ttl,
            cache_ttl: self.cache_ttl,
            original_ttl: self.original_ttl,
            last_accessed_ms: self.last_accessed_ms,
            cached_at_unix: self.cached_at_unix,
        }
    }

    /// A fresh entry for `response` cached at `now_ms` (`now_unix` in Unix
    /// seconds).
    pub fn new(response: Message, ttl: u32, cache_ttl: u32, now_ms: u64, now_unix: u64) -> (e: CacheEntry)
        ensures
            e.response == response,
            e.cached_at_ms == now_ms,
            e.last_accessed_ms == now_ms,
            e.ttl == ttl,
            e.cache_ttl == cache_ttl,
            e.original_ttl == ttl,
            e.cached_at_unix == now_unix,
    {
        CacheEntry {
            response,
            cached_at_ms: now_ms,
            ttl,
            cache_ttl,
            original_ttl: ttl,
            last_accessed_ms: now_ms,
            cached_at_unix: now_unix,
        }
    }

    /// Whether the entry's cache lifetime is over: always for a zero
    /// lifetime, else once at least `cache_ttl` seconds have passed.
    pub fn is_cache_expired(&self, now_ms: u64) -> (b: bool)
        ensures
            b == (self.cache_ttl == 0 || elapsed_ms(self.cached_at_ms, now_ms) >= self.cache_ttl * 1000),
    {
        if self.cache_ttl == 0 {
            return true;
        }
        let e: u64 = if now_ms >= self.cached_at_ms {
            now_ms - self.cached_at_ms
        } else {
            0
        };
        e >= (self.cache_ttl as u64) * 1000
    }

    /// Marks the entry as served at `now_ms`.
    pub fn touch(&mut self, now_ms: u64)
        ensures
            *final(self) == (CacheEntry { last_accessed_ms: now_ms, ..*old(self) }),
    {
        self.last_accessed_ms = now_ms;
    }

    fn elapsed_secs(&self, now_ms: u64) -> (s: u32)
        ensures
            s == elapsed_secs_u32(self.cached_at_ms, now_ms),
    {
        let e: u64 = if now_ms >= self.cached_at_ms {
            now_ms - self.cached_at_ms
        } else {
            0
        };
        (e / 1000) as u32
    }

    /// Seconds of record lifetime left.
    pub fn remaining_ttl(&self, now_ms: u64) -> (r: u32)
        ensures
            r == sat_sub(self.ttl, elapsed_secs_u32(self.cached_at_ms, now_ms)),
    {
        self.ttl.saturating_sub(self.elapsed_secs(now_ms))
    }

    /// Seconds of cache lifetime left.
    pub fn remaining_cache_ttl(&self, now_ms: u64) -> (r: u32)
        ensures
            r == sat_sub(self.cache_ttl, elapsed_secs_u32(self.cached_at_ms, now_ms)),
    {
        self.cache_ttl.saturating_sub(self.elapsed_secs(now_ms))
    }
}

/// `x + 1`, wrapping as an atomic counter does.
pub open spec fn inc(x: u64) -> u64 {
    x.wrapping_add(1)
}

/// One counting call on the cache statistics.
#[derive(Debug, Clone, Copy, PartialEq, Eq, Structural)]
pub enum StatsEvent {
    Hit,
    Miss,
    Eviction,
    Expiration,
}

/// The counters after one call: `record_hit`, `record_miss`,
/// `record_eviction` or `record_expiration`.
pub open spec fn stats_step(s: CacheStats, e: StatsEvent) -> CacheStats {
    match e {
        StatsEvent::Hit => CacheStats { hits: inc(s.hits), ..s },
        StatsEvent::Miss => CacheStats { misses: inc(s.misses), ..s },
        StatsEvent::Eviction => CacheStats { evictions: inc(s.evictions), ..s },
        StatsEvent::Expiration => CacheStats { expirations: inc(s.expirations), ..s },
    }
}

/// The counters after a run of calls, in order.
pub open spec fn stats_run(s: CacheStats, es: Seq<StatsEvent>) -> CacheStats
    decreases es.len(),
{
    if es.len() == 0 {
        s
    } else {
        stats_step(stats_run(s, es.drop_last()), es.last())
    }
}

/// How many calls of a kind a run holds.
pub open spec fn event_count(es: Seq<StatsEvent>, k: StatsEvent) -> nat
    decreases es.len(),
{
    if es.len() == 0 {
        0
    } else {
        event_count(es.drop_last(), k) + if es.last() == k { 1nat } else { 0nat }
    }
}

proof fn lemma_event_count_prefix(es: Seq<StatsEvent>, k: StatsEvent, i: int)
    requires
        0 <= i <= es.len(),
    ensures
        event_count(es.take(i), k) <= event_count(es, k),
    decreases es.len() - i,
{
    if i < es.len() {
        lemma_event_count_prefix(es, k, i + 1);
        assert(es.take(i + 1).drop_last() =~= es.take(i));
    } else {
        assert(es.take(i) =~= es);
    }
}

proof fn lemma_stats_run_counts(es: Seq<StatsEvent>)
    ensures
        ({
            let r = stats_run(CacheStats { hits: 0, misses: 0, evictions: 0, expirations: 0 }, es);
            &&& event_count(es, StatsEvent::Hit) <= u64::MAX ==> r.hits == event_count(es, StatsEvent::Hit)
            &&& event_count(es, StatsEvent::Miss) <= u64::MAX ==> r.misses == event_count(es, StatsEvent::Miss)
            &&& event_count(es, StatsEvent::Eviction) <= u64::MAX ==> r.evictions == event_count(es, StatsEvent::Eviction)
            &&& event_count(es, StatsEvent::Expiration) <= u64::MAX ==> r.expirations == event_count(
                es,
                StatsEvent::Expiration,
            )
        }),
    decreases es.len(),
{
    if es.len() > 0 {
        lemma_stats_run_counts(es.drop_last());
    }
}

/// Counted from fresh statistics, a run of calls with `h` hits and `m`
/// misses (`h + m` within a counter) leaves `h` hits, `m` misses and
/// `h + m` total requests, however many evictions and expirations it also
/// records; each counter equals the number of calls of its kind (when that
/// fits) and never decreases along the run.
pub proof fn lemma_stats_counts(es: Seq<StatsEvent>)
    requires
        event_count(es, StatsEvent::Hit) + event_count(es, StatsEvent::Miss) <= u64::MAX,
    ensures
        ({
            let r = stats_run(CacheStats { hits: 0, misses: 0, evictions: 0, expirations: 0 }, es);
            &&& r.hits == event_count(es, StatsEvent::Hit)
            &&& r.misses == event_count(es, StatsEvent::Miss)
            &&& r.hits + r.misses == event_count(es, StatsEvent::Hit) + event_count(es, StatsEvent::Miss)
            &&& event_count(es, StatsEvent::Eviction) <= u64::MAX ==> r.evictions == event_count(es, StatsEvent::Eviction)
            &&& event_count(es, StatsEvent::Expiration) <= u64::MAX ==> r.expirations == event_count(
                es,
                StatsEvent::Expiration,
            )
            &&& forall|i: int|
                0 <= i <= es.len() ==> {
                    let p = #[trigger] stats_run(
                        CacheStats { hits: 0, misses: 0, evictions: 0, expirations: 0 },
                        es.take(i),
                    );
                    &&& p.hits <= r.hits
                    &&& p.misses <= r.misses
                    &&& event_count(es, StatsEvent::Eviction) <= u64::MAX ==> p.evictions <= r.evictions
                    &&& event_count(es, StatsEvent::Expiration) <= u64::MAX ==> p.expirations <= r.expirations
                }
        }),
{
    lemma_stats_run_counts(es);
    assert forall|i: int| 0 <= i <= es.len() implies {
        let r = stats_run(CacheStats { hits: 0, misses: 0, evictions: 0, expirations: 0 }, es);
        let p = #[trigger] stats_run(CacheStats { hits: 0, misses: 0, evictions: 0, expirations: 0 }, es.take(i));
        &&& p.hits <= r.hits
        &&& p.misses <= r.misses
        &&& event_count(es, StatsEvent::Eviction) <= u64::MAX ==> p.evictions <= r.evictions
        &&& event_count(es, StatsEvent::Expiration) <= u64::MAX ==> p.expirations <= r.expirations
    } by {
        lemma_stats_run_counts(es.take(i));
        lemma_event_count_prefix(es, StatsEvent::Hit, i);
        lemma_event_count_prefix(es, StatsEvent::Miss, i);
        lemma_event_count_prefix(es, StatsEvent::Eviction, i);
        lemma_event_count_prefix(es, StatsEvent::Expiration, i);
    }
}

/// The refresh counters after one `record_refresh`.
pub open spec fn refresh_step(s: LazyCacheStats) -> LazyCacheStats {
    LazyCacheStats { refreshes: inc(s.refreshes), ..s }
}

/// The refresh counters after `k` calls of `record_refresh` on fresh ones.
pub open spec fn refreshed(k: nat) -> LazyCacheStats
    decreases k,
{
    if k == 0 {
        LazyCacheStats { refreshes: 0, successful_refreshes: 0, failed_refreshes: 0 }
    } else {
        refresh_step(refreshed((k - 1) as nat))
    }
}

/// After `k` refreshes recorded on fresh counters (`k` within a counter),
/// the refresh count is `k`, and the successful and failed refreshes
/// together are no more than it.
pub proof fn lemma_refresh_count(k: nat)
    requires
        k <= u64::MAX,
    ensures
        refreshed(k).refreshes == k,
        refreshed(k).successful_refreshes + refreshed(k).failed_refreshes <= refreshed(k).refreshes,
    decreases k,
{
    if k > 0 {
        lemma_refresh_count((k - 1) as nat);
    }
}

/// Cache hit, miss, eviction and expiration counters.
#[derive(Debug, Default)]
pub struct CacheStats {
    pub hits: u64,
    pub misses: u64,
    pub evictions: u64,
    pub expirations: u64,
}

impl CacheStats {
    /// All counters at zero.
    pub fn new() -> (s: CacheStats)
        ensures
            s == (CacheStats { hits: 0, misses: 0, evictions: 0, expirations: 0 }),
    {
        CacheStats { hits: 0, misses: 0, evictions: 0, expirations: 0 }
    }

    pub fn record_hit(&mut self)
        ensures
            *final(self) == stats_step(*old(self), StatsEvent::Hit),
            *final(self) == (CacheStats { hits: inc(old(self).hits), ..*old(self) }),
    {
        self.hits = self.hits.wrapping_add(1);
    }

    pub fn record_miss(&mut self)
        ensures
            *final(self) == stats_step(*old(self), StatsEvent::Miss),
            *final(self) == (CacheStats { misses: inc(old(self).misses), ..*old(self) }),
    {
        self.misses = self.misses.wrapping_add(1);
    }

    pub fn record_eviction(&mut self)
        ensures
            *final(self) == stats_step(*old(self), StatsEvent::Eviction),
            *final(self) == (CacheStats { evictions: inc(old(self).evictions), ..*old(self) }),
    {
        self.evictions = self.evictions.wrapping_add(1);
    }

    pub fn record_expiration(&mut self)
        ensures
            *final(self) == stats_step(*old(self), StatsEvent::Expiration),
            *final(self) == (CacheStats { expirations: inc(old(self).expirations), ..*old(self) }),
    {
        self.expirations = self.expirations.wrapping_add(1);
    }

    pub fn hits(&self) -> (r: u64)
        ensures
            r == self.hits,
    {
        self.hits
    }

    pub fn misses(&self) -> (r: u64)
        ensures
            r == self.misses,
    {
        self.misses
    }

    pub fn evictions(&self) -> (r: u64)
        ensures
            r == self.evictions,
    {
        self.evictions
    }

    pub fn expirations(&self) -> (r: u64)
        ensures
            r == self.expirations,
    {
        self.expirations
    }

    /// Hits plus misses.
    pub fn total_requests(&self) -> (r: u64)
        requires
            self.hits + self.misses <= u64::MAX,
        ensures
            r == self.hits + self.misses,
    {
        self.hits + self.misses
    }
}

/// Background refresh counters.
#[derive(Debug, Default)]
pub struct LazyCacheStats {
    pub refreshes: u64,
    pub successful_refreshes: u64,
    pub failed_refreshes: u64,
}

impl LazyCacheStats {
    pub fn new() -> (s: LazyCacheStats)
        ensures
            s == (LazyCacheStats { refreshes: 0, successful_refreshes: 0, failed_refreshes: 0 }),
    {
        LazyCacheStats { refreshes: 0, successful_refreshes: 0, failed_refreshes: 0 }
    }

    pub fn record_refresh(&mut self)
        ensures
            *final(self) == refresh_step(*old(self)),
            *final(self) == (LazyCacheStats { refreshes: inc(old(self).refreshes), ..*old(self) }),
    {
        self.refreshes = self.refreshes.wrapping_add(1);
    }

    pub fn refreshes(&self) -> (r: u64)
        ensures
            r == self.refreshes,
    {
        self.refreshes
    }

    pub fn successful_refreshes(&self) -> (r: u64)
        ensures
            r == self.successful_refreshes,
    {
        self.successful_refreshes
    }

    pub fn failed_refreshes(&self) -> (r: u64)
        ensures
            r == self.failed_refreshes,
    {
        self.failed_refreshes
    }
}

/// Whether a record is an OPT record with the DO bit set.
pub open spec fn is_do_opt(r: Record) -> bool {
    r.rdata matches RData::Opt { flags } && flags & 0x8000u16 != 0
}

/// Whether some additional record is an OPT record with the DO bit set.
pub open spec fn has_do_bit(additional: Seq<Record>) -> bool {
    exists|i: int| 0 <= i < additional.len() && is_do_opt(#[trigger] additional[i])
}

/// The DNSSEC flags of a query packed in a byte: AD = 1, CD = 2, DO = 4.
pub open spec fn key_flags(m: Message) -> nat {
    (if m.authentic_data { 1nat } else { 0nat }) + (if m.checking_disabled { 2nat } else { 0nat }) + (
    if has_do_bit(m.additional@) { 4nat } else { 0nat })
}

/// The cache key of a query: `name:type:class:flags` for its first
/// question, the name lower-cased.
pub open spec fn cache_key(m: Message) -> Option<Seq<char>> {
    if m.questions@.len() == 0 {
        None
    } else {
        let q = m.questions@[0];
        Some(
            unicode_lower(q.qname@) + ":"@ + dec(q.qtype as nat) + ":"@ + dec(q.qclass as nat) + ":"@
                + dec(key_flags(m)),
        )
    }
}

/// The smallest TTL among `records`, starting from `acc`.
pub open spec fn min_ttl_from(records: Seq<Record>, acc: u32) -> u32
    decreases records.len(),
{
    if records.len() == 0 {
        acc
    } else {
        let m = min_ttl_from(records.drop_last(), acc);
        if records.last().ttl < m {
            records.last().ttl
        } else {
            m
        }
    }
}

/// The TTL a response is cached with: the smallest TTL of its answer,
/// authority and additional records (at least 1), or 300 when there are
/// none (or all are `u32::MAX`).
pub open spec fn response_min_ttl(m: Message) -> u32 {
    let t = min_ttl_from(m.additional@, min_ttl_from(m.authority@, min_ttl_from(m.answers@, u32::MAX)));
    if t == u32::MAX {
        300
    } else if t < 1 {
        1
    } else {
        t
    }
}

/// A record TTL as the cache counts it: at least 1.
pub open spec fn ttl_floor(t: u32) -> u32 {
    if t < 1 {
        1
    } else {
        t
    }
}

proof fn lemma_min_ttl_from(rs: Seq<Record>, acc: u32)
    ensures
        min_ttl_from(rs, acc) <= acc,
        forall|i: int| 0 <= i < rs.len() ==> min_ttl_from(rs, acc) <= #[trigger] rs[i].ttl,
        min_ttl_from(rs, acc) == acc || exists|i: int| 0 <= i < rs.len() && min_ttl_from(rs, acc) == #[trigger] rs[i].ttl,
    decreases rs.len(),
{
    if rs.len() > 0 {
        let d = rs.drop_last();
        lemma_min_ttl_from(d, acc);
        assert forall|i: int| 0 <= i < rs.len() implies min_ttl_from(rs, acc) <= #[trigger] rs[i].ttl by {
            if i < d.len() {
                assert(rs[i] == d[i]);
            }
        }
        if min_ttl_from(rs, acc) != acc {
            if min_ttl_from(rs, acc) == rs.last().ttl {
                assert(rs[rs.len() - 1] == rs.last());
            } else {
                let i = choose|i: int| 0 <= i < d.len() && min_ttl_from(d, acc) == #[trigger] d[i].ttl;
                assert(rs[i] == d[i]);
            }
        }
    }
}

/// The TTL a response is cached with is the smallest TTL among all its
/// answer, authority and additional records (counted as at least 1): it is
/// no larger than any record's, it is the TTL of one of them, and it is 300
/// only when no record has a TTL below `u32::MAX` (there may be none).
pub proof fn lemma_cache_ttl_is_smallest(m: Message)
    ensures
        ({
            let rs = m.answers@ + m.authority@ + m.additional@;
            &&& forall|i: int| 0 <= i < rs.len() && rs[i].ttl < u32::MAX ==> response_min_ttl(m) <= ttl_floor(#[trigger] rs[i].ttl)
            &&& (exists|i: int| 0 <= i < rs.len() && #[trigger] rs[i].ttl < u32::MAX) ==> exists|j: int|
                0 <= j < rs.len() && response_min_ttl(m) == ttl_floor(#[trigger] rs[j].ttl)
            &&& (forall|i: int| 0 <= i < rs.len() ==> #[trigger] rs[i].ttl == u32::MAX) ==> response_min_ttl(m) == 300
        }),
{
    let rs = m.answers@ + m.authority@ + m.additional@;
    let an = m.answers@;
    let au = m.authority@;
    let ad = m.additional@;
    let a = min_ttl_from(an, u32::MAX);
    let b = min_ttl_from(au, a);
    let c = min_ttl_from(ad, b);
    lemma_min_ttl_from(an, u32::MAX);
    lemma_min_ttl_from(au, a);
    lemma_min_ttl_from(ad, b);
    assert forall|i: int| 0 <= i < rs.len() implies c <= #[trigger] rs[i].ttl by {
        if i < an.len() {
            assert(rs[i] == an[i]);
        } else if i < an.len() + au.len() {
            assert(rs[i] == au[i - an.len()]);
        } else {
            assert(rs[i] == ad[i - an.len() - au.len()]);
        }
    }
    // `c` is the starting value or the TTL of some record.
    if c != u32::MAX {
        let j: int = if c != b {
            let k = choose|k: int| 0 <= k < ad.len() && c == #[trigger] ad[k].ttl;
            assert(rs[an.len() + au.len() + k] == ad[k]);
            an.len() + au.len() + k
        } else if b != a {
            let k = choose|k: int| 0 <= k < au.len() && b == #[trigger] au[k].ttl;
            assert(rs[an.len() + k] == au[k]);
            an.len() + k
        } else {
            let k = choose|k: int| 0 <= k < an.len() && a == #[trigger] an[k].ttl;
            assert(rs[k] == an[k]);
            k
        };
        assert(0 <= j < rs.len() && c == rs[j].ttl);
        assert(response_min_ttl(m) == ttl_floor(rs[j].ttl));
    } else {
        assert forall|i: int| 0 <= i < rs.len() implies #[trigger] rs[i].ttl == u32::MAX by {}
    }
}

proof fn lemma_split_colon(x1: Seq<char>, y1: Seq<char>, x2: Seq<char>, y2: Seq<char>)
    requires
        all_digits(x1),
        all_digits(x2),
        x1 + seq![':'] + y1 == x2 + seq![':'] + y2,
    ensures
        x1 == x2,
        y1 == y2,
{
    let s = x1 + seq![':'] + y1;
    let t = x2 + seq![':'] + y2;
    if x1.len() < x2.len() {
        assert(s[x1.len() as int] == ':');
        assert(t[x1.len() as int] == x2[x1.len() as int]);
        assert(is_digit(x2[x1.len() as int]));
    } else if x2.len() < x1.len() {
        assert(t[x2.len() as int] == ':');
        assert(s[x2.len() as int] == x1[x2.len() as int]);
        assert(is_digit(x1[x2.len() as int]));
    }
    assert(x1 =~= s.take(x1.len() as int));
    assert(x2 =~= t.take(x2.len() as int));
    assert(y1 =~= s.skip(x1.len() as int + 1));
    assert(y2 =~= t.skip(x2.len() as int + 1));
}

/// Queries whose first questions differ in type or in class get different
/// cache keys (for the same name, compared lower-cased, and the same flags):
/// an AAAA query never shares the entry of an A query for the same name.
pub proof fn lemma_key_separates_type_and_class(m1: Message, m2: Message)
    requires
        m1.questions@.len() > 0,
        m2.questions@.len() > 0,
        unicode_lower(m1.questions@[0].qname@) == unicode_lower(m2.questions@[0].qname@),
        key_flags(m1) == key_flags(m2),
        m1.questions@[0].qtype != m2.questions@[0].qtype || m1.questions@[0].qclass != m2.questions@[0].qclass,
    ensures
        cache_key(m1) != cache_key(m2),
{
    let q1 = m1.questions@[0];
    let q2 = m2.questions@[0];
    let l = unicode_lower(q1.qname@) + ":"@;
    let f = dec(key_flags(m1));
    let s1 = dec(q1.qtype as nat) + seq![':'] + (dec(q1.qclass as nat) + seq![':'] + f);
    let s2 = dec(q2.qtype as nat) + seq![':'] + (dec(q2.qclass as nat) + seq![':'] + f);
    lemma_dec_value(q1.qtype as nat);
    lemma_dec_value(q2.qtype as nat);
    lemma_dec_value(q1.qclass as nat);
    lemma_dec_value(q2.qclass as nat);
    if cache_key(m1) == cache_key(m2) {
        let k = cache_key(m1)->Some_0;
        reveal_strlit(":");
        assert(":"@ =~= seq![':']);
        assert(k =~= l + s1);
        assert(cache_key(m2)->Some_0 =~= l + s2);
        assert(s1 =~= (l + s1).skip(l.len() as int));
        assert(s2 =~= (l + s2).skip(l.len() as int));
        lemma_split_colon(dec(q1.qtype as nat), dec(q1.qclass as nat) + seq![':'] + f, dec(q2.qtype as nat), dec(q2.qclass as nat) + seq![':'] + f);
        lemma_split_colon(dec(q1.qclass as nat), f, dec(q2.qclass as nat), f);
        assert(false);
    }
}

fn min_ttl_of(v: &Vec<Record>, acc: u32) -> (r: u32)
    ensures
        r == min_ttl_from(v@, acc),
{
    let mut m = acc;
    let mut i: usize = 0;
    while i < v.len()
        invariant
            i <= v@.len(),
            m == min_ttl_from(v@.take(i as int), acc),
        decreases v.len() - i,
    {
        assert(v@.take(i + 1).drop_last() =~= v@.take(i as int));
        if v[i].ttl < m {
            m = v[i].ttl;
        }
        i = i + 1;
    }
    assert(v@.take(v@.len() as int) =~= v@);
    m
}

/// Sets every record's TTL to `ttl`.
fn set_ttls(v: &mut Vec<Record>, ttl: u32)
    ensures
        final(v)@.len() == old(v)@.len(),
        forall|i: int| 0 <= i < old(v)@.len() ==> #[trigger] final(v)@[i] == (Record { ttl, ..old(v)@[i] }),
{
    let mut i: usize = 0;
    while i < v.len()
        invariant
            i <= v@.len(),
            v@.len() == old(v)@.len(),
            forall|j: int| 0 <= j < i ==> #[trigger] v@[j] == (Record { ttl, ..old(v)@[j] }),
            forall|j: int| i <= j < v@.len() ==> #[trigger] v@[j] == old(v)@[j],
        decreases v.len() - i,
    {
        let mut r = v.remove(i);
        r.ttl = ttl;
        v.insert(i, r);
        i = i + 1;
    }
}

/// The response served from a cached message: its records with TTL `ttl`,
/// the request's id and questions, and the rest of the cached message.
pub open spec fn served_response(cached: Message, request: Message, ttl: u32, r: Message) -> bool {
    &&& r.id == request.id
    &&& r.questions@ == request.questions@
    &&& r.is_response == cached.is_response
    &&& r.rcode == cached.rcode
    &&& r.authentic_data == cached.authentic_data
    &&& r.checking_disabled == cached.checking_disabled
    &&& r.authoritative == cached.authoritative
    &&& r.recursion_available == cached.recursion_available
    &&& records_same_ttl(cached.answers@, r.answers@, ttl)
    &&& records_same_ttl(cached.authority@, r.authority@, ttl)
    &&& records_same_ttl(cached.additional@, r.additional@, ttl)
}

/// Whether `n` holds the data of the records of `o`, TTLs set to `ttl`.
pub open spec fn records_same_ttl(o: Seq<Record>, n: Seq<Record>, ttl: u32) -> bool {
    n.len() == o.len() && forall|i: int| 0 <= i < o.len() ==> #[trigger] n[i].ttl == ttl && n[i].name
        == o[i].name && n[i].rtype == o[i].rtype && n[i].class == o[i].class
        && crate::dns::rdata_same(o[i].rdata, n[i].rdata)
}

/// The cache key of a query (see [`cache_key`]).
pub fn make_key(message: &Message) -> (r: Option<String>)
    ensures
        match cache_key(*message) {
            Some(k) => r matches Some(s) && s@ == k,
            None => r is None,
        },
{
    if message.questions.len() == 0 {
        return None;
    }
    let q = &message.questions[0];
    let mut flags: u64 = 0;
    if message.authentic_data {
        flags = flags + 1;
    }
    if message.checking_disabled {
        flags = flags + 2;
    }
    let mut has_do = false;
    let mut i: usize = 0;
    while i < message.additional.len()
        invariant
            i <= message.additional@.len(),
            has_do == exists|j: int| 0 <= j < i && is_do_opt(#[trigger] message.additional@[j]),
        decreases message.additional.len() - i,
    {
        match &message.additional[i].rdata {
            RData::Opt { flags: f } => {
                if *f & 0x8000u16 != 0 {
                    has_do = true;
                }
            },
            _ => {},
        }
        i = i + 1;
    }
    if has_do {
        flags = flags + 4;
    }
    let mut k = lowercase_chars(&chars_of(q.qname.as_str()));
    let colon = chars_of(":");
    append_chars(&mut k, &colon);
    let t = dec_chars(q.qtype as u64);
    append_chars(&mut k, &t);
    append_chars(&mut k, &colon);
    let c = dec_chars(q.qclass as u64);
    append_chars(&mut k, &c);
    append_chars(&mut k, &colon);
    let f = dec_chars(flags);
    append_chars(&mut k, &f);
    Some(string_from_chars(&k))
}

/// The TTL a response is cached with (see [`response_min_ttl`]).
pub fn get_min_ttl(message: &Message) -> (t: u32)
    ensures
        t == response_min_ttl(*message),
{
    let a = min_ttl_of(&message.answers, u32::MAX);
    let b = min_ttl_of(&message.authority, a);
    let m = min_ttl_of(&message.additional, b);
    if m == u32::MAX {
        300
    } else if m < 1 {
        1
    } else {
        m
    }
}

/// The response to serve from a cached message: records with TTL `ttl`,
/// the request's id and questions.
pub fn serve_cached_response(cached: &Message, request: &Message, ttl: u32) -> (r: Message)
    ensures
        served_response(*cached, *request, ttl, r),
{
    let mut response = copy_message(cached);
    let ghost copy = response;
    set_ttls(&mut response.answers, ttl);
    set_ttls(&mut response.authority, ttl);
    set_ttls(&mut response.additional, ttl);
    response.id = request.id;
    response.questions = copy_questions(&request.questions);
    response
}

#[verifier::external_type_specification]
#[verifier::external_body]
#[verifier::reject_recursive_types(K)]
#[verifier::reject_recursive_types(V)]
#[verifier::reject_recursive_types(S)]
pub struct ExLruCache<K, V, S>(lru::LruCache<K, V, S>);

#[verifier::external_type_specification]
#[verifier::external_body]
pub struct ExLruHasher(lru::DefaultHasher);

/// What an LRU cache of entries holds: `(key, entry)` pairs from the most
/// to the least recently used.
pub uninterp spec fn lru_contents(c: lru::LruCache<String, CacheEntry>) -> Seq<(Seq<char>, CacheEntry)>;

/// The capacity an LRU cache was made with.
pub uninterp spec fn lru_capacity(c: lru::LruCache<String, CacheEntry>) -> nat;

/// The keys of `(key, entry)` pairs, in order.
pub open spec fn keys_of(s: Seq<(Seq<char>, CacheEntry)>) -> Seq<Seq<char>> {
    s.map_values(|p: (Seq<char>, CacheEntry)| p.0)
}

/// The position of `key` among the pairs, or -1.
pub open spec fn key_index(s: Seq<(Seq<char>, CacheEntry)>, key: Seq<char>) -> int {
    if exists|i: int| 0 <= i < s.len() && (#[trigger] s[i]).0 == key {
        choose|i: int| 0 <= i < s.len() && (#[trigger] s[i]).0 == key
    } else {
        -1
    }
}

/// An LRU cache's shape: at most `capacity` pairs, capacity at least 1, and
/// no key twice.
pub open spec fn lru_wf(c: lru::LruCache<String, CacheEntry>) -> bool {
    let s = lru_contents(c);
    &&& lru_capacity(c) >= 1
    &&& s.len() <= lru_capacity(c)
    &&& keys_of(s).no_duplicates()
}

/// Makes an empty LRU cache holding at most `cap` entries
/// (`LruCache::new`).
#[verifier::external_body]
fn lru_new(cap: usize) -> (c: lru::LruCache<String, CacheEntry>)
    requires
        cap >= 1,
    ensures
        lru_contents(c) == Seq::<(Seq<char>, CacheEntry)>::empty(),
        lru_capacity(c) == cap,
{
    lru::LruCache::new(std::num::NonZeroUsize::new(cap).unwrap())
}

/// Looks a key up and marks it most recently used (`LruCache::get`); the
/// entry is copied out by [`CacheEntry::copy`].
#[verifier::external_body]
fn lru_get(c: &mut lru::LruCache<String, CacheEntry>, key: &str) -> (r: Option<CacheEntry>)
    requires
        lru_wf(*old(c)),
    ensures
        lru_wf(*final(c)),
        lru_capacity(*final(c)) == lru_capacity(*old(c)),
        ({
            let s = lru_contents(*old(c));
            let i = key_index(s, key@);
            if i < 0 {
                r is None && lru_contents(*final(c)) == s
            } else {
                (r matches Some(e) && entry_same(s[i].1, e)) && lru_contents(*final(c)) == seq![s[i]]
                    + s.remove(i)
            }
        }),
{
    c.get(key).map(|e| e.copy())
}

/// Whether a key is present (`LruCache::contains`); recency is unchanged.
#[verifier::external_body]
fn lru_contains(c: &lru::LruCache<String, CacheEntry>, key: &str) -> (b: bool)
    ensures
        b == (key_index(lru_contents(*c), key@) >= 0),
{
    c.contains(key)
}

/// Inserts or replaces an entry and marks it most recently used
/// (`LruCache::push`). It returns the replaced pair (the key as passed),
/// or, when a new key meets a full cache, the least recently used pair,
/// which leaves.
#[verifier::external_body]
fn lru_push(c: &mut lru::LruCache<String, CacheEntry>, key: String, entry: CacheEntry) -> (r: Option<(String, CacheEntry)>)
    requires
        lru_wf(*old(c)),
    ensures
        lru_wf(*final(c)),
        lru_capacity(*final(c)) == lru_capacity(*old(c)),
        ({
            let s = lru_contents(*old(c));
            let i = key_index(s, key@);
            if i >= 0 {
                r matches Some(p) && p.0@ == key@ && p.1 == s[i].1 && lru_contents(*final(c)) == seq![
                    (key@, entry),
                ] + s.remove(i)
            } else if s.len() == lru_capacity(*old(c)) {
                r matches Some(p) && p.0@ == s.last().0 && p.1 == s.last().1 && lru_contents(*final(c))
                    == seq![(key@, entry)] + s.drop_last()
            } else {
                r is None && lru_contents(*final(c)) == seq![(key@, entry)] + s
            }
        }),
{
    c.push(key, entry)
}

/// Removes a key (`LruCache::pop`) and returns its entry.
#[verifier::external_body]
fn lru_pop(c: &mut lru::LruCache<String, CacheEntry>, key: &str) -> (r: Option<CacheEntry>)
    requires
        lru_wf(*old(c)),
    ensures
        lru_wf(*final(c)),
        lru_capacity(*final(c)) == lru_capacity(*old(c)),
        ({
            let s = lru_contents(*old(c));
            let i = key_index(s, key@);
            if i < 0 {
                r is None && lru_contents(*final(c)) == s
            } else {
                r == Some(s[i].1) && lru_contents(*final(c)) == s.remove(i)
            }
        }),
{
    c.pop(key)
}

/// The number of entries (`LruCache::len`).
#[verifier::external_body]
fn lru_len(c: &lru::LruCache<String, CacheEntry>) -> (n: usize)
    ensures
        n == lru_contents(*c).len(),
{
    c.len()
}

/// Removes every entry (`LruCache::clear`).
#[verifier::external_body]
fn lru_clear(c: &mut lru::LruCache<String, CacheEntry>)
    ensures
        lru_contents(*final(c)) == Seq::<(Seq<char>, CacheEntry)>::empty(),
        lru_capacity(*final(c)) == lru_capacity(*old(c)),
{
    c.clear()
}

/// The keys, most recently used first (`LruCache::iter`, keys copied).
#[verifier::external_body]
fn lru_keys(c: &lru::LruCache<String, CacheEntry>) -> (r: Vec<String>)
    ensures
        r@.len() == lru_contents(*c).len(),
        forall|i: int| 0 <= i < r@.len() ==> #[trigger] r@[i]@ == lru_contents(*c)[i].0,
{
    c.iter().map(|(k, _)| k.clone()).collect()
}

/// Looks a key up without changing recency (`LruCache::peek`); the entry is
/// copied out by [`CacheEntry::copy`].
#[verifier::external_body]
fn lru_peek(c: &lru::LruCache<String, CacheEntry>, key: &str) -> (r: Option<CacheEntry>)
    ensures
        ({
            let s = lru_contents(*c);
            let i = key_index(s, key@);
            if i < 0 {
                r is None
            } else {
                r matches Some(e) && entry_same(s[i].1, e)
            }
        }),
{
    c.peek(key).map(|e| e.copy())
}

/// The pairs after pushing `(key, entry)` into an LRU of capacity `cap`
/// holding `s` (see [`lru_push`]).
pub open spec fn push_spec(s: Seq<(Seq<char>, CacheEntry)>, cap: nat, key: Seq<char>, entry: CacheEntry) -> Seq<(Seq<char>, CacheEntry)> {
    let i = key_index(s, key);
    if i >= 0 {
        seq![(key, entry)] + s.remove(i)
    } else if s.len() == cap {
        seq![(key, entry)] + s.drop_last()
    } else {
        seq![(key, entry)] + s
    }
}

/// After storing an entry under a key, the key is the most recently used
/// one and holds that entry, so the next lookup of it finds exactly what
/// was stored.
pub proof fn lemma_store_then_find(s: Seq<(Seq<char>, CacheEntry)>, cap: nat, key: Seq<char>, e: CacheEntry)
    requires
        keys_of(s).no_duplicates(),
        s.len() <= cap,
        cap >= 1,
    ensures
        key_index(push_spec(s, cap, key, e), key) == 0,
        push_spec(s, cap, key, e)[0] == (key, e),
{
    let r = push_spec(s, cap, key, e);
    let i = key_index(s, key);
    assert(r[0] == (key, e));
    assert forall|j: int| 0 < j < r.len() implies (#[trigger] r[j]).0 != key by {
        if i >= 0 {
            let t = s.remove(i);
            assert(r[j] == t[j - 1]);
            if j - 1 < i {
                assert(t[j - 1] == s[j - 1]);
                assert(keys_of(s)[j - 1] == s[j - 1].0);
                assert(keys_of(s)[i] == s[i].0);
            } else {
                assert(t[j - 1] == s[j]);
                assert(keys_of(s)[j] == s[j].0);
                assert(keys_of(s)[i] == s[i].0);
            }
        } else if s.len() == cap {
            assert(r[j] == s[j - 1]);
        } else {
            assert(r[j] == s[j - 1]);
        }
    }
    assert(exists|j: int| 0 <= j < r.len() && (#[trigger] r[j]).0 == key) by {
        assert(r[0].0 == key);
    }
}

/// Storing an entry leaves every other key's entry in place, except the
/// least recently used one when a new key fills a full cache.
pub proof fn lemma_store_keeps_others(
    s: Seq<(Seq<char>, CacheEntry)>,
    cap: nat,
    key: Seq<char>,
    e: CacheEntry,
    other: Seq<char>,
)
    requires
        keys_of(s).no_duplicates(),
        s.len() <= cap,
        cap >= 1,
        other != key,
        key_index(s, other) >= 0,
        !(key_index(s, key) < 0 && s.len() == cap && key_index(s, other) == s.len() - 1),
    ensures
        exists|j: int| 0 <= j < push_spec(s, cap, key, e).len() && #[trigger] push_spec(s, cap, key, e)[j] == s[key_index(s, other)],
{
    let r = push_spec(s, cap, key, e);
    let i = key_index(s, key);
    let k = key_index(s, other);
    assert(s[k].0 == other);
    if i >= 0 {
        assert(s[i].0 == key);
        assert(k != i);
        let t = s.remove(i);
        if k < i {
            assert(r[k + 1] == t[k]);
            assert(r[k + 1] == s[k]);
        } else {
            assert(r[k] == t[k - 1]);
            assert(r[k] == s[k]);
        }
    } else {
        assert(r[k + 1] == s[k]);
    }
}

/// Whether an entry's cache lifetime is over at `now_ms`.
pub open spec fn expired_at(e: CacheEntry, now_ms: u64) -> bool {
    e.cache_ttl == 0 || elapsed_ms(e.cached_at_ms, now_ms) >= e.cache_ttl * 1000
}

/// The pairs whose entries are not expired at `now_ms`, in order.
pub open spec fn unexpired(s: Seq<(Seq<char>, CacheEntry)>, now_ms: u64) -> Seq<(Seq<char>, CacheEntry)> {
    s.filter(|p: (Seq<char>, CacheEntry)| !expired_at(p.1, now_ms))
}

/// `x` counted up `n` times, wrapping.
pub open spec fn inc_n(x: u64, n: nat) -> u64
    decreases n,
{
    if n == 0 {
        x
    } else {
        inc(inc_n(x, (n - 1) as nat))
    }
}

proof fn lemma_key_index_at(s: Seq<(Seq<char>, CacheEntry)>, i: int)
    requires
        keys_of(s).no_duplicates(),
        0 <= i < s.len(),
    ensures
        key_index(s, s[i].0) == i,
{
    let k = s[i].0;
    assert(s[i].0 == k);
    let j = key_index(s, k);
    assert(0 <= j < s.len() && s[j].0 == k);
    assert(keys_of(s)[i] == keys_of(s)[j]);
}

/// Where a lookup led.
#[derive(Debug)]
pub enum Lookup {
    /// The query is a background refresh: the cache is not consulted.
    Bypass,
    /// Nothing usable is cached (an expired entry is dropped).
    Miss,
    /// A live entry, with the seconds of record lifetime it has left.
    Hit(CacheEntry, u32),
}

/// How a hit was served.
#[derive(Debug, Clone, Copy, PartialEq, Eq, Structural)]
pub enum Served {
    /// Served while stale (TTL 5); the entry is to be refreshed.
    Stale,
    /// Served; the entry is near its end and is to be refreshed.
    Refresh,
    /// Served.
    Fresh,
    /// Not served: the entry ran out and was dropped.
    Dropped,
}

/// Where the lazy-refresh threshold comes from when lazy refresh is on.
#[derive(Debug, Clone, Copy, PartialEq, Eq, Structural)]
pub enum ThresholdSource {
    /// The default, 5 % of the original TTL.
    Default,
    /// The number given as `lazycache_threshold`.
    Argument,
}

/// The response cache plugin's state.
#[derive(Debug)]
pub struct CachePlugin {
    /// Entries by key, in recency order.
    pub cache: lru::LruCache<String, CacheEntry>,
    /// Maximum number of entries.
    pub max_size: usize,
    pub stats: CacheStats,
    /// Cache error responses too.
    pub negative_cache: bool,
    /// TTL of cached error responses, in seconds.
    pub negative_ttl: u32,
    /// Refresh entries near their end in the background.
    pub enable_lazycache: bool,
    /// Keep entries this long and serve them stale after their TTL.
    pub cache_ttl: Option<u32>,
    pub lazycache_stats: LazyCacheStats,
    pub tag: Option<String>,
    /// Periodic removal of expired entries.
    pub enable_cleanup: bool,
    pub cleanup_interval_secs: u64,
    /// Where the cache is saved across restarts.
    pub dump_file: Option<String>,
    pub dump_interval_secs: u64,
    /// Writes since the last dump.
    pub changes_since_dump: u64,
    /// Unix seconds of the last dump; 0 = never.
    pub last_dump_unix: u64,
}

impl CachePlugin {
    /// The cache's shape: a well-formed LRU whose capacity is `max_size`
    /// (at least 1).
    pub open spec fn wf(&self) -> bool {
        &&& lru_wf(self.cache)
        &&& lru_capacity(self.cache) == if self.max_size >= 1 { self.max_size as nat } else { 1 }
    }

    /// The cached pairs, most recently used first.
    pub open spec fn contents(&self) -> Seq<(Seq<char>, CacheEntry)> {
        lru_contents(self.cache)
    }

    /// An empty cache of at most `max_size` entries (at least 1) with the
    /// default settings.
    pub fn new(max_size: usize) -> (p: CachePlugin)
        ensures
            p.wf(),
            p.contents().len() == 0,
            p.max_size == max_size,
            p.stats == (CacheStats { hits: 0, misses: 0, evictions: 0, expirations: 0 }),
            !p.negative_cache,
            p.negative_ttl == 300,
            !p.enable_lazycache,
            p.cache_ttl is None,
            p.tag is None,
            p.enable_cleanup,
            p.cleanup_interval_secs == 60,
            p.dump_file is None,
            p.dump_interval_secs == 600,
            p.changes_since_dump == 0,
            p.last_dump_unix == 0,
            p.lazycache_stats == (LazyCacheStats { refreshes: 0, successful_refreshes: 0, failed_refreshes: 0 }),
    {
        let cap = if max_size >= 1 {
            max_size
        } else {
            1
        };
        CachePlugin {
            cache: lru_new(cap),
            max_size,
            stats: CacheStats::new(),
            negative_cache: false,
            negative_ttl: 300,
            enable_lazycache: false,
            cache_ttl: None,
            lazycache_stats: LazyCacheStats::new(),
            tag: None,
            enable_cleanup: true,
            cleanup_interval_secs: 60,
            dump_file: None,
            dump_interval_secs: 600,
            changes_since_dump: 0,
            last_dump_unix: 0,
        }
    }

    /// Turns negative caching on with this TTL.
    pub fn with_negative_cache(self, ttl: u32) -> (p: CachePlugin)
        ensures
            p == (CachePlugin { negative_cache: true, negative_ttl: ttl, ..self }),
    {
        CachePlugin { negative_cache: true, negative_ttl: ttl, ..self }
    }

    /// Turns lazy refresh on.
    pub fn with_lazycache(self) -> (p: CachePlugin)
        ensures
            p == (CachePlugin { enable_lazycache: true, ..self }),
    {
        CachePlugin { enable_lazycache: true, ..self }
    }

    /// Keeps entries `ttl_secs` seconds and serves them stale (0 = off: no
    /// change).
    pub fn with_cache_ttl(self, ttl_secs: u32) -> (p: CachePlugin)
        ensures
            ttl_secs > 0 ==> p == (CachePlugin { cache_ttl: Some(ttl_secs), ..self }),
            ttl_secs == 0 ==> p == self,
    {
        if ttl_secs > 0 {
            CachePlugin { cache_ttl: Some(ttl_secs), ..self }
        } else {
            self
        }
    }

    /// Sets periodic cleanup, at least every second.
    pub fn with_cleanup(self, enabled: bool, interval_secs: u64) -> (p: CachePlugin)
        ensures
            p == (CachePlugin {
                enable_cleanup: enabled,
                cleanup_interval_secs: if interval_secs >= 1 { interval_secs } else { 1 },
                ..self
            }),
    {
        let interval = if interval_secs >= 1 {
            interval_secs
        } else {
            1
        };
        CachePlugin { enable_cleanup: enabled, cleanup_interval_secs: interval, ..self }
    }

    /// The plugin's registered name.
    pub fn name(&self) -> (s: &'static str)
        ensures
            s@ == "cache"@,
    {
        "cache"
    }

    /// The number of cached entries.
    pub fn size(&self) -> (n: usize)
        ensures
            n == self.contents().len(),
    {
        lru_len(&self.cache)
    }

    /// Whether periodic cleanup is on.
    pub fn is_cleanup_enabled(&self) -> (b: bool)
        ensures
            b == self.enable_cleanup,
    {
        self.enable_cleanup
    }

    /// Removes every entry.
    pub fn clear(&mut self)
        requires
            old(self).wf(),
        ensures
            final(self).wf(),
            final(self).contents().len() == 0,
            final(self).stats == old(self).stats,
            final(self).max_size == old(self).max_size,
    {
        lru_clear(&mut self.cache);
    }

    /// Stores an entry, counting an eviction when a new key pushed another
    /// entry out, and counting the change for the next dump.
    pub fn store(&mut self, key: String, entry: CacheEntry)
        requires
            old(self).wf(),
        ensures
            final(self).wf(),
            final(self).contents() == push_spec(old(self).contents(), lru_capacity(old(self).cache), key@, entry),
            final(self).stats == if key_index(old(self).contents(), key@) < 0 && old(self).contents().len()
                == lru_capacity(old(self).cache) {
                CacheStats { evictions: inc(old(self).stats.evictions), ..old(self).stats }
            } else {
                old(self).stats
            },
            final(self).changes_since_dump == inc(old(self).changes_since_dump),
            *final(self) == (CachePlugin {
                cache: final(self).cache,
                stats: final(self).stats,
                changes_since_dump: final(self).changes_since_dump,
                ..*old(self)
            }),
    {
        let exists = lru_contains(&self.cache, key.as_str());
        let evicted = lru_push(&mut self.cache, key, entry);
        if evicted.is_some() && !exists {
            self.stats.record_eviction();
        }
        self.changes_since_dump = self.changes_since_dump.wrapping_add(1);
    }

    /// Removes the entries whose cache lifetime is over at `now_ms`,
    /// counting each as an expiration; returns how many were removed.
    pub fn cleanup_expired(&mut self, now_ms: u64) -> (removed: usize)
        requires
            old(self).wf(),
        ensures
            final(self).wf(),
            final(self).contents() == unexpired(old(self).contents(), now_ms),
            removed == old(self).contents().len() - unexpired(old(self).contents(), now_ms).len(),
            final(self).stats == (CacheStats {
                expirations: inc_n(old(self).stats.expirations, removed as nat),
                ..old(self).stats
            }),
            final(self).max_size == old(self).max_size,
            final(self).changes_since_dump == old(self).changes_since_dump,
    {
        let keys = lru_keys(&self.cache);
        let ghost s0 = self.contents();
        let ghost st0 = self.stats;
        let mut removed: usize = 0;
        let mut j: usize = 0;
        assert(s0.take(0) =~= Seq::<(Seq<char>, CacheEntry)>::empty());
        assert(unexpired(s0.take(0), now_ms) =~= Seq::<(Seq<char>, CacheEntry)>::empty());
        assert(s0.skip(0) =~= s0);
        while j < keys.len()
            invariant
                self.wf(),
                keys@.len() == s0.len(),
                forall|i: int| 0 <= i < keys@.len() ==> #[trigger] keys@[i]@ == s0[i].0,
                j <= keys@.len(),
                self.contents() == unexpired(s0.take(j as int), now_ms) + s0.skip(j as int),
                removed == j - unexpired(s0.take(j as int), now_ms).len(),
                self.stats == (CacheStats { expirations: inc_n(st0.expirations, removed as nat), ..st0 }),
                self.max_size == old(self).max_size,
                self.changes_since_dump == old(self).changes_since_dump,
            decreases keys.len() - j,
        {
            let ghost f = unexpired(s0.take(j as int), now_ms);
            let ghost cur = self.contents();
            proof {
                assert(cur[f.len() as int] == s0[j as int]);
                lemma_key_index_at(cur, f.len() as int);
                assert(s0.take(j + 1).drop_last() =~= s0.take(j as int));
                reveal_with_fuel(Seq::<(Seq<char>, CacheEntry)>::filter, 1);
                s0.take(j as int).lemma_filter_len(|p: (Seq<char>, CacheEntry)| !expired_at(p.1, now_ms));
            }
            let k = &keys[j];
            match lru_peek(&self.cache, k.as_str()) {
                Some(e) => {
                    if e.is_cache_expired(now_ms) {
                        let _ = lru_pop(&mut self.cache, k.as_str());
                        self.stats.record_expiration();
                        removed = removed + 1;
                        proof {
                            assert(self.contents() =~= unexpired(s0.take(j + 1), now_ms) + s0.skip(j + 1));
                        }
                    } else {
                        proof {
                            assert(self.contents() =~= unexpired(s0.take(j + 1), now_ms) + s0.skip(j + 1));
                        }
                    }
                },
                None => {},
            }
            j = j + 1;
        }
        assert(s0.take(s0.len() as int) =~= s0);
        assert(s0.skip(s0.len() as int) =~= Seq::<(Seq<char>, CacheEntry)>::empty());
        assert(self.contents() =~= unexpired(s0, now_ms));
        removed
    }
}

/// The pairs after pushing each `(key, entry)` of `items` in turn.
pub open spec fn push_all(s: Seq<(Seq<char>, CacheEntry)>, cap: nat, items: Seq<(Seq<char>, CacheEntry)>) -> Seq<(Seq<char>, CacheEntry)>
    decreases items.len(),
{
    if items.len() == 0 {
        s
    } else {
        let prev = push_all(s, cap, items.drop_last());
        push_spec(prev, cap, items.last().0, items.last().1)
    }
}

/// The TTL left to a dumped entry at `now_unix`: its original TTL less the
/// whole seconds since it was cached (truncated to 32 bits), at least 0.
pub open spec fn restored_ttl(now_unix: u64, cached_at_unix: u64, original_ttl: u32) -> u32 {
    let elapsed: u64 = if now_unix >= cached_at_unix {
        (now_unix - cached_at_unix) as u64
    } else {
        0
    };
    sat_sub(original_ttl, elapsed as u32)
}

/// One entry read back from a dump file.
#[derive(Debug)]
pub struct PersistedEntry {
    pub key: String,
    pub response: Message,
    pub cached_at_unix: u64,
    pub original_ttl: u32,
}

/// The cache entries a list of read-back entries gives at `now_unix` (those
/// with TTL left), in order, as `(key, entry)` with fresh timing at
/// `now_ms`.
pub open spec fn restored(items: Seq<PersistedEntry>, now_ms: u64, now_unix: u64) -> Seq<(Seq<char>, CacheEntry)>
    decreases items.len(),
{
    if items.len() == 0 {
        Seq::empty()
    } else {
        let prev = restored(items.drop_last(), now_ms, now_unix);
        let e = items.last();
        let rem = restored_ttl(now_unix, e.cached_at_unix, e.original_ttl);
        if rem == 0 {
            prev
        } else {
            prev.push(
                (
                    e.key@,
                    CacheEntry {
                        response: e.response,
                        cached_at_ms: now_ms,
                        ttl: rem,
                        cache_ttl: rem,
                        original_ttl: e.original_ttl,
                        last_accessed_ms: now_ms,
                        cached_at_unix: e.cached_at_unix,
                    },
                ),
            )
        }
    }
}

/// The TTLs a response is stored with, `(ttl, cache_ttl)`, or `None` when it
/// is not stored: error responses only with negative caching (negative
/// TTL), successful ones only with answers (smallest record TTL); the cache
/// TTL is the configured one when set.
pub open spec fn store_ttls(p: CachePlugin, response: Message) -> Option<(u32, u32)> {
    if response.rcode != RCODE_NOERROR {
        if p.negative_cache {
            Some(
                (
                    p.negative_ttl,
                    match p.cache_ttl {
                        Some(c) => c,
                        None => p.negative_ttl,
                    },
                ),
            )
        } else {
            None
        }
    } else if response.answers@.len() > 0 {
        let t = response_min_ttl(response);
        Some(
            (
                t,
                match p.cache_ttl {
                    Some(c) => c,
                    None => t,
                },
            ),
        )
    } else {
        None
    }
}

impl CachePlugin {
    /// Looks `key` up at `now_ms`. `already_checked` says whether this query
    /// was looked up before (a miss is then not counted again);
    /// `background` marks a background refresh query, which bypasses the
    /// cache. A hit is counted and marks the key most recently used; an
    /// expired entry is dropped and counted as an expiration and a miss.
    pub fn lookup(&mut self, key: &str, now_ms: u64, already_checked: bool, background: bool) -> (r: Lookup)
        requires
            old(self).wf(),
        ensures
            final(self).wf(),
            final(self).max_size == old(self).max_size,
            final(self).cache_ttl == old(self).cache_ttl,
            final(self).enable_lazycache == old(self).enable_lazycache,
            final(self).changes_since_dump == old(self).changes_since_dump,
            ({
                let s = old(self).contents();
                let i = key_index(s, key@);
                let st = old(self).stats;
                if background {
                    r is Bypass && final(self).contents() == s && final(self).stats == st
                } else if i < 0 {
                    r is Miss && final(self).contents() == s && final(self).stats == if already_checked {
                        st
                    } else {
                        CacheStats { misses: inc(st.misses), ..st }
                    }
                } else if expired_at(s[i].1, now_ms) {
                    r is Miss && final(self).contents() == s.remove(i) && final(self).stats == (CacheStats {
                        expirations: inc(st.expirations),
                        misses: inc(st.misses),
                        ..st
                    })
                } else {
                    (r matches Lookup::Hit(e, rem) && entry_same(
                        CacheEntry { last_accessed_ms: now_ms, ..s[i].1 },
                        e,
                    ) && rem == sat_sub(
                        s[i].1.ttl,
                        elapsed_secs_u32(s[i].1.cached_at_ms, now_ms),
                    )) && final(self).contents() == seq![s[i]] + s.remove(i) && final(self).stats == (
                    CacheStats { hits: inc(st.hits), ..st })
                }
            }),
    {
        if background {
            return Lookup::Bypass;
        }
        let ghost s = self.contents();
        let found = lru_get(&mut self.cache, key);
        let entry = match found {
            None => {
                if !already_checked {
                    self.stats.record_miss();
                }
                return Lookup::Miss;
            },
            Some(e) => e,
        };
        proof {
            let i = key_index(s, key@);
            assert(0 <= i < s.len() && s[i].0 == key@);
            assert(lru_contents(self.cache)[0] == s[i]);
            lemma_key_index_at(lru_contents(self.cache), 0);
        }
        if entry.is_cache_expired(now_ms) {
            let _ = lru_pop(&mut self.cache, key);
            self.stats.record_expiration();
            self.stats.record_miss();
            proof {
                let i = key_index(s, key@);
                assert((seq![s[i]] + s.remove(i)).remove(0) =~= s.remove(i));
            }
            return Lookup::Miss;
        }
        self.stats.record_hit();
        let mut entry = entry;
        entry.touch(now_ms);
        let rem = entry.remaining_ttl(now_ms);
        Lookup::Hit(entry, rem)
    }
}

/// What a served hit leaves in the context.
pub open spec fn served_in(o: Context, n: Context, e: CacheEntry, ttl: u32) -> bool {
    &&& n.request == o.request
    &&& n.client_ip == o.client_ip
    &&& n.tag == o.tag
    &&& n.set_entries == o.set_entries
    &&& n.returned
    &&& n.response matches Some(r) && served_response(e.response, o.request, ttl, r)
}

/// What the cache settings are.
pub struct CacheSettings {
    pub size: usize,
    pub negative_ttl: Option<u32>,
    pub cache_ttl: Option<u32>,
    pub lazycache: Option<ThresholdSource>,
    pub dump: Option<(Seq<char>, u64)>,
}

/// A number argument as `i64`: `Ok(None)` when absent, `Err(bad)` when it is
/// a number but not an `i64`, `Err(not_number)` when it is something else.
pub open spec fn number_arg(v: Option<ConfigValue>, bad: Seq<char>, not_number: Seq<char>) -> Result<Option<i64>, ErrView> {
    match v {
        None => Ok(None),
        Some(n) => if is_number(n) {
            match int_of(n) {
                Some(i) => Ok(Some(i)),
                None => Err(ErrView::Config(bad)),
            }
        } else {
            Err(ErrView::Config(not_number))
        },
    }
}

/// The settings the cache plugin's arguments give, or the first error.
pub open spec fn cache_settings(args: Seq<(String, ConfigValue)>) -> Result<CacheSettings, ErrView> {
    let size = match number_arg(arg_get(args, "size"@), "Invalid size value"@, "size must be a number"@) {
        Err(e) => Err(e),
        Ok(Some(n)) => Ok(n as usize),
        Ok(None) => Ok(1024usize),
    };
    let negative = if arg_get(args, "negative_cache"@) == Some(ConfigValue::Bool(true)) {
        match number_arg(
            arg_get(args, "negative_ttl"@),
            "Invalid negative_ttl value"@,
            "negative_ttl must be a number"@,
        ) {
            Err(e) => Err(e),
            Ok(Some(n)) => Ok(Some(n as u32)),
            Ok(None) => Ok(Some(300u32)),
        }
    } else {
        Ok(None)
    };
    let cache_ttl = match arg_get(args, "cache_ttl"@) {
        Some(v) => if is_number(v) {
            match int_of(v) {
                Some(n) => if n as u32 > 0 {
                    Ok(Some(n as u32))
                } else {
                    Ok(None)
                },
                None => Err(ErrView::Config("Invalid cache_ttl value"@)),
            }
        } else {
            Ok(None)
        },
        None => Ok(None),
    };
    let lazy = if arg_get(args, "enable_lazycache"@) == Some(ConfigValue::Bool(true)) {
        match arg_get(args, "lazycache_threshold"@) {
            None => Ok(Some(ThresholdSource::Default)),
            Some(v) => if is_number(v) {
                Ok(Some(ThresholdSource::Argument))
            } else {
                Err(ErrView::Config("lazycache_threshold must be a number"@))
            },
        }
    } else {
        Ok(None)
    };
    let dump = match arg_get(args, "dump_file"@) {
        Some(ConfigValue::Str(f)) => Some(
            (
                f@,
                match arg_get(args, "dump_interval"@) {
                    Some(v) => if is_number(v) {
                        match uint_of(v) {
                            Some(n) => n,
                            None => 600u64,
                        }
                    } else {
                        600u64
                    },
                    None => 600u64,
                },
            ),
        ),
        _ => None,
    };
    match size {
        Err(e) => Err(e),
        Ok(sz) => match negative {
            Err(e) => Err(e),
            Ok(neg) => match cache_ttl {
                Err(e) => Err(e),
                Ok(ct) => match lazy {
                    Err(e) => Err(e),
                    Ok(lz) => Ok(
                        CacheSettings { size: sz, negative_ttl: neg, cache_ttl: ct, lazycache: lz, dump },
                    ),
                },
            },
        },
    }
}

fn number_setting(v: Option<&ConfigValue>, bad: &str, not_number: &str) -> (r: Result<Option<i64>, PluginError>)
    ensures
        match number_arg(
            match v {
                Some(x) => Some(*x),
                None => None,
            },
            bad@,
            not_number@,
        ) {
            Ok(o) => r == Ok::<Option<i64>, PluginError>(o),
            Err(e) => r matches Err(x) && x.view() == e,
        },
{
    match v {
        None => Ok(None),
        Some(n) => {
            if matches!(n, ConfigValue::Int(_) | ConfigValue::Float) {
                match as_i64(n) {
                    Some(i) => Ok(Some(i)),
                    None => Err(PluginError::Config(crate::text::owned(bad))),
                }
            } else {
                Err(PluginError::Config(crate::text::owned(not_number)))
            }
        },
    }
}

fn opt_ref_view(v: Option<&ConfigValue>) -> (r: Option<&ConfigValue>)
    ensures
        r == v,
{
    v
}

impl CachePlugin {
    /// Serves a hit (an entry with `rem` seconds of record lifetime left):
    /// with no lifetime left, it is served stale with TTL 5 when a cache TTL
    /// is set, else dropped (an expiration and a miss); otherwise it is served
    /// with its remaining TTL, to be refreshed when lazy refresh is on and
    /// the caller found it below the refresh threshold. A served response
    /// ends the sequence.
    pub fn serve_hit(&mut self, ctx: &mut Context, key: &str, entry: &CacheEntry, rem: u32, below_threshold: bool) -> (r: Served)
        requires
            old(self).wf(),
        ensures
            final(self).wf(),
            final(self).max_size == old(self).max_size,
            final(self).changes_since_dump == old(self).changes_since_dump,
            rem == 0 && old(self).cache_ttl is Some ==> r == Served::Stale && served_in(
                *old(ctx),
                *final(ctx),
                *entry,
                STALE_RESPONSE_TTL_SECS,
            ) && final(self).contents() == old(self).contents() && final(self).stats == old(self).stats,
            rem == 0 && old(self).cache_ttl is None ==> r == Served::Dropped && *final(ctx) == *old(ctx) && ({
                let s = old(self).contents();
                let i = key_index(s, key@);
                let st = old(self).stats;
                &&& i >= 0 ==> final(self).contents() == s.remove(i)
                &&& i < 0 ==> final(self).contents() == s
                &&& final(self).stats == (CacheStats {
                    expirations: inc(st.expirations),
                    misses: inc(st.misses),
                    ..st
                })
            }),
            rem > 0 ==> r == (if old(self).enable_lazycache && below_threshold {
                Served::Refresh
            } else {
                Served::Fresh
            }) && served_in(*old(ctx), *final(ctx), *entry, rem) && final(self).contents() == old(self).contents()
                && final(self).stats == old(self).stats,
    {
        if rem == 0 {
            if self.cache_ttl.is_some() {
                ctx.response = Some(serve_cached_response(&entry.response, &ctx.request, STALE_RESPONSE_TTL_SECS));
                ctx.returned = true;
                return Served::Stale;
            }
            let _ = lru_pop(&mut self.cache, key);
            self.stats.record_expiration();
            self.stats.record_miss();
            return Served::Dropped;
        }
        ctx.response = Some(serve_cached_response(&entry.response, &ctx.request, rem));
        ctx.returned = true;
        if self.enable_lazycache && below_threshold {
            Served::Refresh
        } else {
            Served::Fresh
        }
    }

    /// Stores the context's response under `key` at `now_ms` (`now_unix`),
    /// unless it came from the cache, there is none, or [`store_ttls`]
    /// declines it.
    pub fn try_store_response(&mut self, ctx: &Context, key: &str, from_cache: bool, now_ms: u64, now_unix: u64)
        requires
            old(self).wf(),
        ensures
            final(self).wf(),
            final(self).max_size == old(self).max_size,
            final(self).negative_cache == old(self).negative_cache,
            final(self).negative_ttl == old(self).negative_ttl,
            final(self).cache_ttl == old(self).cache_ttl,
            ({
                let stored = !from_cache && ctx.response is Some && store_ttls(*old(self), ctx.response->Some_0) is Some;
                &&& !stored ==> final(self).contents() == old(self).contents() && final(self).stats == old(self).stats
                    && final(self).changes_since_dump == old(self).changes_since_dump
                &&& stored ==> exists|e: CacheEntry| {
                    &&& #[trigger] message_same(ctx.response->Some_0, e.response)
                    &&& (e.ttl, e.cache_ttl) == store_ttls(*old(self), ctx.response->Some_0)->Some_0
                    &&& e.original_ttl == e.ttl
                    &&& e.cached_at_ms == now_ms && e.last_accessed_ms == now_ms
                    &&& e.cached_at_unix == now_unix
                    &&& final(self).contents() == push_spec(old(self).contents(), lru_capacity(old(self).cache), key@, e)
                }
                &&& stored ==> final(self).changes_since_dump == inc(old(self).changes_since_dump)
            }),
    {
        if from_cache {
            return;
        }
        let response = match &ctx.response {
            Some(r) => r,
            None => {
                return;
            },
        };
        let ttls: Option<(u32, u32)> = if response.rcode != RCODE_NOERROR {
            if self.negative_cache {
                let c = match self.cache_ttl {
                    Some(c) => c,
                    None => self.negative_ttl,
                };
                Some((self.negative_ttl, c))
            } else {
                None
            }
        } else if response.answers.len() > 0 {
            let t = get_min_ttl(response);
            let c = match self.cache_ttl {
                Some(c) => c,
                None => t,
            };
            Some((t, c))
        } else {
            None
        };
        match ttls {
            Some((t, c)) => {
                let entry = CacheEntry::new(copy_message(response), t, c, now_ms, now_unix);
                let ghost e = entry;
                let k = crate::text::owned(key);
                self.store(k, entry);
                assert(message_same(ctx.response->Some_0, e.response));
            },
            None => {},
        }
    }

    /// Whether a dump is due at `now_unix`: a dump file is set, something
    /// changed, and either enough changed or the dump interval has passed
    /// (or there was no dump yet).
    pub fn should_dump(&self, now_unix: u64) -> (b: bool)
        ensures
            b == (self.dump_file is Some && self.changes_since_dump > 0 && (self.changes_since_dump
                >= crate::cache_dump::DUMP_THRESHOLD || self.last_dump_unix == 0 || (now_unix >= self.last_dump_unix
                && now_unix - self.last_dump_unix >= self.dump_interval_secs))),
    {
        if self.dump_file.is_none() || self.changes_since_dump == 0 {
            return false;
        }
        if self.changes_since_dump >= crate::cache_dump::dump_threshold() {
            return true;
        }
        let last = self.last_dump_unix;
        last == 0 || (now_unix >= last && now_unix - last >= self.dump_interval_secs)
    }

    /// Records a successful dump at `now_unix`.
    pub fn mark_dumped(&mut self, now_unix: u64)
        ensures
            *final(self) == (CachePlugin { changes_since_dump: 0, last_dump_unix: now_unix, ..*old(self) }),
    {
        self.changes_since_dump = 0;
        self.last_dump_unix = now_unix;
    }

    /// Copies of the cached pairs, most recently used first.
    pub fn dump_entries(&self) -> (r: Vec<(String, CacheEntry)>)
        requires
            self.wf(),
        ensures
            r@.len() == self.contents().len(),
            forall|i: int| 0 <= i < r@.len() ==> #[trigger] r@[i].0@ == self.contents()[i].0 && entry_same(
                self.contents()[i].1,
                r@[i].1,
            ),
    {
        let keys = lru_keys(&self.cache);
        let ghost s = self.contents();
        let mut out: Vec<(String, CacheEntry)> = Vec::new();
        let mut i: usize = 0;
        while i < keys.len()
            invariant
                self.wf(),
                s == self.contents(),
                keys@.len() == s.len(),
                forall|j: int| 0 <= j < keys@.len() ==> #[trigger] keys@[j]@ == s[j].0,
                i <= keys@.len(),
                out@.len() == i,
                forall|j: int| 0 <= j < i ==> #[trigger] out@[j].0@ == s[j].0 && entry_same(s[j].1, out@[j].1),
            decreases keys.len() - i,
        {
            proof {
                lemma_key_index_at(s, i as int);
            }
            match lru_peek(&self.cache, keys[i].as_str()) {
                Some(e) => {
                    out.push((keys[i].clone(), e));
                },
                None => {},
            }
            i = i + 1;
        }
        out
    }

    /// Puts entries read back from a dump into the cache at `now_ms`
    /// (`now_unix`), in order, skipping those with no TTL left; returns how
    /// many were put.
    pub fn restore_entries(&mut self, items: Vec<PersistedEntry>, now_ms: u64, now_unix: u64) -> (count: usize)
        requires
            old(self).wf(),
        ensures
            final(self).wf(),
            final(self).contents() == push_all(old(self).contents(), lru_capacity(old(self).cache), restored(items@, now_ms, now_unix)),
            count == restored(items@, now_ms, now_unix).len(),
            final(self).stats == old(self).stats,
            final(self).changes_since_dump == old(self).changes_since_dump,
            final(self).max_size == old(self).max_size,
    {
        let ghost all = items@;
        assert(all.len() == items.len());
        let ghost s0 = self.contents();
        let ghost cap = lru_capacity(self.cache);
        let mut count: usize = 0;
        let mut i: usize = 0;
        let mut rest = items;
        assert(all.take(0) =~= Seq::<PersistedEntry>::empty());
        assert(all.skip(0) =~= all);
        while rest.len() > 0
            invariant
                self.wf(),
                cap == lru_capacity(self.cache),
                i + rest@.len() == all.len(),
                all.len() <= usize::MAX,
                rest@ == all.skip(i as int),
                self.contents() == push_all(s0, cap, restored(all.take(i as int), now_ms, now_unix)),
                count == restored(all.take(i as int), now_ms, now_unix).len(),
                count <= i,
                self.stats == old(self).stats,
                self.changes_since_dump == old(self).changes_since_dump,
                self.max_size == old(self).max_size,
            decreases rest.len(),
        {
            let e = rest.remove(0);
            proof {
                assert(e == all[i as int]);
                assert(rest@ =~= all.skip(i + 1));
                assert(all.take(i + 1).drop_last() =~= all.take(i as int));
                assert(all.take(i + 1).last() == e);
            }
            let elapsed: u64 = if now_unix >= e.cached_at_unix {
                now_unix - e.cached_at_unix
            } else {
                0
            };
            let remaining = e.original_ttl.saturating_sub(elapsed as u32);
            if remaining != 0 {
                let ghost prev = restored(all.take(i as int), now_ms, now_unix);
                let entry = CacheEntry {
                    response: e.response,
                    cached_at_ms: now_ms,
                    ttl: remaining,
                    cache_ttl: remaining,
                    original_ttl: e.original_ttl,
                    last_accessed_ms: now_ms,
                    cached_at_unix: e.cached_at_unix,
                };
                let ghost pair = (e.key@, entry);
                let _ = lru_push(&mut self.cache, e.key, entry);
                proof {
                    assert(restored(all.take(i + 1), now_ms, now_unix) == prev.push(pair));
                    assert(prev.push(pair).drop_last() =~= prev);
                }
                count = count + 1;
            }
            i = i + 1;
        }
        assert(all.take(all.len() as int) =~= all);
        count
    }

    /// Sets the plugin up from its arguments (see [`cache_settings`]); also
    /// says where the lazy-refresh threshold comes from when lazy refresh is
    /// on. Cleanup runs every 60 seconds.
    pub fn init(args: &Vec<(String, ConfigValue)>, tag: Option<String>) -> (r: Result<(CachePlugin, Option<ThresholdSource>), PluginError>)
        ensures
            match cache_settings(args@) {
                Ok(c) => r matches Ok((p, lz)) && p.wf() && p.contents().len() == 0 && p.max_size == c.size
                    && p.negative_cache == (c.negative_ttl is Some) && (c.negative_ttl matches Some(t) ==> p.negative_ttl == t)
                    && (c.negative_ttl is None ==> p.negative_ttl == 300)
                    && p.stats == (CacheStats { hits: 0, misses: 0, evictions: 0, expirations: 0 })
                    && p.lazycache_stats == (LazyCacheStats { refreshes: 0, successful_refreshes: 0, failed_refreshes: 0 })
                    && p.changes_since_dump == 0 && p.last_dump_unix == 0
                    && p.cache_ttl == c.cache_ttl && p.enable_lazycache == (c.lazycache is Some) && lz == c.lazycache
                    && p.enable_cleanup && p.cleanup_interval_secs == 60 && p.tag == tag
                    && match c.dump {
                        Some((f, n)) => p.dump_file matches Some(x) && x@ == f && p.dump_interval_secs == n,
                        None => p.dump_file is None && p.dump_interval_secs == 600,
                    },
                Err(e) => r matches Err(x) && x.view() == e,
            },
    {
        let size: usize = match number_setting(opt_ref_view(get_arg(args, "size")), "Invalid size value", "size must be a number") {
            Err(e) => {
                return Err(e);
            },
            Ok(Some(n)) => n as usize,
            Ok(None) => 1024,
        };
        let mut cache = CachePlugin::new(size);
        let neg_on = match get_arg(args, "negative_cache") {
            Some(ConfigValue::Bool(b)) => *b,
            _ => false,
        };
        if neg_on {
            let t: u32 = match number_setting(
                opt_ref_view(get_arg(args, "negative_ttl")),
                "Invalid negative_ttl value",
                "negative_ttl must be a number",
            ) {
                Err(e) => {
                    return Err(e);
                },
                Ok(Some(n)) => n as u32,
                Ok(None) => 300,
            };
            cache = cache.with_negative_cache(t);
        }
        match get_arg(args, "cache_ttl") {
            Some(v) => {
                if matches!(v, ConfigValue::Int(_) | ConfigValue::Float) {
                    match as_i64(v) {
                        Some(n) => {
                            cache = cache.with_cache_ttl(n as u32);
                        },
                        None => {
                            return Err(PluginError::Config(crate::text::owned("Invalid cache_ttl value")));
                        },
                    }
                }
            },
            None => {},
        }
        let lazy_on = match get_arg(args, "enable_lazycache") {
            Some(ConfigValue::Bool(b)) => *b,
            _ => false,
        };
        let mut source: Option<ThresholdSource> = None;
        if lazy_on {
            match get_arg(args, "lazycache_threshold") {
                None => {
                    source = Some(ThresholdSource::Default);
                },
                Some(v) => {
                    if matches!(v, ConfigValue::Int(_) | ConfigValue::Float) {
                        source = Some(ThresholdSource::Argument);
                    } else {
                        return Err(
                            PluginError::Config(crate::text::owned("lazycache_threshold must be a number")),
                        );
                    }
                },
            }
            cache = cache.with_lazycache();
        }
        cache = cache.with_cleanup(true, 60);
        match get_arg(args, "dump_file") {
            Some(ConfigValue::Str(f)) => {
                cache.dump_file = Some(f.clone());
                match get_arg(args, "dump_interval") {
                    Some(v) => {
                        if matches!(v, ConfigValue::Int(_) | ConfigValue::Float) {
                            cache.dump_interval_secs = match as_u64(v) {
                                Some(n) => n,
                                None => 600,
                            };
                        }
                    },
                    None => {},
                }
            },
            _ => {},
        }
        cache.tag = tag;
        Ok((cache, source))
    }
}

} // verus!
