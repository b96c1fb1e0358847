//! Audit configuration, security event names and audit bookkeeping.

use vstd::prelude::*;
use crate::text::{
    chars_of, chars_eq, concat_chars, is_alpha, is_ascii_alphabetic, owned, parse_unsigned,
    parse_unsigned_chars, string_from_chars, to_ascii_upper, trim, trim_chars, upper,
    contains_chars, contains_seq, dec, digit_char, all_digits, digits_value, is_digit, is_ws, trim_start, trim_end, drop_plus,
};

verus! {

/// Security event types for audit logging.
#[derive(Debug, Clone, Copy, PartialEq, Eq, Hash)]
pub enum SecurityEventType {
    /// Client exceeded rate limit
    RateLimitExceeded,
    /// Query for a blocked domain
    BlockedDomainQuery,
    /// Upstream DNS server failure
    UpstreamFailure,
    /// Query denied by ACL
    AclDenied,
    /// Malformed DNS query received
    MalformedQuery,
    /// Query timeout
    QueryTimeout,
}

/// The snake-case name of each security event type.
pub open spec fn event_name(t: SecurityEventType) -> Seq<char> {
    match t {
        SecurityEventType::RateLimitExceeded => "rate_limit_exceeded"@,
        SecurityEventType::BlockedDomainQuery => "blocked_domain_query"@,
        SecurityEventType::UpstreamFailure => "upstream_failure"@,
        SecurityEventType::AclDenied => "acl_denied"@,
        SecurityEventType::MalformedQuery => "malformed_query"@,
        SecurityEventType::QueryTimeout => "query_timeout"@,
    }
}

/// The event type whose name is `s`, if any.
pub open spec fn event_named(s: Seq<char>) -> Option<SecurityEventType> {
    if s == "rate_limit_exceeded"@ {
        Some(SecurityEventType::RateLimitExceeded)
    } else if s == "blocked_domain_query"@ {
        Some(SecurityEventType::BlockedDomainQuery)
    } else if s == "upstream_failure"@ {
        Some(SecurityEventType::UpstreamFailure)
    } else if s == "acl_denied"@ {
        Some(SecurityEventType::AclDenied)
    } else if s == "malformed_query"@ {
        Some(SecurityEventType::MalformedQuery)
    } else if s == "query_timeout"@ {
        Some(SecurityEventType::QueryTimeout)
    } else {
        None
    }
}

/// Whether the characters of `s` spell the literal `lit`.
fn is_literal(s: &Vec<char>, lit: &str) -> (b: bool)
    ensures
        b == (s@ == lit@),
{
    let l = chars_of(lit);
    chars_eq(s, &l)
}

impl SecurityEventType {
    /// The string name of this event type.
    pub fn as_str(&self) -> (r: &'static str)
        ensures
            r@ == event_name(*self),
    {
        match self {
            SecurityEventType::RateLimitExceeded => "rate_limit_exceeded",
            SecurityEventType::BlockedDomainQuery => "blocked_domain_query",
            SecurityEventType::UpstreamFailure => "upstream_failure",
            SecurityEventType::AclDenied => "acl_denied",
            SecurityEventType::MalformedQuery => "malformed_query",
            SecurityEventType::QueryTimeout => "query_timeout",
        }
    }

    /// Parses an event type from its name.
    pub fn parse(s: &str) -> (r: Option<SecurityEventType>)
        ensures
            r == event_named(s@),
    {
        let c = chars_of(s);
        if is_literal(&c, "rate_limit_exceeded") {
            Some(SecurityEventType::RateLimitExceeded)
        } else if is_literal(&c, "blocked_domain_query") {
            Some(SecurityEventType::BlockedDomainQuery)
        } else if is_literal(&c, "upstream_failure") {
            Some(SecurityEventType::UpstreamFailure)
        } else if is_literal(&c, "acl_denied") {
            Some(SecurityEventType::AclDenied)
        } else if is_literal(&c, "malformed_query") {
            Some(SecurityEventType::MalformedQuery)
        } else if is_literal(&c, "query_timeout") {
            Some(SecurityEventType::QueryTimeout)
        } else {
            None
        }
    }
}

/// Parsing the name of an event type gives that event type back.
pub proof fn lemma_event_name_roundtrip(t: SecurityEventType)
    ensures
        event_named(event_name(t)) == Some(t),
{
    reveal_strlit("rate_limit_exceeded");
    reveal_strlit("blocked_domain_query");
    reveal_strlit("upstream_failure");
    reveal_strlit("acl_denied");
    reveal_strlit("malformed_query");
    reveal_strlit("query_timeout");
    assert("rate_limit_exceeded"@.len() == 19);
    assert("blocked_domain_query"@.len() == 20);
    assert("upstream_failure"@.len() == 16);
    assert("acl_denied"@.len() == 10);
    assert("malformed_query"@.len() == 15);
    assert("query_timeout"@.len() == 13);
}

/// Security event logging configuration.
#[derive(Debug, Clone, PartialEq)]
pub struct SecurityEventConfig {
    /// Enable security event logging (default: true when present)
    pub enabled: bool,
    /// Enable writing security events to filesystem (overrides global setting if specified)
    pub log_to_file: Option<bool>,
    /// Path to security event log file
    pub path: String,
    /// Events to track (empty = all events)
    pub events: Vec<String>,
    /// Include full query details (default: true)
    pub include_query_details: bool,
    /// Log buffer size before flush (overrides global audit.buffer_size if set)
    pub buffer_size: Option<usize>,
    /// Maximum file size in bytes before rotation (overrides global audit.max_file_size if set)
    pub max_file_size: Option<u64>,
    /// Number of rotated files to keep (overrides global audit.max_files if set)
    pub max_files: Option<u32>,
}

/// Default path of the query log.
pub fn default_query_log_path() -> (r: String)
    ensures
        r@ == "queries.log"@,
{
    owned("queries.log")
}

/// Default query log format.
pub fn default_format() -> (r: String)
    ensures
        r@ == "json"@,
{
    owned("json")
}

/// Response details are logged by default.
pub fn default_include_response() -> (r: bool)
    ensures
        r,
{
    true
}

/// Client addresses are logged by default.
pub fn default_include_client_ip() -> (r: bool)
    ensures
        r,
{
    true
}

/// DNS-SD discovery queries are left out of the log by default.
pub fn default_exclude_dns_sd() -> (r: bool)
    ensures
        r,
{
    true
}

/// Logs are written to files by default.
pub fn default_log_to_file() -> (r: bool)
    ensures
        r,
{
    true
}

/// Default number of buffered log lines before a flush.
pub fn default_buffer_size() -> (r: usize)
    ensures
        r == 100,
{
    100
}

/// Default size of a log file before rotation: 100 MiB.
pub fn default_max_file_size() -> (r: u64)
    ensures
        r == 100 * 1024 * 1024,
{
    100 * 1024 * 1024
}

/// Default number of rotated files kept.
pub fn default_max_files() -> (r: u32)
    ensures
        r == 10,
{
    10
}

/// Security event logging is on when configured.
pub fn default_security_enabled() -> (r: bool)
    ensures
        r,
{
    true
}

/// Default path of the security event log.
pub fn default_security_log_path() -> (r: String)
    ensures
        r@ == "security.log"@,
{
    owned("security.log")
}

/// Query details are included in security events by default.
pub fn default_include_query_details() -> (r: bool)
    ensures
        r,
{
    true
}

impl SecurityEventConfig {
    /// The configuration used when none is given.
    pub fn default_config() -> (c: SecurityEventConfig)
        ensures
            c.enabled,
            c.log_to_file is None,
            c.path@ == "security.log"@,
            c.events@.len() == 0,
            c.include_query_details,
            c.buffer_size is None,
            c.max_file_size is None,
            c.max_files is None,
    {
        SecurityEventConfig {
            enabled: default_security_enabled(),
            log_to_file: None,
            path: default_security_log_path(),
            events: Vec::new(),
            include_query_details: default_include_query_details(),
            buffer_size: None,
            max_file_size: None,
            max_files: None,
        }
    }
}

impl Default for SecurityEventConfig {
    fn default() -> (c: SecurityEventConfig)
        ensures
            c.enabled,
            c.path@ == "security.log"@,
            c.events@.len() == 0,
            c.include_query_details,
    {
        SecurityEventConfig::default_config()
    }
}

/// The multiplier of a size unit.
pub open spec fn unit_multiplier(u: char) -> Option<nat> {
    if u == 'B' {
        Some(1)
    } else if u == 'K' {
        Some(1024)
    } else if u == 'M' {
        Some(1024 * 1024)
    } else if u == 'G' {
        Some(1024 * 1024 * 1024)
    } else {
        None
    }
}

/// How a trimmed, non-empty size string splits into its number part and its
/// unit: a trailing `KB`/`MB`/`GB` (any case), else a trailing letter, else no
/// unit (bytes). `None` when the whole string is one letter.
pub open spec fn size_split(t: Seq<char>) -> Option<(Seq<char>, char)> {
    let n = t.len();
    if is_alpha(t[n - 1]) {
        if n >= 2 {
            let u1 = upper(t[n - 2]);
            if upper(t[n - 1]) == 'B' && (u1 == 'K' || u1 == 'M' || u1 == 'G') {
                Some((t.take(n - 2), u1))
            } else {
                Some((t.take(n - 1), upper(t[n - 1])))
            }
        } else {
            None
        }
    } else {
        Some((t, 'B'))
    }
}

/// What a size string such as `100K`, `10MB` or `512` denotes, or the error
/// message for it.
pub open spec fn size_of(s: Seq<char>) -> Result<nat, Seq<char>> {
    let t = trim(s);
    if t.len() == 0 {
        Err("empty size string"@)
    } else {
        match size_split(t) {
            None => Err("invalid size string: "@ + t),
            Some((num_str, unit)) => match parse_unsigned(trim(num_str), u64::MAX as nat) {
                None => Err("invalid number: "@ + num_str),
                Some(num) => match unit_multiplier(unit) {
                    None => Err("invalid unit: "@ + seq![unit] + ", supported: K, M, G"@),
                    Some(m) => if num * m <= u64::MAX {
                        Ok(num * m)
                    } else {
                        Err("size too large"@)
                    },
                },
            },
        }
    }
}

/// The decimal text of a number is non-empty, all digits, and denotes it.
proof fn lemma_dec_digits(n: nat)
    ensures
        dec(n).len() > 0,
        all_digits(dec(n)),
        digits_value(dec(n)) == n,
    decreases n,
{
    if n < 10 {
        assert(dec(n) =~= seq![digit_char(n)]);
        assert(dec(n).drop_last() =~= Seq::<char>::empty());
        assert(digit_char(n) as nat == n + 48);
        assert(digits_value(dec(n)) == digits_value(dec(n).drop_last()) * 10 + (dec(n).last() as nat - '0' as nat) as nat);
    } else {
        lemma_dec_digits(n / 10);
        let d = dec(n / 10);
        assert(dec(n) == d.push(digit_char(n % 10)));
        assert(dec(n).drop_last() =~= d);
        assert(digit_char(n % 10) as nat == n % 10 + 48);
        assert(digits_value(dec(n)) == digits_value(d) * 10 + (digit_char(n % 10) as nat - '0' as nat) as nat);
        assert((n / 10) * 10 + n % 10 == n);
        assert forall|i: int| 0 <= i < dec(n).len() implies is_digit(#[trigger] dec(n)[i]) by {
            if i < d.len() {
                assert(dec(n)[i] == d[i]);
            }
        }
    }
}

/// A size written as a plain decimal number of bytes reads back as that
/// number.
pub proof fn lemma_size_of_decimal(n: u64)
    ensures
        size_of(dec(n as nat)) == Ok::<nat, Seq<char>>(n as nat),
{
    let t = dec(n as nat);
    lemma_dec_digits(n as nat);
    assert(is_digit(t[0]));
    assert(is_digit(t[t.len() - 1]));
    assert(!is_ws(t[0]));
    assert(!is_ws(t.last()));
    assert(trim_start(t) == t);
    assert(trim_end(t) == t);
    assert(trim(t) == t);
    assert(!is_alpha(t[t.len() - 1]));
    assert(size_split(t) == Some((t, 'B')));
    assert(drop_plus(t) == t);
    assert(parse_unsigned(t, u64::MAX as nat) == Some(n as nat));
}

fn message(prefix: &str, rest: &Vec<char>) -> (r: String)
    ensures
        r@ == prefix@ + rest@,
{
    let p = chars_of(prefix);
    let all = concat_chars(&p, rest);
    string_from_chars(&all)
}

/// Parses a size string with an optional unit (`K`, `M`, `G`, optionally
/// followed by `B`, in any case).
pub fn parse_size(s: &str) -> (r: Result<u64, String>)
    ensures
        match size_of(s@) {
            Ok(v) => r == Ok::<u64, String>(v as u64),
            Err(m) => r is Err && r->Err_0@ == m,
        },
{
    let all = chars_of(s);
    let t = trim_chars(&all);
    if t.len() == 0 {
        return Err(owned("empty size string"));
    }
    let n = t.len();
    let last = t[n - 1];
    let num_str: Vec<char>;
    let unit: char;
    if is_ascii_alphabetic(last) {
        if n >= 2 {
            let u1 = to_ascii_upper(t[n - 2]);
            let u2 = to_ascii_upper(last);
            if u2 == 'B' && (u1 == 'K' || u1 == 'M' || u1 == 'G') {
                num_str = crate::text::slice_chars(&t, 0, n - 2);
                unit = u1;
                assert(num_str@ =~= t@.take(n - 2));
            } else {
                num_str = crate::text::slice_chars(&t, 0, n - 1);
                unit = u2;
                assert(num_str@ =~= t@.take(n - 1));
            }
        } else {
            return Err(message("invalid size string: ", &t));
        }
    } else {
        num_str = t.clone();
        unit = 'B';
    }
    let trimmed = trim_chars(&num_str);
    let num = match parse_unsigned_chars(&trimmed, u64::MAX) {
        Some(v) => v,
        None => {
            return Err(message("invalid number: ", &num_str));
        },
    };
    let multiplier: u64 = if unit == 'B' {
        1
    } else if unit == 'K' {
        1024
    } else if unit == 'M' {
        1024 * 1024
    } else if unit == 'G' {
        1024 * 1024 * 1024
    } else {
        let mut u: Vec<char> = Vec::new();
        u.push(unit);
        let tail = chars_of(", supported: K, M, G");
        let rest = concat_chars(&u, &tail);
        proof {
            assert(rest@ =~= seq![unit] + ", supported: K, M, G"@);
        }
        let r = message("invalid unit: ", &rest);
        proof {
            assert(r@ =~= "invalid unit: "@ + seq![unit] + ", supported: K, M, G"@);
        }
        return Err(r);
    };
    match num.checked_mul(multiplier) {
        Some(v) => Ok(v),
        None => Err(owned("size too large")),
    }
}

/// Whether a query name is a DNS-SD discovery probe (`._dns-sd._udp` in it).
pub fn is_dns_sd_query(qname: &str) -> (b: bool)
    ensures
        b == contains_seq(qname@, "._dns-sd._udp"@),
{
    let q = chars_of(qname);
    let p = chars_of("._dns-sd._udp");
    contains_chars(&q, &p)
}

/// Counters of the audit event bus.
#[derive(Debug, Default)]
pub struct EventBusStats {
    /// Total events published
    pub events_published: u64,
    /// Events dropped due to slow subscribers (lagged)
    pub events_dropped: u64,
    /// Current number of active subscribers
    pub active_subscribers: usize,
    /// Peak number of subscribers
    pub peak_subscribers: usize,
}

/// Snapshot of event bus statistics.
#[derive(Debug, Clone, Default)]
pub struct EventBusStatsSnapshot {
    pub events_published: u64,
    pub events_dropped: u64,
    pub active_subscribers: usize,
    pub peak_subscribers: usize,
}

impl EventBusStats {
    /// All counters at zero.
    pub fn new() -> (s: EventBusStats)
        ensures
            s.events_published == 0,
            s.events_dropped == 0,
            s.active_subscribers == 0,
            s.peak_subscribers == 0,
    {
        EventBusStats { events_published: 0, events_dropped: 0, active_subscribers: 0, peak_subscribers: 0 }
    }

    /// A copy of the current counters.
    pub fn snapshot(&self) -> (r: EventBusStatsSnapshot)
        ensures
            r.events_published == self.events_published,
            r.events_dropped == self.events_dropped,
            r.active_subscribers == self.active_subscribers,
            r.peak_subscribers == self.peak_subscribers,
    {
        EventBusStatsSnapshot {
            events_published: self.events_published,
            events_dropped: self.events_dropped,
            active_subscribers: self.active_subscribers,
            peak_subscribers: self.peak_subscribers,
        }
    }

    /// Records one published event (the counter wraps like an atomic add).
    pub fn record_published(&mut self)
        ensures
            final(self).events_published == old(self).events_published.wrapping_add(1),
            final(self).events_dropped == old(self).events_dropped,
            final(self).active_subscribers == old(self).active_subscribers,
            final(self).peak_subscribers == old(self).peak_subscribers,
    {
        self.events_published = self.events_published.wrapping_add(1);
    }

    /// Records `count` events lost by a lagging subscriber.
    pub fn record_dropped(&mut self, count: u64)
        ensures
            final(self).events_dropped == old(self).events_dropped.wrapping_add(count),
            final(self).events_published == old(self).events_published,
            final(self).active_subscribers == old(self).active_subscribers,
            final(self).peak_subscribers == old(self).peak_subscribers,
    {
        self.events_dropped = self.events_dropped.wrapping_add(count);
    }

    /// Records a new subscriber; returns the number of active subscribers,
    /// and raises the peak when it is exceeded.
    pub fn record_subscribe(&mut self) -> (current: usize)
        ensures
            current == old(self).active_subscribers.wrapping_add(1),
            final(self).active_subscribers == current,
            final(self).peak_subscribers == if current > old(self).peak_subscribers {
                current
            } else {
                old(self).peak_subscribers
            },
            final(self).events_published == old(self).events_published,
            final(self).events_dropped == old(self).events_dropped,
    {
        let current = self.active_subscribers.wrapping_add(1);
        self.active_subscribers = current;
        if current > self.peak_subscribers {
            self.peak_subscribers = current;
        }
        current
    }

    /// Records a subscriber going away.
    pub fn record_unsubscribe(&mut self)
        ensures
            final(self).active_subscribers == old(self).active_subscribers.wrapping_sub(1),
            final(self).peak_subscribers == old(self).peak_subscribers,
            final(self).events_published == old(self).events_published,
            final(self).events_dropped == old(self).events_dropped,
    {
        self.active_subscribers = self.active_subscribers.wrapping_sub(1);
    }
}

/// Audit statistics.
#[derive(Debug, Clone, Default)]
pub struct AuditStats {
    pub queries_logged: u64,
    pub queries_sampled_out: u64,
    pub security_events_logged: u64,
    pub events_dropped: u64,
    pub active_subscribers: usize,
}

} // verus!
