//! Query log entries and audit events: their text and JSON forms, the
//! timestamp they carry, and the entry logged for a query context.

use vstd::prelude::*;
use crate::audit::{event_name, is_dns_sd_query, parse_size, size_of, SecurityEventType};
use crate::config::ConfigValue;
use crate::dns::{Context, RData, Record};
use crate::ip::{ip_text, ip_to_chars, IpAddr};
use crate::text::{
    append_chars, chars_of, contains_seq, dec, dec_chars, digit_char, owned, string_from_chars,
};

verus! {

/// A local date and time, as the clock gave it.
#[derive(Debug, Clone, Copy)]
pub struct DateTimeParts {
    pub year: i32,
    pub month: u8,
    pub day: u8,
    pub hour: u8,
    pub minute: u8,
    pub second: u8,
    pub millisecond: u16,
    /// The offset from UTC in seconds (east positive)
    pub offset_seconds: i32,
}

impl DateTimeParts {
    /// The ranges the `time` crate keeps its fields in.
    pub open spec fn valid(&self) -> bool {
        &&& -9999 <= self.year <= 9999
        &&& 1 <= self.month <= 12
        &&& 1 <= self.day <= 31
        &&& self.hour < 24
        &&& self.minute < 60
        &&& self.second < 60
        &&& self.millisecond < 1000
        &&& -93599 <= self.offset_seconds <= 93599
    }
}

/// The current local date and time (`OffsetDateTime::now_local`, falling
/// back to `now_utc` when the local offset cannot be determined), read
/// field by field. Only the ranges of the fields are stated: the value
/// depends on the clock.
#[verifier::external_body]
fn local_now() -> (p: DateTimeParts)
    ensures
        p.valid(),
{
    let now = match time::OffsetDateTime::now_local() {
        Ok(t) => t,
        Err(_) => time::OffsetDateTime::now_utc(),
    };
    DateTimeParts {
        year: now.year(),
        month: u8::from(now.month()),
        day: now.day(),
        hour: now.hour(),
        minute: now.minute(),
        second: now.second(),
        millisecond: now.millisecond(),
        offset_seconds: now.offset().whole_seconds(),
    }
}

/// The last `w` decimal digits of `n`, zero-padded.
pub open spec fn padded(n: nat, w: nat) -> Seq<char>
    decreases w,
{
    if w == 0 {
        Seq::empty()
    } else {
        padded(n / 10, (w - 1) as nat).push(digit_char(n % 10))
    }
}

/// The timestamp text `YYYY-MM-DDTHH:MM:SS.mmm±HH:MM`.
pub open spec fn timestamp_text(p: DateTimeParts) -> Seq<char> {
    let y = if p.year < 0 {
        "-"@ + padded((-p.year) as nat, 4)
    } else {
        padded(p.year as nat, 4)
    };
    let off = if p.offset_seconds < 0 {
        -p.offset_seconds
    } else {
        p.offset_seconds as int
    };
    y + "-"@ + padded(p.month as nat, 2) + "-"@ + padded(p.day as nat, 2) + "T"@ + padded(p.hour as nat, 2) + ":"@
        + padded(p.minute as nat, 2) + ":"@ + padded(p.second as nat, 2) + "."@ + padded(p.millisecond as nat, 3)
        + (if p.offset_seconds < 0 {
        "-"@
    } else {
        "+"@
    }) + padded((off / 3600) as nat, 2) + ":"@ + padded(((off % 3600) / 60) as nat, 2)
}

fn push_padded(out: &mut Vec<char>, n: u64, w: u8)
    ensures
        final(out)@ == old(out)@ + padded(n as nat, w as nat),
    decreases w,
{
    if w > 0 {
        push_padded(out, n / 10, w - 1);
        let c = (((n % 10) as u8) + 48) as char;
        out.push(c);
    } else {
        assert(old(out)@ + padded(n as nat, 0) =~= old(out)@);
    }
}

fn push_str(out: &mut Vec<char>, s: &str)
    ensures
        final(out)@ == old(out)@ + s@,
{
    let c = chars_of(s);
    append_chars(out, &c);
}

/// Formats a date and time as [`timestamp_text`].
#[verifier::rlimit(40)]
pub fn format_timestamp(p: &DateTimeParts) -> (r: String)
    requires
        p.valid(),
    ensures
        r@ == timestamp_text(*p),
{
    let mut t: Vec<char> = Vec::new();
    if p.year < 0 {
        push_str(&mut t, "-");
        push_padded(&mut t, (0 - p.year) as u64, 4);
    } else {
        push_padded(&mut t, p.year as u64, 4);
    }
    push_str(&mut t, "-");
    push_padded(&mut t, p.month as u64, 2);
    push_str(&mut t, "-");
    push_padded(&mut t, p.day as u64, 2);
    push_str(&mut t, "T");
    push_padded(&mut t, p.hour as u64, 2);
    push_str(&mut t, ":");
    push_padded(&mut t, p.minute as u64, 2);
    push_str(&mut t, ":");
    push_padded(&mut t, p.second as u64, 2);
    push_str(&mut t, ".");
    push_padded(&mut t, p.millisecond as u64, 3);
    let off: i32 = if p.offset_seconds < 0 {
        push_str(&mut t, "-");
        0 - p.offset_seconds
    } else {
        push_str(&mut t, "+");
        p.offset_seconds
    };
    push_padded(&mut t, (off / 3600) as u64, 2);
    push_str(&mut t, ":");
    push_padded(&mut t, ((off % 3600) / 60) as u64, 2);
    let r = string_from_chars(&t);
    assert(r@ =~= timestamp_text(*p));
    r
}

/// The current local time as a timestamp text.
pub fn now_timestamp() -> (r: String)
    ensures
        exists|p: DateTimeParts| p.valid() && r@ == timestamp_text(p),
{
    let p = local_now();
    format_timestamp(&p)
}

/// A lower-case hexadecimal digit.
pub open spec fn hex_digit(d: u32) -> char {
    if d < 10 {
        (('0' as u32) + d) as char
    } else {
        (('a' as u32) + d - 10) as char
    }
}

/// How serde_json writes one character inside a string literal: `"` and `\`
/// behind a backslash, backspace, tab, line feed, form feed and carriage
/// return as `\b`, `\t`, `\n`, `\f`, `\r`, the other characters below
/// U+0020 as `\u00` and two lower-case hex digits, and the rest as they are.
pub open spec fn json_escape_char(c: char) -> Seq<char> {
    let u = c as u32;
    if c == '"' {
        seq!['\\', '"']
    } else if c == '\\' {
        seq!['\\', '\\']
    } else if u == 8 {
        seq!['\\', 'b']
    } else if u == 9 {
        seq!['\\', 't']
    } else if u == 10 {
        seq!['\\', 'n']
    } else if u == 12 {
        seq!['\\', 'f']
    } else if u == 13 {
        seq!['\\', 'r']
    } else if u < 0x20 {
        seq!['\\', 'u', '0', '0', hex_digit(u / 16), hex_digit(u % 16)]
    } else {
        seq![c]
    }
}

/// The characters of `s`, each escaped as in a JSON string literal.
pub open spec fn json_escaped(s: Seq<char>) -> Seq<char>
    decreases s.len(),
{
    if s.len() == 0 {
        Seq::empty()
    } else {
        json_escaped(s.drop_last()) + json_escape_char(s.last())
    }
}

/// What `serde_json::to_string` gives for a string: the JSON string
/// literal, the escaped characters between double quotes.
pub open spec fn json_quoted(s: Seq<char>) -> Seq<char> {
    seq!['"'] + json_escaped(s) + seq!['"']
}

/// The JSON string literal of `s` (`serde_json::to_string` on a `&str`,
/// which writes a string without failing): see [`json_quoted`].
#[verifier::external_body]
fn json_string(s: &str) -> (r: String)
    ensures
        r@ == json_quoted(s@),
{
    match serde_json::to_string(s) {
        Ok(t) => t,
        Err(_) => String::new(),
    }
}

/// The parts joined with `sep` between them.
pub open spec fn joined(parts: Seq<Seq<char>>, sep: Seq<char>) -> Seq<char>
    decreases parts.len(),
{
    if parts.len() == 0 {
        Seq::empty()
    } else if parts.len() == 1 {
        parts[0]
    } else {
        joined(parts.drop_last(), sep) + sep + parts.last()
    }
}

/// Joins the parts with `sep` between them.
pub fn join_parts(parts: &Vec<Vec<char>>, sep: &str) -> (r: Vec<char>)
    ensures
        r@ == joined(crate::text::views(parts@), sep@),
{
    let ghost pv = crate::text::views(parts@);
    let mut r: Vec<char> = Vec::new();
    let mut i: usize = 0;
    assert(pv.take(0) =~= Seq::<Seq<char>>::empty());
    while i < parts.len()
        invariant
            i <= parts@.len(),
            pv == crate::text::views(parts@),
            r@ == joined(pv.take(i as int), sep@),
        decreases parts.len() - i,
    {
        proof {
            assert(pv.take(i + 1).drop_last() =~= pv.take(i as int));
            assert(pv.take(i + 1).last() == parts@[i as int]@);
        }
        if i > 0 {
            push_str(&mut r, sep);
        } else {
            assert(pv.take(1) =~= seq![parts@[0]@]);
        }
        append_chars(&mut r, &parts[i]);
        i = i + 1;
    }
    assert(pv.take(parts@.len() as int) =~= pv);
    r
}

/// The text of a boolean.
pub open spec fn bool_text(b: bool) -> Seq<char> {
    if b {
        "true"@
    } else {
        "false"@
    }
}

fn bool_chars(b: bool) -> (r: Vec<char>)
    ensures
        r@ == bool_text(b),
{
    if b {
        chars_of("true")
    } else {
        chars_of("false")
    }
}

/// A DNS query log entry.
#[derive(Debug, Clone)]
pub struct QueryLogEntry {
    /// Timestamp (local time, `YYYY-MM-DDTHH:MM:SS.mmm±HH:MM`)
    pub timestamp: String,
    /// Query ID
    pub query_id: u16,
    /// Client IP address
    pub client_ip: Option<IpAddr>,
    /// Protocol (udp, tcp, doh, dot, doq)
    pub protocol: String,
    /// Query name
    pub qname: String,
    /// Query type
    pub qtype: String,
    /// Query class
    pub qclass: String,
    /// Response code
    pub rcode: Option<String>,
    /// Number of answers
    pub answer_count: Option<usize>,
    /// Response time in milliseconds
    pub response_time_ms: Option<u64>,
    /// Response time in microseconds
    pub response_time_us: Option<u64>,
    /// Whether the response came from cache
    pub cached: Option<bool>,
    /// Upstream server used
    pub upstream: Option<String>,
    /// Response answers (IP addresses)
    pub answers: Option<Vec<String>>,
}

/// The texts of strings.
pub open spec fn texts(v: Seq<String>) -> Seq<Seq<char>> {
    v.map_values(|s: String| s@)
}

/// The `key=value` parts of an entry's text form.
pub open spec fn entry_text_parts(e: QueryLogEntry) -> Seq<Seq<char>> {
    seq![e.timestamp@, "id="@ + dec(e.query_id as nat)] + (match e.client_ip {
        Some(ip) => seq!["client="@ + ip_text(ip)],
        None => Seq::empty(),
    }) + seq!["proto="@ + e.protocol@, "qname="@ + e.qname@, "qtype="@ + e.qtype@] + (match e.rcode {
        Some(r) => seq!["rcode="@ + r@],
        None => Seq::empty(),
    }) + (match e.answer_count {
        Some(n) => seq!["answers="@ + dec(n as nat)],
        None => Seq::empty(),
    }) + (match e.response_time_ms {
        Some(ms) => seq!["time="@ + dec(ms as nat) + "ms"@],
        None => seq!["time=-"@],
    }) + (match e.cached {
        Some(c) => seq!["cached="@ + bool_text(c)],
        None => Seq::empty(),
    })
}

/// One `"name":value` member of a JSON object.
pub open spec fn member(name: Seq<char>, value: Seq<char>) -> Seq<char> {
    "\""@ + name + "\":"@ + value
}

/// An optional member: absent for `None`.
pub open spec fn opt_member(name: Seq<char>, value: Option<Seq<char>>) -> Seq<Seq<char>> {
    match value {
        Some(v) => seq![member(name, v)],
        None => Seq::empty(),
    }
}

/// The JSON array of string literals.
pub open spec fn json_array(items: Seq<Seq<char>>) -> Seq<char> {
    "["@ + joined(items.map_values(|s: Seq<char>| json_quoted(s)), ","@) + "]"@
}

/// The members of an entry's JSON form, in field order, absent fields left
/// out.
pub open spec fn entry_members(e: QueryLogEntry) -> Seq<Seq<char>> {
    entry_head_members(e) + entry_tail_members(e)
}

/// The members up to the query class.
pub open spec fn entry_head_members(e: QueryLogEntry) -> Seq<Seq<char>> {
    seq![member("timestamp"@, json_quoted(e.timestamp@)), member("query_id"@, dec(e.query_id as nat))]
        + opt_member(
        "client_ip"@,
        match e.client_ip {
            Some(ip) => Some(json_quoted(ip_text(ip))),
            None => None,
        },
    ) + seq![
        member("protocol"@, json_quoted(e.protocol@)),
        member("qname"@, json_quoted(e.qname@)),
        member("qtype"@, json_quoted(e.qtype@)),
        member("qclass"@, json_quoted(e.qclass@)),
    ]
}

/// The optional members after the query class.
pub open spec fn entry_tail_members(e: QueryLogEntry) -> Seq<Seq<char>> {
    entry_count_members(e) + entry_extra_members(e)
}

/// The response code and the counts and times, when present.
pub open spec fn entry_count_members(e: QueryLogEntry) -> Seq<Seq<char>> {
    opt_member(
        "rcode"@,
        match e.rcode {
            Some(r) => Some(json_quoted(r@)),
            None => None,
        },
    ) + opt_member(
        "answer_count"@,
        match e.answer_count {
            Some(n) => Some(dec(n as nat)),
            None => None,
        },
    ) + opt_member(
        "response_time_ms"@,
        match e.response_time_ms {
            Some(n) => Some(dec(n as nat)),
            None => None,
        },
    ) + opt_member(
        "response_time_us"@,
        match e.response_time_us {
            Some(n) => Some(dec(n as nat)),
            None => None,
        },
    )
}

/// The cache flag, the upstream and the answers, when present.
pub open spec fn entry_extra_members(e: QueryLogEntry) -> Seq<Seq<char>> {
    opt_member(
        "cached"@,
        match e.cached {
            Some(c) => Some(bool_text(c)),
            None => None,
        },
    ) + opt_member(
        "upstream"@,
        match e.upstream {
            Some(u) => Some(json_quoted(u@)),
            None => None,
        },
    ) + opt_member(
        "answers"@,
        match e.answers {
            Some(a) => Some(json_array(texts(a@))),
            None => None,
        },
    )
}

/// The JSON object of an entry.
pub open spec fn entry_json(e: QueryLogEntry) -> Seq<char> {
    "{"@ + joined(entry_members(e), ","@) + "}"@
}

fn quoted(s: &str) -> (r: Vec<char>)
    ensures
        r@ == json_quoted(s@),
{
    let j = json_string(s);
    chars_of(j.as_str())
}

fn member_chars(name: &str, value: Vec<char>) -> (r: Vec<char>)
    ensures
        r@ == member(name@, value@),
{
    let mut r = chars_of("\"");
    push_str(&mut r, name);
    push_str(&mut r, "\":");
    append_chars(&mut r, &value);
    r
}

fn push_part(parts: &mut Vec<Vec<char>>, p: Vec<char>)
    ensures
        crate::text::views(final(parts)@) == crate::text::views(old(parts)@).push(p@),
{
    let ghost before = crate::text::views(parts@);
    parts.push(p);
    assert(crate::text::views(parts@) =~= before.push(p@));
}

fn json_array_chars(items: &Vec<String>) -> (r: Vec<char>)
    ensures
        r@ == json_array(texts(items@)),
{
    let mut parts: Vec<Vec<char>> = Vec::new();
    let ghost want = texts(items@).map_values(|s: Seq<char>| json_quoted(s));
    let mut i: usize = 0;
    while i < items.len()
        invariant
            i <= items@.len(),
            want == texts(items@).map_values(|s: Seq<char>| json_quoted(s)),
            crate::text::views(parts@) == want.take(i as int),
        decreases items.len() - i,
    {
        let q = quoted(items[i].as_str());
        push_part(&mut parts, q);
        i = i + 1;
        assert(crate::text::views(parts@) =~= want.take(i as int));
    }
    assert(want.take(items@.len() as int) =~= want);
    let mut r = chars_of("[");
    let body = join_parts(&parts, ",");
    append_chars(&mut r, &body);
    push_str(&mut r, "]");
    r
}

impl QueryLogEntry {
    /// An entry for a query, stamped with the current local time.
    pub fn new(query_id: u16, protocol: &str, qname: String, qtype: String, qclass: String) -> (e: QueryLogEntry)
        ensures
            exists|p: DateTimeParts| p.valid() && e.timestamp@ == timestamp_text(p),
            e.query_id == query_id,
            e.client_ip is None,
            e.protocol@ == protocol@,
            e.qname == qname,
            e.qtype == qtype,
            e.qclass == qclass,
            e.rcode is None,
            e.answer_count is None,
            e.response_time_ms is None,
            e.response_time_us is None,
            e.cached is None,
            e.upstream is None,
            e.answers is None,
    {
        QueryLogEntry {
            timestamp: now_timestamp(),
            query_id,
            client_ip: None,
            protocol: owned(protocol),
            qname,
            qtype,
            qclass,
            rcode: None,
            answer_count: None,
            response_time_ms: None,
            response_time_us: None,
            cached: None,
            upstream: None,
            answers: None,
        }
    }

    /// Sets the client address.
    pub fn with_client_ip(self, ip: IpAddr) -> (e: QueryLogEntry)
        ensures
            e == (QueryLogEntry { client_ip: Some(ip), ..self }),
    {
        QueryLogEntry { client_ip: Some(ip), ..self }
    }

    /// Sets the response code, answer count and response time.
    pub fn with_response(self, rcode: &str, answer_count: usize, response_time_ms: u64) -> (e: QueryLogEntry)
        ensures
            e.rcode matches Some(r) && r@ == rcode@,
            e == (QueryLogEntry {
                rcode: e.rcode,
                answer_count: Some(answer_count),
                response_time_ms: Some(response_time_ms),
                ..self
            }),
    {
        QueryLogEntry {
            rcode: Some(owned(rcode)),
            answer_count: Some(answer_count),
            response_time_ms: Some(response_time_ms),
            ..self
        }
    }

    /// Sets the response time in microseconds.
    pub fn with_response_time_us(self, response_time_us: u64) -> (e: QueryLogEntry)
        ensures
            e == (QueryLogEntry { response_time_us: Some(response_time_us), ..self }),
    {
        QueryLogEntry { response_time_us: Some(response_time_us), ..self }
    }

    /// Sets whether the response came from the cache.
    pub fn with_cached(self, cached: bool) -> (e: QueryLogEntry)
        ensures
            e == (QueryLogEntry { cached: Some(cached), ..self }),
    {
        QueryLogEntry { cached: Some(cached), ..self }
    }

    /// Sets the upstream server.
    pub fn with_upstream(self, upstream: &str) -> (e: QueryLogEntry)
        ensures
            e.upstream matches Some(u) && u@ == upstream@,
            e == (QueryLogEntry { upstream: e.upstream, ..self }),
    {
        QueryLogEntry { upstream: Some(owned(upstream)), ..self }
    }

    /// Sets the answer addresses.
    pub fn with_answers(self, answers: Vec<String>) -> (e: QueryLogEntry)
        ensures
            e == (QueryLogEntry { answers: Some(answers), ..self }),
    {
        QueryLogEntry { answers: Some(answers), ..self }
    }

    /// The one-line text form: `key=value` parts separated by spaces (see
    /// [`entry_text_parts`]).
    #[verifier::rlimit(40)]
    pub fn to_text(&self) -> (r: String)
        ensures
            r@ == joined(entry_text_parts(*self), " "@),
    {
        let mut parts: Vec<Vec<char>> = Vec::new();
        push_part(&mut parts, chars_of(self.timestamp.as_str()));
        let mut id = chars_of("id=");
        append_chars(&mut id, &dec_chars(self.query_id as u64));
        push_part(&mut parts, id);
        match &self.client_ip {
            Some(ip) => {
                let mut c = chars_of("client=");
                append_chars(&mut c, &ip_to_chars(ip));
                push_part(&mut parts, c);
            },
            None => {},
        }
        let mut p = chars_of("proto=");
        append_chars(&mut p, &chars_of(self.protocol.as_str()));
        push_part(&mut parts, p);
        let mut q = chars_of("qname=");
        append_chars(&mut q, &chars_of(self.qname.as_str()));
        push_part(&mut parts, q);
        let mut t = chars_of("qtype=");
        append_chars(&mut t, &chars_of(self.qtype.as_str()));
        push_part(&mut parts, t);
        match &self.rcode {
            Some(r) => {
                let mut c = chars_of("rcode=");
                append_chars(&mut c, &chars_of(r.as_str()));
                push_part(&mut parts, c);
            },
            None => {},
        }
        match self.answer_count {
            Some(n) => {
                let mut c = chars_of("answers=");
                append_chars(&mut c, &dec_chars(n as u64));
                push_part(&mut parts, c);
            },
            None => {},
        }
        match self.response_time_ms {
            Some(ms) => {
                let mut c = chars_of("time=");
                append_chars(&mut c, &dec_chars(ms));
                push_str(&mut c, "ms");
                push_part(&mut parts, c);
            },
            None => {
                push_part(&mut parts, chars_of("time=-"));
            },
        }
        match self.cached {
            Some(b) => {
                let mut c = chars_of("cached=");
                append_chars(&mut c, &bool_chars(b));
                push_part(&mut parts, c);
            },
            None => {},
        }
        assert(crate::text::views(parts@) =~= entry_text_parts(*self));
        let all = join_parts(&parts, " ");
        string_from_chars(&all)
    }

    #[verifier::rlimit(40)]
    fn head_members(&self) -> (parts: Vec<Vec<char>>)
        ensures
            crate::text::views(parts@) == entry_head_members(*self),
    {
        let mut parts: Vec<Vec<char>> = Vec::new();
        push_part(&mut parts, member_chars("timestamp", quoted(self.timestamp.as_str())));
        push_part(&mut parts, member_chars("query_id", dec_chars(self.query_id as u64)));
        match &self.client_ip {
            Some(ip) => {
                let t = string_from_chars(&ip_to_chars(ip));
                push_part(&mut parts, member_chars("client_ip", quoted(t.as_str())));
            },
            None => {},
        }
        push_part(&mut parts, member_chars("protocol", quoted(self.protocol.as_str())));
        push_part(&mut parts, member_chars("qname", quoted(self.qname.as_str())));
        push_part(&mut parts, member_chars("qtype", quoted(self.qtype.as_str())));
        push_part(&mut parts, member_chars("qclass", quoted(self.qclass.as_str())));
        assert(crate::text::views(parts@) =~= entry_head_members(*self));
        parts
    }

    fn tail_members(&self) -> (parts: Vec<Vec<char>>)
        ensures
            crate::text::views(parts@) == entry_tail_members(*self),
    {
        let mut parts = self.count_members();
        let mut more = self.extra_members();
        let ghost a = crate::text::views(parts@);
        let ghost b = crate::text::views(more@);
        parts.append(&mut more);
        assert(crate::text::views(parts@) =~= a + b);
        parts
    }

    #[verifier::rlimit(40)]
    fn count_members(&self) -> (parts: Vec<Vec<char>>)
        ensures
            crate::text::views(parts@) == entry_count_members(*self),
    {
        let mut parts: Vec<Vec<char>> = Vec::new();
        match &self.rcode {
            Some(r) => {
                push_part(&mut parts, member_chars("rcode", quoted(r.as_str())));
            },
            None => {},
        }
        match self.answer_count {
            Some(n) => {
                push_part(&mut parts, member_chars("answer_count", dec_chars(n as u64)));
            },
            None => {},
        }
        match self.response_time_ms {
            Some(n) => {
                push_part(&mut parts, member_chars("response_time_ms", dec_chars(n)));
            },
            None => {},
        }
        match self.response_time_us {
            Some(n) => {
                push_part(&mut parts, member_chars("response_time_us", dec_chars(n)));
            },
            None => {},
        }
        assert(crate::text::views(parts@) =~= opt_member(
            "rcode"@,
            match self.rcode {
                Some(r) => Some(json_quoted(r@)),
                None => None,
            },
        ) + opt_member(
            "answer_count"@,
            match self.answer_count {
                Some(n) => Some(dec(n as nat)),
                None => None,
            },
        ) + opt_member(
            "response_time_ms"@,
            match self.response_time_ms {
                Some(n) => Some(dec(n as nat)),
                None => None,
            },
        ) + opt_member(
            "response_time_us"@,
            match self.response_time_us {
                Some(n) => Some(dec(n as nat)),
                None => None,
            },
        ));
        parts
    }

    #[verifier::rlimit(40)]
    fn extra_members(&self) -> (parts: Vec<Vec<char>>)
        ensures
            crate::text::views(parts@) == entry_extra_members(*self),
    {
        let mut parts: Vec<Vec<char>> = Vec::new();
        match self.cached {
            Some(b) => {
                push_part(&mut parts, member_chars("cached", bool_chars(b)));
            },
            None => {},
        }
        match &self.upstream {
            Some(u) => {
                push_part(&mut parts, member_chars("upstream", quoted(u.as_str())));
            },
            None => {},
        }
        match &self.answers {
            Some(a) => {
                push_part(&mut parts, member_chars("answers", json_array_chars(a)));
            },
            None => {},
        }
        assert(crate::text::views(parts@) =~= opt_member(
            "cached"@,
            match self.cached {
                Some(c) => Some(bool_text(c)),
                None => None,
            },
        ) + opt_member(
            "upstream"@,
            match self.upstream {
                Some(u) => Some(json_quoted(u@)),
                None => None,
            },
        ) + opt_member(
            "answers"@,
            match self.answers {
                Some(a) => Some(json_array(texts(a@))),
                None => None,
            },
        ));
        parts
    }

    /// The JSON form: an object with the fields in order, absent optional
    /// fields left out (see [`entry_members`]).
    pub fn to_json(&self) -> (r: Result<String, String>)
        ensures
            r matches Ok(s) && s@ == entry_json(*self),
    {
        let mut parts = self.head_members();
        let mut tail = self.tail_members();
        let ghost hv = crate::text::views(parts@);
        let ghost tv = crate::text::views(tail@);
        parts.append(&mut tail);
        assert(crate::text::views(parts@) =~= hv + tv);
        assert(crate::text::views(parts@) =~= entry_members(*self));
        let mut r = chars_of("{");
        let body = join_parts(&parts, ",");
        append_chars(&mut r, &body);
        push_str(&mut r, "}");
        Ok(string_from_chars(&r))
    }
}

/// An audit event: a query log entry or a security event.
#[derive(Debug, Clone)]
pub enum AuditEvent {
    /// A DNS query was processed
    Query(QueryLogEntry),
    /// A security-relevant event occurred
    Security {
        timestamp: String,
        event_type: SecurityEventType,
        message: String,
        client_ip: Option<IpAddr>,
        qname: Option<String>,
    },
}

/// The JSON form of an audit event: a query event is its entry's object; a
/// security event lists the timestamp, event type name and message, then
/// the client address and query name when present, and ends with
/// `"type":"security"`.
pub open spec fn event_json(e: AuditEvent) -> Seq<char> {
    match e {
        AuditEvent::Query(q) => entry_json(q),
        AuditEvent::Security { timestamp, event_type, message, client_ip, qname } => "{"@ + member(
            "timestamp"@,
            json_quoted(timestamp@),
        ) + ","@ + member("event_type"@, json_quoted(event_name(event_type))) + ","@ + member(
            "message"@,
            json_quoted(message@),
        ) + ","@ + (match client_ip {
            Some(ip) => member("client_ip"@, json_quoted(ip_text(ip))) + ","@,
            None => Seq::empty(),
        }) + (match qname {
            Some(n) => member("qname"@, json_quoted(n@)) + ","@,
            None => Seq::empty(),
        }) + "\"type\":\"security\"}"@,
    }
}

impl AuditEvent {
    /// A security event stamped with the current local time.
    pub fn security(event_type: SecurityEventType, message: String) -> (e: AuditEvent)
        ensures
            e matches AuditEvent::Security { timestamp, event_type: t, message: m, client_ip, qname } && t
                == event_type && m == message && client_ip is None && qname is None && exists|p: DateTimeParts|
                p.valid() && timestamp@ == timestamp_text(p),
    {
        AuditEvent::Security { timestamp: now_timestamp(), event_type, message, client_ip: None, qname: None }
    }

    /// A security event with the client's address and the query name.
    pub fn security_with_client(
        event_type: SecurityEventType,
        message: String,
        client_ip: Option<IpAddr>,
        qname: Option<String>,
    ) -> (e: AuditEvent)
        ensures
            e matches AuditEvent::Security { timestamp, event_type: t, message: m, client_ip: c, qname: q } && t
                == event_type && m == message && c == client_ip && q == qname && exists|p: DateTimeParts|
                p.valid() && timestamp@ == timestamp_text(p),
    {
        AuditEvent::Security { timestamp: now_timestamp(), event_type, message, client_ip, qname }
    }

    /// The JSON form (see [`event_json`]).
    pub fn to_json(&self) -> (r: Result<String, String>)
        ensures
            r matches Ok(s) && s@ == event_json(*self),
    {
        match self {
            AuditEvent::Query(q) => q.to_json(),
            AuditEvent::Security { timestamp, event_type, message, client_ip, qname } => {
                let mut r = chars_of("{");
                append_chars(&mut r, &member_chars("timestamp", quoted(timestamp.as_str())));
                push_str(&mut r, ",");
                append_chars(&mut r, &member_chars("event_type", quoted(event_type.as_str())));
                push_str(&mut r, ",");
                append_chars(&mut r, &member_chars("message", quoted(message.as_str())));
                push_str(&mut r, ",");
                match client_ip {
                    Some(ip) => {
                        let t = string_from_chars(&ip_to_chars(ip));
                        append_chars(&mut r, &member_chars("client_ip", quoted(t.as_str())));
                        push_str(&mut r, ",");
                    },
                    None => {},
                }
                match qname {
                    Some(n) => {
                        append_chars(&mut r, &member_chars("qname", quoted(n.as_str())));
                        push_str(&mut r, ",");
                    },
                    None => {},
                }
                push_str(&mut r, "\"type\":\"security\"}");
                let out = string_from_chars(&r);
                assert(out@ =~= event_json(*self));
                Ok(out)
            },
        }
    }
}

/// `Unknown(n)`, the text of a code without a name.
pub open spec fn unknown_text(n: nat) -> Seq<char> {
    "Unknown("@ + dec(n) + ")"@
}

/// The mnemonic of a record type.
pub open spec fn type_text(t: u16) -> Seq<char> {
    if t == 1 {
        "A"@
    } else if t == 2 {
        "NS"@
    } else if t == 5 {
        "CNAME"@
    } else if t == 6 {
        "SOA"@
    } else if t == 12 {
        "PTR"@
    } else if t == 15 {
        "MX"@
    } else if t == 16 {
        "TXT"@
    } else if t == 28 {
        "AAAA"@
    } else if t == 33 {
        "SRV"@
    } else if t == 41 {
        "OPT"@
    } else if t == 64 {
        "SVCB"@
    } else if t == 65 {
        "HTTPS"@
    } else if t == 255 {
        "ANY"@
    } else {
        unknown_text(t as nat)
    }
}

/// The mnemonic of a record class.
pub open spec fn class_text(c: u16) -> Seq<char> {
    if c == 1 {
        "IN"@
    } else if c == 3 {
        "CH"@
    } else if c == 4 {
        "HS"@
    } else if c == 255 {
        "ANY"@
    } else {
        unknown_text(c as nat)
    }
}

/// The name of a response code.
pub open spec fn rcode_text(r: u8) -> Seq<char> {
    if r == 0 {
        "NoError"@
    } else if r == 1 {
        "FormErr"@
    } else if r == 2 {
        "ServFail"@
    } else if r == 3 {
        "NXDomain"@
    } else if r == 4 {
        "NotImp"@
    } else if r == 5 {
        "Refused"@
    } else {
        unknown_text(r as nat)
    }
}

fn unknown_chars(n: u64) -> (r: Vec<char>)
    ensures
        r@ == unknown_text(n as nat),
{
    let mut r = chars_of("Unknown(");
    append_chars(&mut r, &dec_chars(n));
    push_str(&mut r, ")");
    r
}

/// The mnemonic of a record type.
pub fn record_type_name(t: u16) -> (r: String)
    ensures
        r@ == type_text(t),
{
    let s = if t == 1 {
        "A"
    } else if t == 2 {
        "NS"
    } else if t == 5 {
        "CNAME"
    } else if t == 6 {
        "SOA"
    } else if t == 12 {
        "PTR"
    } else if t == 15 {
        "MX"
    } else if t == 16 {
        "TXT"
    } else if t == 28 {
        "AAAA"
    } else if t == 33 {
        "SRV"
    } else if t == 41 {
        "OPT"
    } else if t == 64 {
        "SVCB"
    } else if t == 65 {
        "HTTPS"
    } else if t == 255 {
        "ANY"
    } else {
        return string_from_chars(&unknown_chars(t as u64));
    };
    owned(s)
}

/// The mnemonic of a record class.
pub fn class_name(c: u16) -> (r: String)
    ensures
        r@ == class_text(c),
{
    let s = if c == 1 {
        "IN"
    } else if c == 3 {
        "CH"
    } else if c == 4 {
        "HS"
    } else if c == 255 {
        "ANY"
    } else {
        return string_from_chars(&unknown_chars(c as u64));
    };
    owned(s)
}

/// The name of a response code.
pub fn rcode_name(r: u8) -> (t: String)
    ensures
        t@ == rcode_text(r),
{
    let s = if r == 0 {
        "NoError"
    } else if r == 1 {
        "FormErr"
    } else if r == 2 {
        "ServFail"
    } else if r == 3 {
        "NXDomain"
    } else if r == 4 {
        "NotImp"
    } else if r == 5 {
        "Refused"
    } else {
        return string_from_chars(&unknown_chars(r as u64));
    };
    owned(s)
}

/// The addresses of the A and AAAA answers, as text, in order.
pub open spec fn answer_texts(rs: Seq<Record>) -> Seq<Seq<char>>
    decreases rs.len(),
{
    if rs.len() == 0 {
        Seq::empty()
    } else {
        let r = answer_texts(rs.drop_last());
        match rs.last().rdata {
            RData::A(a) => r.push(ip_text(IpAddr::V4(a))),
            RData::AAAA(a) => r.push(ip_text(IpAddr::V6(a))),
            _ => r,
        }
    }
}

/// What the query context carries besides the messages: the protocol the
/// query came in on, the client's address, whether the response came from
/// the cache, and the microseconds since the request started.
#[derive(Debug, Clone)]
pub struct QueryMeta {
    pub protocol: Option<String>,
    pub client_ip: Option<IpAddr>,
    pub response_from_cache: Option<bool>,
    pub elapsed_us: Option<u64>,
}

fn answer_strings(rs: &Vec<Record>) -> (r: Vec<String>)
    ensures
        texts(r@) == answer_texts(rs@),
{
    let mut r: Vec<String> = Vec::new();
    let mut i: usize = 0;
    assert(rs@.take(0) =~= Seq::<Record>::empty());
    assert(texts(r@) =~= Seq::<Seq<char>>::empty());
    while i < rs.len()
        invariant
            i <= rs@.len(),
            texts(r@) == answer_texts(rs@.take(i as int)),
        decreases rs.len() - i,
    {
        assert(rs@.take(i + 1).drop_last() =~= rs@.take(i as int));
        assert(rs@.take(i + 1).last() == rs@[i as int]);
        let ghost before = texts(r@);
        match &rs[i].rdata {
            RData::A(a) => {
                r.push(string_from_chars(&ip_to_chars(&IpAddr::V4(*a))));
                assert(texts(r@) =~= before.push(ip_text(IpAddr::V4(*a))));
            },
            RData::AAAA(a) => {
                r.push(string_from_chars(&ip_to_chars(&IpAddr::V6(*a))));
                assert(texts(r@) =~= before.push(ip_text(IpAddr::V6(*a))));
            },
            _ => {},
        }
        i = i + 1;
    }
    assert(rs@.take(rs@.len() as int) =~= rs@);
    r
}

/// The entry to log for a query: none when the request has no question or
/// asks a DNS-SD discovery name; otherwise the first question's name, type
/// and class with the request id, the protocol (`unknown` when not known)
/// and the client address, and, when there is a response, its code, answer
/// count, response time (0 when the start is not known), whether it came
/// from the cache (false when not known) and the A/AAAA answer addresses
/// (left out when there are none).
#[verifier::rlimit(40)]
pub fn log_query_for_context(ctx: &Context, meta: &QueryMeta) -> (r: Option<QueryLogEntry>)
    ensures
        r is None <==> (ctx.request.questions@.len() == 0 || contains_seq(
            ctx.request.questions@[0].qname@,
            "._dns-sd._udp"@,
        )),
        r matches Some(e) ==> {
            let q = ctx.request.questions@[0];
            &&& exists|p: DateTimeParts| p.valid() && e.timestamp@ == timestamp_text(p)
            &&& e.query_id == ctx.request.id
            &&& e.protocol@ == match meta.protocol {
                Some(p) => p@,
                None => "unknown"@,
            }
            &&& e.qname@ == q.qname@
            &&& e.qtype@ == type_text(q.qtype)
            &&& e.qclass@ == class_text(q.qclass)
            &&& e.client_ip == meta.client_ip
            &&& e.upstream is None
            &&& match ctx.response {
                None => e.rcode is None && e.answer_count is None && e.response_time_ms is None
                    && e.response_time_us is None && e.cached is None && e.answers is None,
                Some(m) => {
                    let us: u64 = match meta.elapsed_us {
                        Some(u) => u,
                        None => 0,
                    };
                    &&& e.rcode matches Some(rc) && rc@ == rcode_text(m.rcode)
                    &&& e.answer_count == Some(m.answers@.len() as usize)
                    &&& e.response_time_ms == Some((us / 1000) as u64)
                    &&& e.response_time_us == Some(us)
                    &&& e.cached == Some(
                        match meta.response_from_cache {
                            Some(c) => c,
                            None => false,
                        },
                    )
                    &&& if answer_texts(m.answers@).len() == 0 {
                        e.answers is None
                    } else {
                        e.answers matches Some(a) && texts(a@) == answer_texts(m.answers@)
                    }
                },
            }
        },
{
    if ctx.request.questions.len() == 0 {
        return None;
    }
    let q = &ctx.request.questions[0];
    if is_dns_sd_query(q.qname.as_str()) {
        return None;
    }
    let protocol = match &meta.protocol {
        Some(p) => p.clone(),
        None => owned("unknown"),
    };
    let mut entry = QueryLogEntry::new(
        ctx.request.id,
        protocol.as_str(),
        q.qname.clone(),
        record_type_name(q.qtype),
        class_name(q.qclass),
    );
    match meta.client_ip {
        Some(ip) => {
            entry = entry.with_client_ip(ip);
        },
        None => {},
    }
    match &ctx.response {
        Some(m) => {
            let us: u64 = match meta.elapsed_us {
                Some(u) => u,
                None => 0,
            };
            let rc = rcode_name(m.rcode);
            entry = entry.with_response(rc.as_str(), m.answers.len(), us / 1000);
            entry = entry.with_response_time_us(us);
            let cached = match meta.response_from_cache {
                Some(c) => c,
                None => false,
            };
            entry = entry.with_cached(cached);
            let answers = answer_strings(&m.answers);
            if answers.len() > 0 {
                entry = entry.with_answers(answers);
            }
        },
        None => {},
    }
    Some(entry)
}

/// The file size a configuration value denotes: a non-negative integer, or
/// a size string (see [`size_of`]); a negative integer is an error, and so
/// is any other kind of value.
pub open spec fn file_size_setting(v: ConfigValue) -> Result<u64, Seq<char>> {
    match v {
        ConfigValue::Int(n) => if n < 0 {
            Err("negative file size"@)
        } else if n <= u64::MAX {
            Ok(n as u64)
        } else {
            Err(size_type_error())
        },
        ConfigValue::Str(s) => match size_of(s@) {
            Ok(x) => Ok(x as u64),
            Err(m) => Err(m),
        },
        _ => Err(size_type_error()),
    }
}

/// The error for a value that is neither a number nor a string.
pub open spec fn size_type_error() -> Seq<char> {
    "invalid type: expected a number or a string with units (e.g., 100K, 10M, 1G)"@
}

/// Reads a file size setting (see [`file_size_setting`]).
pub fn max_file_size_value(v: &ConfigValue) -> (r: Result<u64, String>)
    ensures
        match file_size_setting(*v) {
            Ok(x) => r == Ok::<u64, String>(x),
            Err(m) => r matches Err(e) && e@ == m,
        },
{
    match v {
        ConfigValue::Int(n) => {
            if *n < 0 {
                Err(owned("negative file size"))
            } else if *n <= 0xffff_ffff_ffff_ffffi128 {
                Ok(*n as u64)
            } else {
                Err(owned("invalid type: expected a number or a string with units (e.g., 100K, 10M, 1G)"))
            }
        },
        ConfigValue::Str(s) => parse_size(s.as_str()),
        _ => Err(owned("invalid type: expected a number or a string with units (e.g., 100K, 10M, 1G)")),
    }
}

/// Reads an optional file size setting: absent or null is `None`.
pub fn optional_max_file_size_value(v: Option<&ConfigValue>) -> (r: Result<Option<u64>, String>)
    ensures
        match v {
            None => r == Ok::<Option<u64>, String>(None),
            Some(ConfigValue::Null) => r == Ok::<Option<u64>, String>(None),
            Some(x) => match file_size_setting(*x) {
                Ok(n) => r == Ok::<Option<u64>, String>(Some(n)),
                Err(m) => r matches Err(e) && e@ == m,
            },
        },
{
    match v {
        None => Ok(None),
        Some(ConfigValue::Null) => Ok(None),
        Some(x) => match max_file_size_value(x) {
            Ok(n) => Ok(Some(n)),
            Err(e) => Err(e),
        },
    }
}

} // verus!
