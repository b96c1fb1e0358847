//! Answering PTR queries from the addresses seen in earlier answers.
//! Addresses map to names in a concurrent map from the `dashmap` crate;
//! times are milliseconds on a monotonic clock the caller reads.

use vstd::prelude::*;
use crate::config::{arg_get, as_u64, get_arg, uint_of, ConfigValue};
use crate::dns::{Context, Message, Question, RData, Record, CLASS_IN, TYPE_PTR};
use crate::ip::{ip_parse, parse_ip, IpAddr};
use crate::ratelimit::{client_key, ClientKey};
use crate::text::{
    ascii_lower, ascii_lower_chars, chars_of, has_suffix, join_chars, join_seq, parse_unsigned,
    parse_unsigned_chars, slice_chars, split_char, split_on, string_from_chars, trim_end_char,
    trim_end_char_exec, views,
};

verus! {

/// Settings of the reverse lookup plugin.
#[derive(Debug, Clone)]
pub struct ReverseLookupArgs {
    /// Answer PTR queries from the table.
    pub handle_ptr: bool,
    /// Longest time, in seconds, an address is remembered.
    pub ttl: u32,
}

impl ReverseLookupArgs {
    /// Answer PTR queries, remember addresses at most two hours.
    pub fn default_args() -> (a: ReverseLookupArgs)
        ensures
            a.handle_ptr,
            a.ttl == 7200,
    {
        ReverseLookupArgs { handle_ptr: true, ttl: 7200 }
    }
}

impl Default for ReverseLookupArgs {
    fn default() -> (a: ReverseLookupArgs)
        ensures
            a.handle_ptr,
            a.ttl == 7200,
    {
        ReverseLookupArgs::default_args()
    }
}

/// A remembered name and when it stops counting (milliseconds).
pub type NameEntry = (String, u64);

/// Address to name table.
pub type NameTable = dashmap::DashMap<ClientKey, NameEntry>;

/// What a name table holds: the name and expiry time of each address.
pub uninterp spec fn name_table(m: NameTable) -> Map<ClientKey, (Seq<char>, u64)>;

/// No addresses.
pub open spec fn no_names() -> Map<ClientKey, (Seq<char>, u64)> {
    Map::empty()
}

/// An empty table (`DashMap::new`).
#[verifier::external_body]
fn names_new() -> (fresh: NameTable)
    ensures
        name_table(fresh) == no_names(),
{
    dashmap::DashMap::new()
}

/// The entry of an address (`DashMap::get`, copied out).
#[verifier::external_body]
fn names_get(m: &NameTable, k: ClientKey) -> (r: Option<NameEntry>)
    ensures
        match name_table(*m).get(k) {
            Some(v) => r matches Some(x) && x.0@ == v.0 && x.1 == v.1,
            None => r is None,
        },
{
    m.get(&k).map(|v| (v.0.clone(), v.1))
}

/// Sets an address's entry (`DashMap::insert`).
#[verifier::external_body]
fn names_insert(m: &mut NameTable, k: ClientKey, v: NameEntry)
    ensures
        name_table(*final(m)) == name_table(*old(m)).insert(k, (v.0@, v.1)),
{
    m.insert(k, v);
}

/// Removes an address (`DashMap::remove`).
#[verifier::external_body]
fn names_remove(m: &mut NameTable, k: ClientKey)
    ensures
        name_table(*final(m)) == name_table(*old(m)).remove(k),
{
    m.remove(&k);
}

/// The number of addresses (`DashMap::len`).
#[verifier::external_body]
fn names_len(m: &NameTable) -> (n: usize)
    ensures
        n == name_table(*m).len(),
{
    m.len()
}

/// Keeps the entries that expire after `now_ms` (`DashMap::retain` with
/// [`expires_after`]).
#[verifier::external_body]
fn names_retain(m: &mut NameTable, now_ms: u64)
    ensures
        name_table(*final(m)) == name_table(*old(m)).restrict(
            name_table(*old(m)).dom().filter(|k: ClientKey| name_table(*old(m))[k].1 > now_ms),
        ),
{
    m.retain(|_, v| expires_after(v, now_ms))
}

/// Whether an entry expires after `now_ms`.
pub fn expires_after(v: &NameEntry, now_ms: u64) -> (b: bool)
    ensures
        b == (v.1 > now_ms),
{
    v.1 > now_ms
}

/// `s` without trailing copies of `p` (`trim_end_matches` with a string).
pub open spec fn trim_end_seq(s: Seq<char>, p: Seq<char>) -> Seq<char>
    decreases s.len(),
{
    if p.len() > 0 && has_suffix(s, p) {
        trim_end_seq(s.take(s.len() - p.len()), p)
    } else {
        s
    }
}

fn trim_end_seq_exec(s: &Vec<char>, p: &Vec<char>) -> (r: Vec<char>)
    requires
        p@.len() > 0,
    ensures
        r@ == trim_end_seq(s@, p@),
{
    let mut cur = slice_chars(s, 0, s.len());
    assert(cur@ =~= s@);
    while crate::text::ends_with(&cur, p)
        invariant
            p@.len() > 0,
            trim_end_seq(s@, p@) == trim_end_seq(cur@, p@),
        decreases cur@.len(),
    {
        let n = cur.len() - p.len();
        cur = slice_chars(&cur, 0, n);
    }
    cur
}

/// The value of a lower-case hex digit.
pub open spec fn hex_value(c: char) -> Option<nat> {
    if '0' <= c && c <= '9' {
        Some((c as nat - '0' as nat) as nat)
    } else if 'a' <= c && c <= 'f' {
        Some((c as nat - 'a' as nat + 10) as nat)
    } else if 'A' <= c && c <= 'F' {
        Some((c as nat - 'A' as nat + 10) as nat)
    } else {
        None
    }
}

/// `u8::from_str_radix(text, 16)` on two characters: an optional `+`, then
/// hex digits.
pub open spec fn hex_byte(a: char, b: char) -> Option<u8> {
    if a == '+' {
        match hex_value(b) {
            Some(v) => Some(v as u8),
            None => None,
        }
    } else {
        match (hex_value(a), hex_value(b)) {
            (Some(x), Some(y)) => Some((x * 16 + y) as u8),
            _ => None,
        }
    }
}

/// The bytes of a hex string read two characters at a time, if every pair
/// reads.
pub open spec fn hex_bytes(h: Seq<char>) -> Option<Seq<u8>>
    decreases h.len(),
{
    if h.len() < 2 {
        Some(Seq::empty())
    } else {
        match hex_byte(h[0], h[1]) {
            None => None,
            Some(x) => match hex_bytes(h.skip(2)) {
                None => None,
                Some(rest) => Some(seq![x] + rest),
            },
        }
    }
}

/// The number that bytes denote, most significant first.
pub open spec fn v6_of(b: Seq<u8>) -> nat
    decreases b.len(),
{
    if b.len() == 0 {
        0
    } else {
        v6_of(b.drop_last()) * 256 + b.last() as nat
    }
}

/// `256` to the power `k`.
pub open spec fn pow256(k: nat) -> nat
    decreases k,
{
    if k == 0 {
        1
    } else {
        256 * pow256((k - 1) as nat)
    }
}

proof fn lemma_v6_bound(b: Seq<u8>)
    ensures
        v6_of(b) < pow256(b.len()),
    decreases b.len(),
{
    if b.len() > 0 {
        lemma_v6_bound(b.drop_last());
        let v = v6_of(b.drop_last());
        let p = pow256(b.drop_last().len());
        assert(v * 256 + b.last() < p * 256) by (nonlinear_arith)
            requires
                v < p,
                b.last() < 256,
        ;
    }
}

/// `nibbles` of one label put in front.
proof fn lemma_nibbles_prepend(x: Seq<char>, t: Seq<Seq<char>>)
    ensures
        nibbles(seq![x] + t) == nibbles(t) + x,
    decreases t.len(),
{
    if t.len() == 0 {
        assert(seq![x] + t =~= seq![x]);
        assert(seq![x].drop_last() =~= Seq::<Seq<char>>::empty());
        assert(nibbles(seq![x].drop_last()) =~= Seq::<char>::empty());
        assert(nibbles(seq![x]) =~= x);
    } else {
        lemma_nibbles_prepend(x, t.drop_last());
        assert((seq![x] + t).drop_last() =~= seq![x] + t.drop_last());
        assert((seq![x] + t).last() == t.last());
        assert(nibbles(seq![x] + t) =~= nibbles(t) + x);
    }
}

/// Whether every label is one character.
pub open spec fn nibble_labels(labels: Seq<Seq<char>>) -> bool {
    forall|i: int| 0 <= i < labels.len() ==> (#[trigger] labels[i]).len() == 1
}

/// The labels' characters, last label first.
pub open spec fn nibbles(labels: Seq<Seq<char>>) -> Seq<char>
    decreases labels.len(),
{
    if labels.len() == 0 {
        Seq::empty()
    } else {
        labels.last() + nibbles(labels.drop_last())
    }
}

/// The address a PTR query name names: `d.c.b.a.in-addr.arpa` for IPv4,
/// or 32 (or 31) one-character hex labels under `ip6.arpa` for IPv6. The
/// name is compared lower-case, without trailing dots.
pub open spec fn ptr_address(qname: Seq<char>) -> Option<IpAddr> {
    let s = ascii_lower(trim_end_char(qname, '.'));
    if has_suffix(s, ".in-addr.arpa"@) {
        let without = trim_end_char(trim_end_seq(s, ".in-addr.arpa"@), '.');
        let parts = split_on(without, '.');
        if parts.len() == 4 {
            ip_parse(join_seq(parts.reverse(), '.'))
        } else {
            None
        }
    } else if has_suffix(s, ".ip6.arpa"@) {
        let without = trim_end_char(trim_end_seq(s, ".ip6.arpa"@), '.');
        let labels = split_on(without, '.');
        if !nibble_labels(labels) {
            None
        } else {
            let h0 = nibbles(labels);
            let h = if h0.len() % 2 == 1 { h0.push('0') } else { h0 };
            match hex_bytes(h) {
                Some(b) => if b.len() == 16 {
                    Some(IpAddr::V6(v6_of(b) as u128))
                } else {
                    None
                },
                None => None,
            }
        }
    } else {
        None
    }
}

fn hex_val(c: char) -> (r: Option<u8>)
    ensures
        match hex_value(c) {
            Some(v) => r == Some(v as u8) && v < 16,
            None => r is None,
        },
{
    if '0' <= c && c <= '9' {
        Some(((c as u32) - ('0' as u32)) as u8)
    } else if 'a' <= c && c <= 'f' {
        Some(((c as u32) - ('a' as u32) + 10) as u8)
    } else if 'A' <= c && c <= 'F' {
        Some(((c as u32) - ('A' as u32) + 10) as u8)
    } else {
        None
    }
}

fn hex_pair(a: char, b: char) -> (r: Option<u8>)
    ensures
        r == hex_byte(a, b),
{
    if a == '+' {
        return match hex_val(b) {
            Some(v) => Some(v),
            None => None,
        };
    }
    match (hex_val(a), hex_val(b)) {
        (Some(x), Some(y)) => Some(x * 16 + y),
        _ => None,
    }
}

proof fn lemma_hex_bytes_len(h: Seq<char>)
    ensures
        hex_bytes(h) matches Some(b) ==> b.len() == h.len() / 2,
    decreases h.len(),
{
    if h.len() >= 2 {
        lemma_hex_bytes_len(h.skip(2));
    }
}

/// Reads the address a PTR query name names (see [`ptr_address`]).
pub fn parse_ptr(qname: &str) -> (r: Option<IpAddr>)
    ensures
        r == ptr_address(qname@),
{
    let q = chars_of(qname);
    let s = ascii_lower_chars(&trim_end_char_exec(&q, '.'));
    let v4 = chars_of(".in-addr.arpa");
    let v6 = chars_of(".ip6.arpa");
    proof {
        reveal_strlit(".in-addr.arpa");
        reveal_strlit(".ip6.arpa");
    }
    if crate::text::ends_with(&s, &v4) {
        let without = trim_end_char_exec(&trim_end_seq_exec(&s, &v4), '.');
        let parts = split_char(&without, '.');
        if parts.len() == 4 {
            let mut rev: Vec<Vec<char>> = Vec::new();
            let mut i: usize = 4;
            while i > 0
                invariant
                    i <= 4,
                    parts@.len() == 4,
                    views(rev@) == views(parts@).reverse().take(4 - i),
                decreases i,
            {
                i = i - 1;
                let ghost before_v = rev@;
                let piece = slice_chars(&parts[i], 0, parts[i].len());
                assert(piece@ =~= parts@[i as int]@);
                rev.push(piece);
                proof {
                    assert(rev@ == before_v.push(piece));
                    assert(views(rev@) =~= views(before_v).push(views(parts@)[i as int]));
                    assert(views(parts@).reverse().take(4 - i) =~= views(parts@).reverse().take(
                        4 - (i + 1),
                    ).push(views(parts@)[i as int]));
                }
            }
            assert(views(parts@).reverse().take(4) =~= views(parts@).reverse());
            let text = join_chars(&rev, '.');
            return parse_ip(string_from_chars(&text).as_str());
        }
        return None;
    }
    if crate::text::ends_with(&s, &v6) {
        let without = trim_end_char_exec(&trim_end_seq_exec(&s, &v6), '.');
        let labels = split_char(&without, '.');
        let ghost ls = views(labels@);
        let ghost sv = s@;
        let mut hex: Vec<char> = Vec::new();
        let mut i: usize = labels.len();
        assert(ls.skip(labels@.len() as int) =~= Seq::<Seq<char>>::empty());
        while i > 0
            invariant
                sv == ascii_lower(trim_end_char(qname@, '.')),
                !has_suffix(sv, ".in-addr.arpa"@),
                has_suffix(sv, ".ip6.arpa"@),
                ls == split_on(trim_end_char(trim_end_seq(sv, ".ip6.arpa"@), '.'), '.'),
                i <= labels@.len(),
                ls == views(labels@),
                nibble_labels(ls.skip(i as int)),
                hex@ == nibbles(ls.skip(i as int)),
            decreases i,
        {
            i = i - 1;
            if labels[i].len() != 1 {
                proof {
                    assert(ls[i as int].len() != 1);
                }
                return None;
            }
            let ghost prev = ls.skip(i + 1);
            let c = labels[i][0];
            hex.push(c);
            proof {
                assert(ls[i as int] =~= seq![c]);
                assert(ls.skip(i as int) =~= seq![ls[i as int]] + prev);
                lemma_nibbles_prepend(ls[i as int], prev);
                assert forall|j: int| 0 <= j < ls.skip(i as int).len() implies (#[trigger] ls.skip(
                    i as int,
                )[j]).len() == 1 by {
                    if j > 0 {
                        assert(ls.skip(i as int)[j] == prev[j - 1]);
                    }
                }
            }
        }
        assert(ls.skip(0) =~= ls);
        if hex.len() % 2 == 1 {
            hex.push('0');
        }
        let ghost h = hex@;
        proof {
            lemma_hex_bytes_len(h);
        }
        if hex.len() != 32 {
            return None;
        }
        proof {
            assert(h.skip(0) =~= h);
            match hex_bytes(h) {
                Some(r) => {
                    assert(Seq::<u8>::empty() + r =~= r);
                },
                None => {},
            }
        }
        let mut v: u128 = 0;
        let mut k: usize = 0;
        let ghost mut bytes: Seq<u8> = Seq::empty();
        while k < 16
            invariant
                sv == ascii_lower(trim_end_char(qname@, '.')),
                !has_suffix(sv, ".in-addr.arpa"@),
                has_suffix(sv, ".ip6.arpa"@),
                ls == split_on(trim_end_char(trim_end_seq(sv, ".ip6.arpa"@), '.'), '.'),
                nibble_labels(ls),
                h == (if nibbles(ls).len() % 2 == 1 { nibbles(ls).push('0') } else { nibbles(ls) }),
                hex@ == h,
                h.len() == 32,
                k <= 16,
                bytes.len() == k,
                hex_bytes(h) == match hex_bytes(h.skip(2 * k)) {
                    Some(rest) => Some(bytes + rest),
                    None => None::<Seq<u8>>,
                },
                v as int == v6_of(bytes),
            decreases 16 - k,
        {
            let ghost tail = h.skip(2 * k);
            assert(tail[0] == h[2 * k as int] && tail[1] == h[2 * k + 1]);
            assert(tail.skip(2) =~= h.skip(2 * (k + 1)));
            match hex_pair(hex[2 * k], hex[2 * k + 1]) {
                None => {
                    return None;
                },
                Some(x) => {
                    proof {
                        lemma_v6_bound(bytes);
                        lemma_pow256_16();
                        lemma_pow256_mono(k as nat, 15);
                        assert(v6_of(bytes) * 256 + x < pow256(16)) by (nonlinear_arith)
                            requires
                                v6_of(bytes) < pow256(k as nat),
                                pow256(k as nat) <= pow256(15),
                                pow256(16) == 256 * pow256(15),
                                x < 256,
                        ;
                        assert((bytes.push(x)).drop_last() =~= bytes);
                        match hex_bytes(h.skip(2 * (k + 1))) {
                            Some(rest) => {
                                assert(bytes + (seq![x] + rest) =~= bytes.push(x) + rest);
                            },
                            None => {},
                        }
                    }
                    v = v * 256 + (x as u128);
                    proof {
                        bytes = bytes.push(x);
                    }
                },
            }
            k = k + 1;
        }
        proof {
            assert(h.skip(32) =~= Seq::<char>::empty());
            assert(bytes + Seq::<u8>::empty() =~= bytes);
        }
        return Some(IpAddr::V6(v));
    }
    None
}

proof fn lemma_pow256_16()
    ensures
        pow256(16) == 0x1_0000_0000_0000_0000_0000_0000_0000_0000,
        pow256(16) == 256 * pow256(15),
{
    reveal_with_fuel(pow256, 17);
}

proof fn lemma_pow256_mono(a: nat, b: nat)
    requires
        a <= b,
    ensures
        pow256(a) <= pow256(b),
    decreases b,
{
    if a < b {
        lemma_pow256_mono(a, (b - 1) as nat);
    }
}

/// The table after remembering the A and AAAA answers of `answers`, in
/// order, at `now`: each address maps to the single question's name (or,
/// without exactly one question, the record's own name) until its TTL,
/// capped at `max_ttl`, runs out.
pub open spec fn remember(t: Map<ClientKey, (Seq<char>, u64)>, qnames: Seq<Question>, answers: Seq<Record>, now: u64, max_ttl: u32) -> Map<ClientKey, (Seq<char>, u64)>
    decreases answers.len(),
{
    if answers.len() == 0 {
        t
    } else {
        let prev = remember(t, qnames, answers.drop_last(), now, max_ttl);
        let rr = answers.last();
        let ttl = if rr.ttl < max_ttl { rr.ttl } else { max_ttl };
        let name = if qnames.len() == 1 { qnames[0].qname@ } else { rr.name@ };
        let exp = (now + ttl * 1000) as u64;
        match rr.rdata {
            RData::A(a) => prev.insert(client_key(IpAddr::V4(a)), (name, exp)),
            RData::AAAA(a) => prev.insert(client_key(IpAddr::V6(a)), (name, exp)),
            _ => prev,
        }
    }
}

/// A name saved from a response's last answer is what a PTR query for that
/// answer's address is given, until the saved lifetime (the answer's TTL,
/// capped by the configured one) runs out.
pub proof fn lemma_save_then_resolve(
    t: Map<ClientKey, (Seq<char>, u64)>,
    qnames: Seq<Question>,
    answers: Seq<Record>,
    now: u64,
    max_ttl: u32,
    qname: Seq<char>,
    later: u64,
)
    requires
        now <= MAX_NOW_MS,
        answers.len() > 0,
        (answers.last().rdata matches RData::A(a) && ptr_address(qname) == Some(IpAddr::V4(a)))
            || (answers.last().rdata matches RData::AAAA(a) && ptr_address(qname) == Some(IpAddr::V6(a))),
        later < now + 1000 * (if answers.last().ttl < max_ttl { answers.last().ttl } else { max_ttl }),
    ensures
        ptr_lookup(remember(t, qnames, answers, now, max_ttl), qname, later) == Some(
            if qnames.len() == 1 {
                qnames[0].qname@
            } else {
                answers.last().name@
            },
        ),
{
    let rr = answers.last();
    let ttl = if rr.ttl < max_ttl { rr.ttl } else { max_ttl };
    assert(ttl * 1000 <= 0xffff_ffffu64 * 1000) by (nonlinear_arith)
        requires
            ttl <= 0xffff_ffffu64,
    ;
}

/// The greatest clock reading the table takes: expiry times stay in range.
pub const MAX_NOW_MS: u64 = 0xffff_fc00_0000_0000;

/// The name the table gives a PTR query for `qname` at `now`.
pub open spec fn ptr_lookup(t: Map<ClientKey, (Seq<char>, u64)>, qname: Seq<char>, now: u64) -> Option<Seq<char>> {
    match ptr_address(qname) {
        Some(ip) => match t.get(client_key(ip)) {
            Some(v) => if v.1 > now {
                Some(v.0)
            } else {
                None
            },
            None => None,
        },
        None => None,
    }
}

/// The answer to a PTR query from the table: the request's id and first
/// question, and one PTR record (TTL 5) for that name holding `name`.
pub open spec fn ptr_response(request: Message, name: Seq<char>, m: Message) -> bool {
    let q = request.questions@[0];
    &&& m.id == request.id
    &&& m.is_response
    &&& m.questions@ == seq![q]
    &&& m.answers@.len() == 1
    &&& m.answers@[0].name == q.qname
    &&& m.answers@[0].rtype == TYPE_PTR
    &&& m.answers@[0].class == CLASS_IN
    &&& m.answers@[0].ttl == 5
    &&& m.answers@[0].rdata matches RData::Name(n) && n@ == name
}

/// Answers PTR queries for addresses seen in earlier answers.
#[derive(Debug)]
pub struct ReverseLookupPlugin {
    pub cache: NameTable,
    pub args: ReverseLookupArgs,
}

impl ReverseLookupPlugin {
    /// A plugin with an empty table.
    pub fn new(args: ReverseLookupArgs) -> (p: ReverseLookupPlugin)
        ensures
            name_table(p.cache) == no_names(),
            p.args.handle_ptr == args.handle_ptr,
            p.args.ttl == args.ttl,
    {
        ReverseLookupPlugin { cache: names_new(), args }
    }

    /// A plugin with the default settings; the text is not read.
    pub fn quick_setup(s: &str) -> (p: ReverseLookupPlugin)
        ensures
            name_table(p.cache) == no_names(),
            p.args.handle_ptr,
            p.args.ttl == 7200,
    {
        ReverseLookupPlugin::new(ReverseLookupArgs::default_args())
    }

    /// The plugin's registered name.
    pub fn name(&self) -> (s: &'static str)
        ensures
            s@ == "reverse_lookup"@,
    {
        "reverse_lookup"
    }

    /// The name remembered for `ip` at `now_ms`, if it has not expired; an
    /// expired entry is removed.
    pub fn lookup_cached(&mut self, ip: &IpAddr, now_ms: u64) -> (r: Option<String>)
        ensures
            final(self).args == old(self).args,
            ({
                let k = client_key(*ip);
                let t = name_table(old(self).cache);
                match t.get(k) {
                    Some(v) => if v.1 > now_ms {
                        r matches Some(n) && n@ == v.0 && name_table(final(self).cache) == t
                    } else {
                        r is None && name_table(final(self).cache) == t.remove(k)
                    },
                    None => r is None && name_table(final(self).cache) == t,
                }
            }),
    {
        let k = crate::ratelimit::client_key_of(ip);
        match names_get(&self.cache, k) {
            Some((n, exp)) => {
                if exp > now_ms {
                    Some(n)
                } else {
                    names_remove(&mut self.cache, k);
                    None
                }
            },
            None => None,
        }
    }

    /// Remembers the addresses of a response's answers at `now_ms` (see
    /// [`remember`]).
    pub fn save_ips_after(&mut self, req: &Message, resp: &Message, now_ms: u64)
        requires
            now_ms <= MAX_NOW_MS,
        ensures
            final(self).args == old(self).args,
            name_table(final(self).cache) == remember(
                name_table(old(self).cache),
                req.questions@,
                resp.answers@,
                now_ms,
                old(self).args.ttl,
            ),
    {
        let ghost t0 = name_table(self.cache);
        let mut i: usize = 0;
        assert(resp.answers@.take(0) =~= Seq::<Record>::empty());
        while i < resp.answers.len()
            invariant
                now_ms <= MAX_NOW_MS,
                i <= resp.answers@.len(),
                self.args == old(self).args,
                name_table(self.cache) == remember(t0, req.questions@, resp.answers@.take(i as int), now_ms, self.args.ttl),
            decreases resp.answers.len() - i,
        {
            let rr = &resp.answers[i];
            proof {
                assert(resp.answers@.take(i + 1).drop_last() =~= resp.answers@.take(i as int));
                assert(resp.answers@.take(i + 1).last() == *rr);
            }
            let key: Option<(u8, u128)> = match &rr.rdata {
                RData::A(a) => Some(crate::ratelimit::client_key_of(&IpAddr::V4(*a))),
                RData::AAAA(a) => Some(crate::ratelimit::client_key_of(&IpAddr::V6(*a))),
                _ => None,
            };
            match key {
                Some(k) => {
                    let ttl = if rr.ttl < self.args.ttl {
                        rr.ttl
                    } else {
                        self.args.ttl
                    };
                    let exp = now_ms + (ttl as u64) * 1000;
                    let name = if req.questions.len() == 1 {
                        req.questions[0].qname.clone()
                    } else {
                        rr.name.clone()
                    };
                    names_insert(&mut self.cache, k, (name, exp));
                },
                None => {},
            }
            i = i + 1;
        }
        assert(resp.answers@.take(resp.answers@.len() as int) =~= resp.answers@);
    }

    /// Removes the entries expired at `now_ms`; returns how many left.
    pub fn cleanup(&mut self, now_ms: u64) -> (removed: usize)
        ensures
            final(self).args == old(self).args,
            name_table(final(self).cache) == name_table(old(self).cache).restrict(
                name_table(old(self).cache).dom().filter(|k: ClientKey| name_table(old(self).cache)[k].1 > now_ms),
            ),
            removed == if name_table(old(self).cache).len() >= name_table(final(self).cache).len() {
                (name_table(old(self).cache).len() - name_table(final(self).cache).len()) as usize
            } else {
                0usize
            },
    {
        let before = names_len(&self.cache);
        names_retain(&mut self.cache, now_ms);
        let after = names_len(&self.cache);
        before.saturating_sub(after)
    }

    /// The number of remembered addresses.
    pub fn cache_size(&self) -> (n: usize)
        ensures
            n == name_table(self.cache).len(),
    {
        names_len(&self.cache)
    }

    /// Answers a PTR query from the table at `now_ms` when PTR handling is
    /// on and the query's first question names a remembered address: the
    /// response holds that question and one PTR record (TTL 5) with the
    /// name. Returns whether it answered.
    pub fn execute(&mut self, ctx: &mut Context, now_ms: u64) -> (answered: bool)
        ensures
            final(ctx).request == old(ctx).request,
            final(ctx).client_ip == old(ctx).client_ip,
            final(ctx).set_entries == old(ctx).set_entries,
            final(ctx).returned == old(ctx).returned,
            final(ctx).tag == old(ctx).tag,
            final(self).args == old(self).args,
            !answered ==> final(ctx).response == old(ctx).response,
            answered == (old(self).args.handle_ptr && old(ctx).request.questions@.len() > 0
                && old(ctx).request.questions@[0].qtype == TYPE_PTR && ptr_lookup(
                name_table(old(self).cache),
                old(ctx).request.questions@[0].qname@,
                now_ms,
            ) is Some),
            answered ==> (final(ctx).response matches Some(m) && ptr_response(
                old(ctx).request,
                ptr_lookup(name_table(old(self).cache), old(ctx).request.questions@[0].qname@, now_ms)->Some_0,
                m,
            )),
    {
        if !self.args.handle_ptr || ctx.request.questions.len() == 0 {
            return false;
        }
        if ctx.request.questions[0].qtype != TYPE_PTR {
            return false;
        }
        let ip = match parse_ptr(ctx.request.questions[0].qname.as_str()) {
            Some(ip) => ip,
            None => {
                return false;
            },
        };
        let fqdn = match self.lookup_cached(&ip, now_ms) {
            Some(n) => n,
            None => {
                return false;
            },
        };
        let q = crate::dns::copy_question(&ctx.request.questions[0]);
        let mut r = Message::new();
        r.id = ctx.request.id;
        r.is_response = true;
        let rec = Record { name: q.qname.clone(), rtype: TYPE_PTR, class: CLASS_IN, ttl: 5, rdata: RData::Name(fqdn) };
        let ghost gq = q;
        let ghost grec = rec;
        r.questions.push(q);
        r.answers.push(rec);
        assert(r.questions@ =~= seq![gq]);
        assert(r.answers@ =~= seq![grec]);
        ctx.response = Some(r);
        true
    }

    /// Sets the plugin up from `handle_ptr` (a boolean) and `ttl` (a number
    /// truncated to 32 bits, or a decimal string); other values keep the
    /// defaults.
    pub fn init(args: &Vec<(String, ConfigValue)>) -> (p: ReverseLookupPlugin)
        ensures
            name_table(p.cache) == no_names(),
            p.args.handle_ptr == match arg_get(args@, "handle_ptr"@) {
                Some(ConfigValue::Bool(b)) => b,
                _ => true,
            },
            p.args.ttl == match arg_get(args@, "ttl"@) {
                Some(ConfigValue::Str(s)) => match parse_unsigned(s@, u32::MAX as nat) {
                    Some(n) => n as u32,
                    None => 7200u32,
                },
                Some(v) => match uint_of(v) {
                    Some(u) => u as u32,
                    None => 7200u32,
                },
                None => 7200u32,
            },
    {
        let mut a = ReverseLookupArgs::default_args();
        match get_arg(args, "handle_ptr") {
            Some(ConfigValue::Bool(b)) => {
                a.handle_ptr = *b;
            },
            _ => {},
        }
        match get_arg(args, "ttl") {
            Some(ConfigValue::Str(s)) => {
                let c = chars_of(s.as_str());
                match parse_unsigned_chars(&c, 0xffff_ffff) {
                    Some(n) => {
                        a.ttl = n as u32;
                    },
                    None => {},
                }
            },
            Some(v) => match as_u64(v) {
                Some(u) => {
                    a.ttl = u as u32;
                },
                None => {},
            },
            None => {},
        }
        ReverseLookupPlugin::new(a)
    }
}

} // verus!
