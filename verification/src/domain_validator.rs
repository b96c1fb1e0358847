//! Checking query names against the RFC 1035/1123 host name rules, with a
//! cache of verdicts by name.

use vstd::prelude::*;
use crate::config::{arg_get, as_bool, as_u64, bool_of, get_arg, uint_of, ConfigValue};
use crate::dns::{copy_questions, Context, Message, RCODE_REFUSED, TYPE_HTTPS, TYPE_SVCB};
use crate::text::owned;

verus! {

/// The verdict on a name.
#[derive(Debug, Clone, PartialEq)]
pub enum ValidationResult {
    Valid,
    Invalid(String),
}

/// A verdict as values.
pub enum Verdict {
    Valid,
    Invalid(Seq<char>),
}

impl ValidationResult {
    pub open spec fn view(&self) -> Verdict {
        match self {
            ValidationResult::Valid => Verdict::Valid,
            ValidationResult::Invalid(r) => Verdict::Invalid(r@),
        }
    }

    /// A copy of the verdict.
    pub fn copy(&self) -> (c: ValidationResult)
        ensures
            c.view() == self.view(),
    {
        match self {
            ValidationResult::Valid => ValidationResult::Valid,
            ValidationResult::Invalid(r) => ValidationResult::Invalid(r.clone()),
        }
    }
}

/// Whether a byte is an ASCII letter or digit.
pub open spec fn alnum(b: u8) -> bool {
    (48 <= b <= 57) || (65 <= b <= 90) || (97 <= b <= 122)
}

/// ASCII lower-casing of a byte.
pub open spec fn lower_byte(b: u8) -> u8 {
    if 65 <= b <= 90 {
        (b + 32) as u8
    } else {
        b
    }
}

/// Whether a label is a Punycode A-label: at least 5 bytes starting with
/// `xn--` in any case.
pub open spec fn is_punycode(l: Seq<u8>) -> bool {
    l.len() >= 5 && lower_byte(l[0]) == 120 && lower_byte(l[1]) == 110 && l[2] == 45 && l[3] == 45
}

/// Whether a label holds `--`.
pub open spec fn has_double_hyphen(l: Seq<u8>) -> bool {
    exists|i: int| 0 <= i < l.len() - 1 && l[i] == 45 && #[trigger] l[i + 1] == 45
}

/// What is wrong with one label, if anything: its length (1 to 63 bytes),
/// its characters (letters, digits and inner hyphens; a leading `_` is
/// allowed for service-binding queries), or, in strict mode, a `--` outside
/// a Punycode label.
pub open spec fn label_problem(l: Seq<u8>, strict: bool, service: bool) -> Option<Seq<char>> {
    if l.len() == 0 || l.len() > 63 {
        Some("invalid length"@)
    } else if !alnum(l[0]) && !(l[0] == 95 && service) {
        Some("invalid characters"@)
    } else if !alnum(l[l.len() - 1]) {
        Some("invalid characters"@)
    } else if exists|i: int| 1 <= i < l.len() - 1 && !alnum(#[trigger] l[i]) && l[i] != 45 {
        Some("invalid characters"@)
    } else if strict && has_double_hyphen(l) && !is_punycode(l) {
        Some("invalid format"@)
    } else {
        None
    }
}

/// The index of the first `.` (byte 46) in `b`, or `b.len()`.
pub open spec fn first_dot(b: Seq<u8>) -> int
    decreases b.len(),
{
    if b.len() == 0 {
        0
    } else if b[0] == 46 {
        0
    } else {
        1 + first_dot(b.drop_first())
    }
}

proof fn lemma_first_dot(b: Seq<u8>, k: int)
    requires
        0 <= k <= b.len(),
        forall|j: int| 0 <= j < k ==> b[j] != 46,
        k < b.len() ==> b[k] == 46,
    ensures
        first_dot(b) == k,
    decreases k,
{
    if k > 0 {
        assert forall|j: int| 0 <= j < k - 1 implies b.drop_first()[j] != 46 by {
            assert(b.drop_first()[j] == b[j + 1]);
        }
        lemma_first_dot(b.drop_first(), k - 1);
    }
}

/// The first problem among the dot-separated labels of `b`, in order.
pub open spec fn labels_problem(b: Seq<u8>, strict: bool, service: bool) -> Option<Seq<char>>
    decreases b.len(),
{
    let k = first_dot(b);
    if k < 0 || k > b.len() {
        None
    } else {
        match label_problem(b.take(k), strict, service) {
            Some(r) => Some(r),
            None => if k < b.len() {
                labels_problem(b.skip(k + 1), strict, service)
            } else {
                None
            },
        }
    }
}

/// The verdict on a name given as UTF-8 bytes: 1 to 253 bytes, the root
/// `.`, or dot-separated labels without a problem.
pub open spec fn verdict(b: Seq<u8>, strict: bool, service: bool) -> Verdict {
    if b.len() == 0 || b.len() > 253 {
        Verdict::Invalid("invalid length"@)
    } else if b == seq![46u8] {
        Verdict::Valid
    } else {
        match labels_problem(b, strict, service) {
            Some(r) => Verdict::Invalid(r),
            None => Verdict::Valid,
        }
    }
}

proof fn lemma_first_dot_bound(b: Seq<u8>)
    ensures
        0 <= first_dot(b) <= b.len(),
    decreases b.len(),
{
    if b.len() > 0 && b[0] != 46 {
        lemma_first_dot_bound(b.drop_first());
    }
}

fn is_alnum(b: u8) -> (r: bool)
    ensures
        r == alnum(b),
{
    (48 <= b && b <= 57) || (65 <= b && b <= 90) || (97 <= b && b <= 122)
}

fn to_lower_byte(b: u8) -> (r: u8)
    ensures
        r == lower_byte(b),
{
    if 65 <= b && b <= 90 {
        b + 32
    } else {
        b
    }
}

/// The problem with the label `b[from..to]`, if any.
fn check_label(b: &[u8], from: usize, to: usize, strict: bool, service: bool) -> (r: Option<&'static str>)
    requires
        from <= to <= b@.len(),
    ensures
        match label_problem(b@.subrange(from as int, to as int), strict, service) {
            Some(p) => r matches Some(s) && s@ == p,
            None => r is None,
        },
{
    let ghost l = b@.subrange(from as int, to as int);
    let n = to - from;
    proof {
        reveal_strlit("invalid length");
        reveal_strlit("invalid characters");
        reveal_strlit("invalid format");
    }
    if n == 0 || n > 63 {
        return Some("invalid length");
    }
    let first = b[from];
    assert(first == l[0]);
    if !is_alnum(first) && !(first == 95 && service) {
        return Some("invalid characters");
    }
    let last = b[to - 1];
    assert(last == l[l.len() - 1]);
    if !is_alnum(last) {
        return Some("invalid characters");
    }
    let mut i: usize = 1;
    while i + 1 < n
        invariant
            l == b@.subrange(from as int, to as int),
            n == to - from,
            from <= to <= b@.len(),
            1 <= n <= 63,
            1 <= i <= n,
            alnum(l[0]) || (l[0] == 95 && service),
            alnum(l[l.len() - 1]),
            forall|j: int| 1 <= j < i && j < n - 1 ==> alnum(#[trigger] l[j]) || l[j] == 45,
        decreases n - i,
    {
        let c = b[from + i];
        assert(c == l[i as int]);
        if !is_alnum(c) && c != 45 {
            return Some("invalid characters");
        }
        i = i + 1;
    }
    if strict {
        let mut dh = false;
        let mut k: usize = 0;
        while k + 1 < n
            invariant
                l == b@.subrange(from as int, to as int),
                n == to - from,
                from <= to <= b@.len(),
                1 <= n <= 63,
                k <= n,
                dh == exists|j: int| 0 <= j < k && l[j] == 45 && #[trigger] l[j + 1] == 45,
            decreases n - k,
        {
            if b[from + k] == 45 && b[from + k + 1] == 45 {
                dh = true;
                assert(l[k as int] == 45 && l[k + 1] == 45);
            }
            k = k + 1;
        }
        let puny = n >= 5 && to_lower_byte(b[from]) == 120 && to_lower_byte(b[from + 1]) == 110
            && b[from + 2] == 45 && b[from + 3] == 45;
        if dh && !puny {
            return Some("invalid format");
        }
    }
    None
}

/// The verdict on a name (see [`verdict`]).
pub fn validate_bytes(b: &[u8], strict: bool, service: bool) -> (r: ValidationResult)
    ensures
        r.view() == verdict(b@, strict, service),
{
    if b.len() == 0 || b.len() > 253 {
        return ValidationResult::Invalid(owned("invalid length"));
    }
    if b.len() == 1 && b[0] == 46 {
        assert(b@ =~= seq![46u8]);
        return ValidationResult::Valid;
    }
    assert(b@ != seq![46u8]);
    let mut start: usize = 0;
    assert(b@.skip(0) =~= b@);
    loop
        invariant
            0 < b@.len() <= 253,
            b@ != seq![46u8],
            start <= b@.len(),
            labels_problem(b@, strict, service) == labels_problem(b@.skip(start as int), strict, service),
        decreases b@.len() - start,
    {
        let mut end = start;
        while end < b.len() && b[end] != 46
            invariant
                start <= end <= b@.len(),
                forall|j: int| start <= j < end ==> b@[j] != 46,
            decreases b@.len() - end,
        {
            end = end + 1;
        }
        let ghost rest = b@.skip(start as int);
        proof {
            lemma_first_dot(rest, end - start);
            assert(rest.take(end - start) =~= b@.subrange(start as int, end as int));
        }
        match check_label(b, start, end, strict, service) {
            Some(p) => {
                return ValidationResult::Invalid(owned(p));
            },
            None => {},
        }
        if end == b.len() {
            return ValidationResult::Valid;
        }
        proof {
            assert(rest.skip(end - start + 1) =~= b@.skip(end + 1));
        }
        start = end + 1;
    }
}

/// Whether a query type lets a label start with `_` (SVCB and HTTPS).
pub open spec fn service_type(qtype: Option<u16>) -> bool {
    qtype == Some(TYPE_SVCB) || qtype == Some(TYPE_HTTPS)
}

/// The cached verdicts of a verdict cache, `(name, verdict)` from the most
/// to the least recently used.
pub uninterp spec fn verdict_entries(c: lru::LruCache<String, ValidationResult>) -> Seq<(Seq<char>, Verdict)>;

/// The capacity a verdict cache was made with.
pub uninterp spec fn verdict_capacity(c: lru::LruCache<String, ValidationResult>) -> nat;

/// A verdict cache's shape: capacity at least 1, at most that many pairs.
pub open spec fn verdicts_wf(c: lru::LruCache<String, ValidationResult>) -> bool {
    verdict_capacity(c) >= 1 && verdict_entries(c).len() <= verdict_capacity(c)
}

/// The position of `key` among the pairs, or -1.
pub open spec fn verdict_index(s: Seq<(Seq<char>, Verdict)>, key: Seq<char>) -> int {
    if exists|i: int| 0 <= i < s.len() && (#[trigger] s[i]).0 == key {
        choose|i: int| 0 <= i < s.len() && (#[trigger] s[i]).0 == key
    } else {
        -1
    }
}

/// The pairs after `put(key, v)` on a cache of capacity `cap` holding `s`:
/// `key` becomes the most recent with verdict `v`; a new key meeting a full
/// cache pushes the least recently used pair out.
pub open spec fn verdict_put(s: Seq<(Seq<char>, Verdict)>, cap: nat, key: Seq<char>, v: Verdict) -> Seq<(Seq<char>, Verdict)> {
    let i = verdict_index(s, key);
    if i >= 0 {
        seq![(key, v)] + s.remove(i)
    } else if s.len() >= cap {
        seq![(key, v)] + s.drop_last()
    } else {
        seq![(key, v)] + s
    }
}

/// A verdict cache holding at most `cap` names, at first empty
/// (`LruCache::new`).
#[verifier::external_body]
fn verdicts_new(cap: usize) -> (c: lru::LruCache<String, ValidationResult>)
    requires
        cap >= 1,
    ensures
        verdict_entries(c) == Seq::<(Seq<char>, Verdict)>::empty(),
        verdict_capacity(c) == cap,
{
    lru::LruCache::new(std::num::NonZeroUsize::new(cap).unwrap())
}

/// The cached verdict of a name, which becomes the most recently used
/// (`LruCache::get`); it is copied out by [`ValidationResult::copy`].
#[verifier::external_body]
fn verdicts_get(c: &mut lru::LruCache<String, ValidationResult>, key: &str) -> (r: Option<ValidationResult>)
    requires
        verdicts_wf(*old(c)),
    ensures
        verdicts_wf(*final(c)),
        verdict_capacity(*final(c)) == verdict_capacity(*old(c)),
        ({
            let s = verdict_entries(*old(c));
            let i = verdict_index(s, key@);
            if i < 0 {
                r is None && verdict_entries(*final(c)) == s
            } else {
                (r matches Some(v) && v.view() == s[i].1) && verdict_entries(*final(c)) == seq![s[i]]
                    + s.remove(i)
            }
        }),
{
    c.get(key).map(|v| v.copy())
}

/// Caches a verdict (`LruCache::put`).
#[verifier::external_body]
fn verdicts_put(c: &mut lru::LruCache<String, ValidationResult>, key: String, v: ValidationResult)
    requires
        verdicts_wf(*old(c)),
    ensures
        verdicts_wf(*final(c)),
        verdict_capacity(*final(c)) == verdict_capacity(*old(c)),
        verdict_entries(*final(c)) == verdict_put(
            verdict_entries(*old(c)),
            verdict_capacity(*old(c)),
            key@,
            v.view(),
        ),
{
    c.put(key, v);
}

/// Rejects queries for malformed names.
#[derive(Debug)]
pub struct DomainValidatorPlugin {
    /// Reject `--` outside Punycode labels.
    pub strict_mode: bool,
    /// Verdicts by name.
    pub cache: lru::LruCache<String, ValidationResult>,
}

/// Whether every cached verdict is the verdict on its name, for one of the
/// two kinds of query (with or without service labels).
pub open spec fn verdicts_sound(s: Seq<(Seq<char>, Verdict)>, strict: bool) -> bool {
    forall|i: int| 0 <= i < s.len() ==> (#[trigger] s[i]).1 == verdict(vstd::utf8::encode_utf8(s[i].0), strict, false)
        || s[i].1 == verdict(vstd::utf8::encode_utf8(s[i].0), strict, true)
}

/// The name a query is checked under: its first question's, or empty.
pub open spec fn query_name(m: Message) -> Seq<char> {
    if m.questions@.len() > 0 {
        m.questions@[0].qname@
    } else {
        Seq::empty()
    }
}

/// The type of a query's first question, if any.
pub open spec fn query_type(m: Message) -> Option<u16> {
    if m.questions@.len() > 0 {
        Some(m.questions@[0].qtype)
    } else {
        None
    }
}

impl DomainValidatorPlugin {
    /// The cache holds only verdicts on their names.
    pub open spec fn wf(&self) -> bool {
        verdicts_wf(self.cache) && verdicts_sound(verdict_entries(self.cache), self.strict_mode)
    }

    /// A validator; the cache holds `cache_size` verdicts (at least 1).
    pub fn new(strict_mode: bool, cache_size: usize) -> (p: DomainValidatorPlugin)
        ensures
            p.wf(),
            p.strict_mode == strict_mode,
            verdict_entries(p.cache).len() == 0,
            verdict_capacity(p.cache) == if cache_size > 0 { cache_size as nat } else { 1 },
    {
        let cap = if cache_size > 0 {
            cache_size
        } else {
            1
        };
        DomainValidatorPlugin { strict_mode, cache: verdicts_new(cap) }
    }

    /// The plugin's registered name.
    pub fn name(&self) -> (s: &'static str)
        ensures
            s@ == "domain_validator"@,
    {
        "domain_validator"
    }

    /// The verdict on a name, for a query of unknown type.
    pub fn validate_domain(&self, domain: &str) -> (r: ValidationResult)
        ensures
            r.view() == verdict(vstd::utf8::encode_utf8(domain@), self.strict_mode, false),
    {
        self.validate_domain_with_qtype(domain, None)
    }

    /// The verdict on a name for a query of type `qtype`: SVCB and HTTPS
    /// queries allow labels starting with `_`.
    pub fn validate_domain_with_qtype(&self, domain: &str, qtype: Option<u16>) -> (r: ValidationResult)
        ensures
            r.view() == verdict(vstd::utf8::encode_utf8(domain@), self.strict_mode, service_type(qtype)),
    {
        let service = match qtype {
            Some(t) => t == TYPE_SVCB || t == TYPE_HTTPS,
            None => false,
        };
        validate_bytes(domain.as_bytes(), self.strict_mode, service)
    }

    /// Checks the query's name, using and filling the verdict cache; an
    /// invalid name gets a REFUSED response. Returns the verdict used.
    pub fn execute(&mut self, ctx: &mut Context) -> (r: ValidationResult)
        requires
            old(self).wf(),
        ensures
            final(self).wf(),
            final(self).strict_mode == old(self).strict_mode,
            verdict_capacity(final(self).cache) == verdict_capacity(old(self).cache),
            ({
                let q = query_name(old(ctx).request);
                let s = verdict_entries(old(self).cache);
                let i = verdict_index(s, q);
                &&& i >= 0 ==> r.view() == s[i].1 && verdict_entries(final(self).cache) == seq![s[i]] + s.remove(i)
                &&& i < 0 ==> r.view() == verdict(
                    vstd::utf8::encode_utf8(q),
                    old(self).strict_mode,
                    service_type(query_type(old(ctx).request)),
                ) && verdict_entries(final(self).cache) == verdict_put(
                    s,
                    verdict_capacity(old(self).cache),
                    q,
                    r.view(),
                )
            }),
            final(ctx).request == old(ctx).request,
            final(ctx).client_ip == old(ctx).client_ip,
            final(ctx).set_entries == old(ctx).set_entries,
            final(ctx).returned == old(ctx).returned,
            final(ctx).tag == old(ctx).tag,
            r is Valid ==> final(ctx).response == old(ctx).response,
            r is Invalid ==> (final(ctx).response matches Some(m) && crate::ratelimit::refusal_of(old(ctx).request, m)),
    {
        let qname: String = if ctx.request.questions.len() > 0 {
            ctx.request.questions[0].qname.clone()
        } else {
            String::new()
        };
        let qtype: Option<u16> = if ctx.request.questions.len() > 0 {
            Some(ctx.request.questions[0].qtype)
        } else {
            None
        };
        let ghost s = verdict_entries(self.cache);
        let result = match verdicts_get(&mut self.cache, qname.as_str()) {
            Some(v) => {
                proof {
                    let i = verdict_index(s, qname@);
                    assert(0 <= i < s.len() && s[i].0 == qname@);
                    assert(verdict_entries(self.cache) =~= seq![s[i]] + s.remove(i));
                    assert forall|j: int| 0 <= j < verdict_entries(self.cache).len() implies (#[trigger] verdict_entries(self.cache)[j]).1
                        == verdict(vstd::utf8::encode_utf8(verdict_entries(self.cache)[j].0), self.strict_mode, false)
                        || verdict_entries(self.cache)[j].1 == verdict(
                        vstd::utf8::encode_utf8(verdict_entries(self.cache)[j].0),
                        self.strict_mode,
                        true,
                    ) by {
                        if j == 0 {
                            assert(verdict_entries(self.cache)[0] == s[i]);
                        } else if j - 1 < i {
                            assert(verdict_entries(self.cache)[j] == s[j - 1]);
                        } else {
                            assert(verdict_entries(self.cache)[j] == s[j]);
                        }
                    }
                }
                v
            },
            None => {
                let v = self.validate_domain_with_qtype(qname.as_str(), qtype);
                let ghost before = verdict_entries(self.cache);
                verdicts_put(&mut self.cache, qname.clone(), v.copy());
                proof {
                    let after = verdict_entries(self.cache);
                    let cap = verdict_capacity(self.cache);
                    assert(before == s);
                    assert(verdict_index(before, qname@) < 0);
                    assert(verdicts_sound(before, self.strict_mode));
                    assert(v.view() == verdict(vstd::utf8::encode_utf8(qname@), self.strict_mode, service_type(qtype)));
                    assert forall|j: int| 0 <= j < after.len() implies (#[trigger] after[j]).1 == verdict(
                        vstd::utf8::encode_utf8(after[j].0),
                        self.strict_mode,
                        false,
                    ) || after[j].1 == verdict(vstd::utf8::encode_utf8(after[j].0), self.strict_mode, true) by {
                        if j == 0 {
                            assert(after[0] == (qname@, v.view()));
                        } else {
                            if before.len() >= cap {
                                assert(after == seq![(qname@, v.view())] + before.drop_last());
                                assert(after[j] == before[j - 1]);
                            } else {
                                assert(after == seq![(qname@, v.view())] + before);
                                assert(after[j] == before[j - 1]);
                            }
                        }
                    }
                }
                v
            },
        };
        match &result {
            ValidationResult::Valid => {},
            ValidationResult::Invalid(_) => {
                let mut response = Message::new();
                response.id = ctx.request.id;
                response.is_response = true;
                response.rcode = RCODE_REFUSED;
                response.questions = copy_questions(&ctx.request.questions);
                ctx.response = Some(response);
            },
        }
        result
    }

    /// Sets the validator up from `strict_mode` (default on) and
    /// `cache_size` (default 1000).
    pub fn init(args: &Vec<(String, ConfigValue)>) -> (p: DomainValidatorPlugin)
        ensures
            p.wf(),
            p.strict_mode == match arg_get(args@, "strict_mode"@) {
                Some(v) => match bool_of(v) {
                    Some(b) => b,
                    None => true,
                },
                None => true,
            },
            verdict_entries(p.cache).len() == 0,
            ({
                let n = match arg_get(args@, "cache_size"@) {
                    Some(v) => match uint_of(v) {
                        Some(u) => u as usize,
                        None => 1000usize,
                    },
                    None => 1000usize,
                };
                verdict_capacity(p.cache) == if n > 0 { n as nat } else { 1 }
            }),
    {
        let strict = match get_arg(args, "strict_mode") {
            Some(v) => match as_bool(v) {
                Some(b) => b,
                None => true,
            },
            None => true,
        };
        let size: usize = match get_arg(args, "cache_size") {
            Some(v) => match as_u64(v) {
                Some(u) => u as usize,
                None => 1000,
            },
            None => 1000,
        };
        DomainValidatorPlugin::new(strict, size)
    }
}

impl Default for DomainValidatorPlugin {
    fn default() -> (p: DomainValidatorPlugin)
        ensures
            p.strict_mode,
            verdict_capacity(p.cache) == 1000,
            verdict_entries(p.cache).len() == 0,
    {
        DomainValidatorPlugin::new(true, 1000)
    }
}

} // verus!
