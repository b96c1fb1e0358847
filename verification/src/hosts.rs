//! Static name to address mappings in the `/etc/hosts` format, and answering
//! A and AAAA queries from them.

use vstd::prelude::*;
use crate::config::{arg_get, get_arg, str_of, ConfigValue};
use crate::dns::{copy_question, Context, Message, Question, RData, Record, RCODE_NOERROR, TYPE_A, TYPE_AAAA};
use crate::error::{ErrView, PluginError};
use crate::ip::{ip_parse, parse_ip, IpAddr};
use crate::text::{
    append_chars, chars_of, lines, lines_of, lowercase_chars, split_whitespace, split_ws,
    string_from_chars, trim, trim_chars, trim_end_char, trim_end_char_exec, unicode_lower, views,
};

verus! {

/// The name a lookup uses: without trailing dots, lower-cased.
pub open spec fn host_key(d: Seq<char>) -> Seq<char> {
    unicode_lower(trim_end_char(d, '.'))
}

/// The names and their addresses, in the order names were first added.
pub open spec fn host_entries(v: Seq<(String, Vec<IpAddr>)>) -> Seq<(Seq<char>, Seq<IpAddr>)> {
    v.map_values(|e: (String, Vec<IpAddr>)| (e.0@, e.1@))
}

/// The position of `key` among the entries, or -1.
pub open spec fn host_index(m: Seq<(Seq<char>, Seq<IpAddr>)>, key: Seq<char>) -> int
    decreases m.len(),
{
    if m.len() == 0 {
        -1
    } else if m.last().0 == key {
        m.len() - 1
    } else {
        host_index(m.drop_last(), key)
    }
}

/// The addresses of `key`, if it is there.
pub open spec fn host_lookup(m: Seq<(Seq<char>, Seq<IpAddr>)>, key: Seq<char>) -> Option<Seq<IpAddr>> {
    let i = host_index(m, key);
    if i < 0 {
        None
    } else {
        Some(m[i].1)
    }
}

/// The entries with `ips` added after those of `key` (a new key goes last).
pub open spec fn add_ips(m: Seq<(Seq<char>, Seq<IpAddr>)>, key: Seq<char>, ips: Seq<IpAddr>) -> Seq<(Seq<char>, Seq<IpAddr>)> {
    let i = host_index(m, key);
    if i < 0 {
        m.push((key, ips))
    } else {
        m.update(i, (key, m[i].1 + ips))
    }
}

/// Whether no name occurs twice.
pub open spec fn keys_distinct(m: Seq<(Seq<char>, Seq<IpAddr>)>) -> bool {
    forall|i: int, j: int| 0 <= i < j < m.len() ==> m[i].0 != m[j].0
}

proof fn lemma_host_index(m: Seq<(Seq<char>, Seq<IpAddr>)>, key: Seq<char>)
    requires
        keys_distinct(m),
    ensures
        -1 <= host_index(m, key) < m.len(),
        host_index(m, key) >= 0 ==> m[host_index(m, key)].0 == key,
        host_index(m, key) < 0 ==> forall|j: int| 0 <= j < m.len() ==> m[j].0 != key,
        forall|j: int| 0 <= j < m.len() && m[j].0 == key ==> host_index(m, key) == j,
    decreases m.len(),
{
    if m.len() > 0 {
        let d = m.drop_last();
        assert(keys_distinct(d)) by {
            assert forall|i: int, j: int| 0 <= i < j < d.len() implies d[i].0 != d[j].0 by {
                assert(d[i] == m[i] && d[j] == m[j]);
            }
        }
        lemma_host_index(d, key);
        assert forall|j: int| 0 <= j < d.len() implies d[j] == m[j] by {}
        if m.last().0 == key {
            assert forall|j: int| 0 <= j < m.len() && m[j].0 == key implies host_index(m, key) == j by {
                if j < m.len() - 1 {
                    assert(m[j].0 != m[m.len() - 1].0);
                }
            }
        } else {
            assert forall|j: int| 0 <= j < m.len() && m[j].0 == key implies host_index(m, key) == j by {
                if j < m.len() - 1 {
                    assert(d[j].0 == key);
                }
            }
        }
    }
}

proof fn lemma_add_ips_distinct(m: Seq<(Seq<char>, Seq<IpAddr>)>, key: Seq<char>, ips: Seq<IpAddr>)
    requires
        keys_distinct(m),
    ensures
        keys_distinct(add_ips(m, key, ips)),
{
    lemma_host_index(m, key);
}

/// The tokens of a hosts line that are addresses, in order.
pub open spec fn line_ips(tokens: Seq<Seq<char>>) -> Seq<IpAddr>
    decreases tokens.len(),
{
    if tokens.len() == 0 {
        Seq::empty()
    } else {
        let rest = line_ips(tokens.drop_last());
        match ip_parse(tokens.last()) {
            Some(ip) => rest.push(ip),
            None => rest,
        }
    }
}

/// The tokens of a hosts line that are names, in order.
pub open spec fn line_names(tokens: Seq<Seq<char>>) -> Seq<Seq<char>>
    decreases tokens.len(),
{
    if tokens.len() == 0 {
        Seq::empty()
    } else {
        let rest = line_names(tokens.drop_last());
        match ip_parse(tokens.last()) {
            Some(_) => rest,
            None => rest.push(tokens.last()),
        }
    }
}

/// The entries after adding `ips` for each of `names`, lower-cased.
pub open spec fn add_names(m: Seq<(Seq<char>, Seq<IpAddr>)>, names: Seq<Seq<char>>, ips: Seq<IpAddr>) -> Seq<(Seq<char>, Seq<IpAddr>)>
    decreases names.len(),
{
    if names.len() == 0 {
        m
    } else {
        add_ips(add_names(m, names.drop_last(), ips), unicode_lower(names.last()), ips)
    }
}

/// The entries after one line of a hosts file, or the line when it has
/// names but no address. Blank lines, comments (`#`) and lines of fewer
/// than two tokens change nothing.
pub open spec fn hosts_line(m: Seq<(Seq<char>, Seq<IpAddr>)>, raw: Seq<char>) -> Result<Seq<(Seq<char>, Seq<IpAddr>)>, Seq<char>> {
    let line = trim(raw);
    if line.len() == 0 || line[0] == '#' {
        Ok(m)
    } else {
        let tokens = split_ws(line);
        if tokens.len() < 2 {
            Ok(m)
        } else {
            let ips = line_ips(tokens);
            if ips.len() == 0 {
                Err(line)
            } else {
                Ok(add_names(m, line_names(tokens), ips))
            }
        }
    }
}

/// The entries a hosts file's lines give, or the first line without an
/// address.
pub open spec fn hosts_lines(ls: Seq<Seq<char>>) -> Result<Seq<(Seq<char>, Seq<IpAddr>)>, Seq<char>>
    decreases ls.len(),
{
    if ls.len() == 0 {
        Ok(Seq::empty())
    } else {
        match hosts_lines(ls.drop_last()) {
            Err(l) => Err(l),
            Ok(m) => hosts_line(m, ls.last()),
        }
    }
}

/// Names and their addresses.
#[derive(Debug)]
pub struct Hosts {
    pub hosts: Vec<(String, Vec<IpAddr>)>,
}

fn copy_ips(v: &Vec<IpAddr>) -> (r: Vec<IpAddr>)
    ensures
        r@ == v@,
{
    let mut r: Vec<IpAddr> = Vec::new();
    let mut i: usize = 0;
    while i < v.len()
        invariant
            i <= v@.len(),
            r@ == v@.take(i as int),
        decreases v.len() - i,
    {
        r.push(v[i]);
        assert(v@.take(i + 1) =~= v@.take(i as int).push(v@[i as int]));
        i = i + 1;
    }
    assert(v@.take(v@.len() as int) =~= v@);
    r
}

fn find_host(v: &Vec<(String, Vec<IpAddr>)>, key: &Vec<char>) -> (r: Option<usize>)
    requires
        keys_distinct(host_entries(v@)),
    ensures
        match r {
            Some(i) => i as int == host_index(host_entries(v@), key@) && i < v@.len(),
            None => host_index(host_entries(v@), key@) < 0,
        },
{
    let ghost m = host_entries(v@);
    proof {
        lemma_host_index(m, key@);
    }
    let mut i: usize = 0;
    while i < v.len()
        invariant
            m == host_entries(v@),
            keys_distinct(m),
            i <= v@.len(),
            forall|j: int| 0 <= j < i ==> m[j].0 != key@,
            -1 <= host_index(m, key@) < m.len(),
            forall|j: int| 0 <= j < m.len() && m[j].0 == key@ ==> host_index(m, key@) == j,
            host_index(m, key@) < 0 ==> forall|j: int| 0 <= j < m.len() ==> m[j].0 != key@,
        decreases v.len() - i,
    {
        let k = chars_of(v[i].0.as_str());
        if crate::text::chars_eq(&k, key) {
            assert(m[i as int].0 == key@);
            return Some(i);
        }
        i = i + 1;
    }
    None
}

/// Adds `ips` after the addresses of `key` (a new key goes last).
fn add_to(v: &mut Vec<(String, Vec<IpAddr>)>, key: Vec<char>, ips: &Vec<IpAddr>)
    requires
        keys_distinct(host_entries(old(v)@)),
    ensures
        host_entries(final(v)@) == add_ips(host_entries(old(v)@), key@, ips@),
        keys_distinct(host_entries(final(v)@)),
{
    let ghost m = host_entries(v@);
    proof {
        lemma_add_ips_distinct(m, key@, ips@);
        lemma_host_index(m, key@);
    }
    match find_host(v, &key) {
        Some(i) => {
            let (k, mut list) = v.remove(i);
            let more = copy_ips(ips);
            let ghost before = list@;
            let mut j: usize = 0;
            while j < more.len()
                invariant
                    j <= more@.len(),
                    list@ == before + more@.take(j as int),
                decreases more.len() - j,
            {
                list.push(more[j]);
                assert(more@.take(j + 1) =~= more@.take(j as int).push(more@[j as int]));
                j = j + 1;
            }
            assert(more@.take(more@.len() as int) =~= more@);
            let ghost kv = k@;
            v.insert(i, (k, list));
            proof {
                assert(kv == key@);
                assert(host_entries(v@) =~= m.update(i as int, (key@, m[i as int].1 + ips@)));
            }
        },
        None => {
            let ghost kv = key@;
            v.push((string_from_chars(&key), copy_ips(ips)));
            assert(host_entries(v@) =~= m.push((kv, ips@)));
        },
    }
}

impl Hosts {
    /// The entries as values.
    pub open spec fn view(&self) -> Seq<(Seq<char>, Seq<IpAddr>)> {
        host_entries(self.hosts@)
    }

    /// No name occurs twice.
    pub open spec fn wf(&self) -> bool {
        keys_distinct(self.view())
    }

    /// No names.
    pub fn new() -> (h: Hosts)
        ensures
            h.wf(),
            h.view().len() == 0,
    {
        let h = Hosts { hosts: Vec::new() };
        assert(h.view() =~= Seq::<(Seq<char>, Seq<IpAddr>)>::empty());
        h
    }

    /// Adds an address to a name (without trailing dots, lower-cased).
    pub fn add_host(&mut self, domain: String, ip: IpAddr)
        requires
            old(self).wf(),
        ensures
            final(self).wf(),
            final(self).view() == add_ips(old(self).view(), host_key(domain@), seq![ip]),
    {
        let key = lowercase_chars(&trim_end_char_exec(&chars_of(domain.as_str()), '.'));
        let mut one: Vec<IpAddr> = Vec::new();
        one.push(ip);
        assert(one@ =~= seq![ip]);
        add_to(&mut self.hosts, key, &one);
    }

    /// Removes a name; says whether it was there.
    pub fn remove_host(&mut self, domain: &str) -> (removed: bool)
        requires
            old(self).wf(),
        ensures
            final(self).wf(),
            ({
                let i = host_index(old(self).view(), host_key(domain@));
                &&& removed == (i >= 0)
                &&& i >= 0 ==> final(self).view() == old(self).view().remove(i)
                &&& i < 0 ==> final(self).view() == old(self).view()
            }),
    {
        let key = lowercase_chars(&trim_end_char_exec(&chars_of(domain), '.'));
        match find_host(&self.hosts, &key) {
            Some(i) => {
                let ghost m = self.view();
                self.hosts.remove(i);
                assert(self.view() =~= m.remove(i as int));
                true
            },
            None => false,
        }
    }

    /// The addresses of a name (without trailing dots, lower-cased).
    pub fn get_ips(&self, domain: &str) -> (r: Option<Vec<IpAddr>>)
        requires
            self.wf(),
        ensures
            match host_lookup(self.view(), host_key(domain@)) {
                Some(ips) => r matches Some(v) && v@ == ips,
                None => r is None,
            },
    {
        let key = lowercase_chars(&trim_end_char_exec(&chars_of(domain), '.'));
        match find_host(&self.hosts, &key) {
            Some(i) => Some(copy_ips(&self.hosts[i].1)),
            None => None,
        }
    }

    /// The number of names.
    pub fn len(&self) -> (n: usize)
        ensures
            n == self.view().len(),
    {
        self.hosts.len()
    }

    /// Whether there are no names.
    pub fn is_empty(&self) -> (b: bool)
        ensures
            b == (self.view().len() == 0),
    {
        self.hosts.len() == 0
    }

    /// Removes every name.
    pub fn clear(&mut self)
        ensures
            final(self).wf(),
            final(self).view().len() == 0,
    {
        self.hosts = Vec::new();
        assert(self.view() =~= Seq::<(Seq<char>, Seq<IpAddr>)>::empty());
    }

    /// Replaces the names with those of a hosts file's text (see
    /// [`hosts_lines`]); on a line without an address nothing changes and
    /// the error names the line.
    pub fn load_from_string(&mut self, content: &str) -> (r: Result<(), PluginError>)
        requires
            old(self).wf(),
        ensures
            final(self).wf(),
            match hosts_lines(lines_of(content@)) {
                Ok(m) => r is Ok && final(self).view() == m,
                Err(line) => (r matches Err(e) && e.view() == ErrView::FileParse {
                    path: "hosts"@,
                    reason: "No valid IP found in line: "@ + line,
                }) && final(self).view() == old(self).view(),
            },
    {
        let ls = lines(content);
        let ghost lv = views(ls@);
        let mut acc: Vec<(String, Vec<IpAddr>)> = Vec::new();
        assert(host_entries(acc@) =~= Seq::<(Seq<char>, Seq<IpAddr>)>::empty());
        assert(lv.take(0) =~= Seq::<Seq<char>>::empty());
        let mut i: usize = 0;
        while i < ls.len()
            invariant
                lv == views(ls@),
                i <= ls@.len(),
                keys_distinct(host_entries(acc@)),
                hosts_lines(lv.take(i as int)) == Ok::<Seq<(Seq<char>, Seq<IpAddr>)>, Seq<char>>(host_entries(acc@)),
                lv == lines_of(content@),
                old(self).wf(),
                self.hosts@ == old(self).hosts@,
            decreases ls.len() - i,
        {
            proof {
                assert(lv.take(i + 1).drop_last() =~= lv.take(i as int));
                assert(lv.take(i + 1).last() == ls@[i as int]@);
            }
            match apply_line(&mut acc, &ls[i]) {
                Ok(()) => {},
                Err(line) => {
                    proof {
                        lemma_lines_err_sticks(lv, i as int + 1);
                    }
                    let mut reason = chars_of("No valid IP found in line: ");
                    append_chars(&mut reason, &line);
                    return Err(
                        PluginError::FileParse {
                            path: crate::text::owned("hosts"),
                            reason: string_from_chars(&reason),
                        },
                    );
                },
            }
            i = i + 1;
        }
        assert(lv.take(lv.len() as int) =~= lv);
        self.hosts = acc;
        Ok(())
    }
}

/// Splits a line's tokens into addresses and names.
fn classify_tokens(tokens: &Vec<Vec<char>>) -> (r: (Vec<IpAddr>, Vec<Vec<char>>))
    ensures
        r.0@ == line_ips(views(tokens@)),
        views(r.1@) == line_names(views(tokens@)),
{
    let ghost tv = views(tokens@);
    let mut ips: Vec<IpAddr> = Vec::new();
    let mut names: Vec<Vec<char>> = Vec::new();
    let mut t: usize = 0;
    assert(tv.take(0) =~= Seq::<Seq<char>>::empty());
    assert(views(names@) =~= Seq::<Seq<char>>::empty());
    while t < tokens.len()
        invariant
            tv == views(tokens@),
            t <= tokens@.len(),
            ips@ == line_ips(tv.take(t as int)),
            views(names@) == line_names(tv.take(t as int)),
        decreases tokens.len() - t,
    {
        assert(tv.take(t + 1).drop_last() =~= tv.take(t as int));
        assert(tv.take(t + 1).last() == tokens@[t as int]@);
        let text = string_from_chars(&tokens[t]);
        match parse_ip(text.as_str()) {
            Some(ip) => {
                ips.push(ip);
            },
            None => {
                let ghost before = names@;
                let piece = crate::text::slice_chars(&tokens[t], 0, tokens[t].len());
                assert(piece@ =~= tokens@[t as int]@);
                names.push(piece);
                assert(names@ == before.push(piece));
                assert(views(names@) =~= views(before).push(piece@));
            },
        }
        t = t + 1;
    }
    assert(tv.take(tv.len() as int) =~= tv);
    (ips, names)
}

/// Applies one line of a hosts file (see [`hosts_line`]); on a line with
/// names but no address, returns the trimmed line and changes nothing.
fn apply_line(acc: &mut Vec<(String, Vec<IpAddr>)>, raw: &Vec<char>) -> (r: Result<(), Vec<char>>)
    requires
        keys_distinct(host_entries(old(acc)@)),
    ensures
        keys_distinct(host_entries(final(acc)@)),
        match hosts_line(host_entries(old(acc)@), raw@) {
            Ok(m) => r is Ok && host_entries(final(acc)@) == m,
            Err(l) => r matches Err(x) && x@ == l,
        },
{
    let line = trim_chars(raw);
    if line.len() == 0 || line[0] == '#' {
        return Ok(());
    }
    let tokens = split_whitespace(&line);
    if tokens.len() < 2 {
        return Ok(());
    }
    let (ips, names) = classify_tokens(&tokens);
    if ips.len() == 0 {
        return Err(line);
    }
    let ghost base = host_entries(acc@);
    let ghost nv = views(names@);
    let mut n: usize = 0;
    assert(nv.take(0) =~= Seq::<Seq<char>>::empty());
    while n < names.len()
        invariant
            nv == views(names@),
            n <= names@.len(),
            keys_distinct(host_entries(acc@)),
            host_entries(acc@) == add_names(base, nv.take(n as int), ips@),
        decreases names.len() - n,
    {
        assert(nv.take(n + 1).drop_last() =~= nv.take(n as int));
        assert(nv.take(n + 1).last() == names@[n as int]@);
        let key = lowercase_chars(&names[n]);
        add_to(acc, key, &ips);
        n = n + 1;
    }
    assert(nv.take(nv.len() as int) =~= nv);
    Ok(())
}

proof fn lemma_lines_err_sticks(ls: Seq<Seq<char>>, k: int)
    requires
        0 <= k <= ls.len(),
        hosts_lines(ls.take(k)) is Err,
    ensures
        hosts_lines(ls) == hosts_lines(ls.take(k)),
    decreases ls.len() - k,
{
    if k < ls.len() {
        assert(ls.take(k + 1).drop_last() =~= ls.take(k));
        lemma_lines_err_sticks(ls, k + 1);
    } else {
        assert(ls.take(k) =~= ls);
    }
}

/// The answers for a question from a name's addresses: one record (TTL
/// 3600, the question's name and class) per address of the asked family,
/// in order.
pub open spec fn host_answers(q: Question, ips: Seq<IpAddr>) -> Seq<Record>
    decreases ips.len(),
{
    if ips.len() == 0 {
        Seq::empty()
    } else {
        let rest = host_answers(q, ips.drop_last());
        match (ips.last(), q.qtype == TYPE_A, q.qtype == TYPE_AAAA) {
            (IpAddr::V4(a), true, _) => rest.push(
                Record { name: q.qname, rtype: TYPE_A, class: q.qclass, ttl: 3600, rdata: RData::A(a) },
            ),
            (IpAddr::V6(a), _, true) => rest.push(
                Record { name: q.qname, rtype: TYPE_AAAA, class: q.qclass, ttl: 3600, rdata: RData::AAAA(a) },
            ),
            _ => rest,
        }
    }
}

/// How many of `ips` are IPv6 addresses (`v6`) or IPv4 addresses (`!v6`).
pub open spec fn family_count(ips: Seq<IpAddr>, v6: bool) -> nat
    decreases ips.len(),
{
    if ips.len() == 0 {
        0
    } else {
        family_count(ips.drop_last(), v6) + if (ips.last() is V6) == v6 { 1nat } else { 0nat }
    }
}

/// A hosts answer holds one record per mapped address of the asked family:
/// for an A question as many answers as the name has IPv4 addresses, each
/// such address answered by an A record (TTL 3600, the question's name and
/// class), and every answer one of them; likewise for AAAA with the IPv6
/// addresses; no answers for any other question type.
pub proof fn lemma_host_answers_per_address(q: Question, ips: Seq<IpAddr>)
    ensures
        ({
            let ans = host_answers(q, ips);
            &&& q.qtype == TYPE_A ==> {
                &&& ans.len() == family_count(ips, false)
                &&& forall|i: int| 0 <= i < ips.len() && #[trigger] ips[i] is V4 ==> exists|j: int|
                    0 <= j < ans.len() && #[trigger] ans[j] == (Record {
                        name: q.qname,
                        rtype: TYPE_A,
                        class: q.qclass,
                        ttl: 3600,
                        rdata: RData::A(ips[i]->V4_0),
                    })
                &&& forall|j: int| 0 <= j < ans.len() ==> exists|i: int|
                    0 <= i < ips.len() && #[trigger] ips[i] is V4 && #[trigger] ans[j] == (Record {
                        name: q.qname,
                        rtype: TYPE_A,
                        class: q.qclass,
                        ttl: 3600,
                        rdata: RData::A(ips[i]->V4_0),
                    })
            }
            &&& q.qtype == TYPE_AAAA ==> {
                &&& ans.len() == family_count(ips, true)
                &&& forall|i: int| 0 <= i < ips.len() && #[trigger] ips[i] is V6 ==> exists|j: int|
                    0 <= j < ans.len() && #[trigger] ans[j] == (Record {
                        name: q.qname,
                        rtype: TYPE_AAAA,
                        class: q.qclass,
                        ttl: 3600,
                        rdata: RData::AAAA(ips[i]->V6_0),
                    })
                &&& forall|j: int| 0 <= j < ans.len() ==> exists|i: int|
                    0 <= i < ips.len() && #[trigger] ips[i] is V6 && #[trigger] ans[j] == (Record {
                        name: q.qname,
                        rtype: TYPE_AAAA,
                        class: q.qclass,
                        ttl: 3600,
                        rdata: RData::AAAA(ips[i]->V6_0),
                    })
            }
            &&& q.qtype != TYPE_A && q.qtype != TYPE_AAAA ==> ans.len() == 0
        }),
    decreases ips.len(),
{
    if ips.len() > 0 {
        let d = ips.drop_last();
        lemma_host_answers_per_address(q, d);
        let prev = host_answers(q, d);
        let ans = host_answers(q, ips);
        let last = ips.last();
        assert(forall|i: int| 0 <= i < d.len() ==> d[i] == ips[i]);
        if q.qtype == TYPE_A {
            let rec_of = |i: int| Record { name: q.qname, rtype: TYPE_A, class: q.qclass, ttl: 3600, rdata: RData::A(ips[i]->V4_0) };
            assert forall|i: int| 0 <= i < ips.len() && #[trigger] ips[i] is V4 implies exists|j: int|
                0 <= j < ans.len() && #[trigger] ans[j] == rec_of(i) by {
                if i < d.len() {
                    assert(d[i] is V4);
                    let j = choose|j: int| 0 <= j < prev.len() && #[trigger] prev[j] == (Record {
                        name: q.qname,
                        rtype: TYPE_A,
                        class: q.qclass,
                        ttl: 3600,
                        rdata: RData::A(d[i]->V4_0),
                    });
                    assert(ans[j] == prev[j]);
                } else {
                    assert(ans[ans.len() - 1] == rec_of(i));
                }
            }
            assert forall|j: int| 0 <= j < ans.len() implies exists|i: int|
                0 <= i < ips.len() && #[trigger] ips[i] is V4 && #[trigger] ans[j] == rec_of(i) by {
                if j < prev.len() {
                    assert(ans[j] == prev[j]);
                    let i = choose|i: int| 0 <= i < d.len() && #[trigger] d[i] is V4 && #[trigger] prev[j] == (Record {
                        name: q.qname,
                        rtype: TYPE_A,
                        class: q.qclass,
                        ttl: 3600,
                        rdata: RData::A(d[i]->V4_0),
                    });
                    assert(ips[i] == d[i]);
                } else {
                    assert(ips[ips.len() - 1] is V4);
                }
            }
        } else if q.qtype == TYPE_AAAA {
            let rec_of = |i: int| Record { name: q.qname, rtype: TYPE_AAAA, class: q.qclass, ttl: 3600, rdata: RData::AAAA(ips[i]->V6_0) };
            assert forall|i: int| 0 <= i < ips.len() && #[trigger] ips[i] is V6 implies exists|j: int|
                0 <= j < ans.len() && #[trigger] ans[j] == rec_of(i) by {
                if i < d.len() {
                    assert(d[i] is V6);
                    let j = choose|j: int| 0 <= j < prev.len() && #[trigger] prev[j] == (Record {
                        name: q.qname,
                        rtype: TYPE_AAAA,
                        class: q.qclass,
                        ttl: 3600,
                        rdata: RData::AAAA(d[i]->V6_0),
                    });
                    assert(ans[j] == prev[j]);
                } else {
                    assert(ans[ans.len() - 1] == rec_of(i));
                }
            }
            assert forall|j: int| 0 <= j < ans.len() implies exists|i: int|
                0 <= i < ips.len() && #[trigger] ips[i] is V6 && #[trigger] ans[j] == rec_of(i) by {
                if j < prev.len() {
                    assert(ans[j] == prev[j]);
                    let i = choose|i: int| 0 <= i < d.len() && #[trigger] d[i] is V6 && #[trigger] prev[j] == (Record {
                        name: q.qname,
                        rtype: TYPE_AAAA,
                        class: q.qclass,
                        ttl: 3600,
                        rdata: RData::AAAA(d[i]->V6_0),
                    });
                    assert(ips[i] == d[i]);
                } else {
                    assert(ips[ips.len() - 1] is V6);
                }
            }
        }
    }
}

/// The response a hosts match gives: authoritative, no recursion, the
/// question and [`host_answers`].
pub open spec fn host_response(q: Question, ips: Seq<IpAddr>, m: Message) -> bool {
    &&& m.is_response
    &&& m.authoritative
    &&& !m.recursion_available
    &&& m.rcode == RCODE_NOERROR
    &&& m.questions@ == seq![q]
    &&& m.answers@ == host_answers(q, ips)
    &&& m.authority@.len() == 0
    &&& m.additional@.len() == 0
}

/// Answers A and AAAA queries from static mappings.
#[derive(Debug)]
pub struct HostsPlugin {
    pub hosts: Hosts,
    /// Files the mappings are read from.
    pub files: Vec<String>,
    /// Reload the files when they change.
    pub auto_reload: bool,
}

impl HostsPlugin {
    /// No mappings, no files, no reloading.
    pub fn new() -> (p: HostsPlugin)
        ensures
            p.hosts.wf(),
            p.hosts.view().len() == 0,
            p.files@.len() == 0,
            !p.auto_reload,
    {
        HostsPlugin { hosts: Hosts::new(), files: Vec::new(), auto_reload: false }
    }

    /// Sets the files.
    pub fn with_files(self, files: Vec<String>) -> (p: HostsPlugin)
        ensures
            p == (HostsPlugin { files, ..self }),
    {
        HostsPlugin { files, ..self }
    }

    /// Sets reloading.
    pub fn with_auto_reload(self, enabled: bool) -> (p: HostsPlugin)
        ensures
            p == (HostsPlugin { auto_reload: enabled, ..self }),
    {
        HostsPlugin { auto_reload: enabled, ..self }
    }

    /// The plugin's registered name.
    pub fn name(&self) -> (s: &'static str)
        ensures
            s@ == "hosts"@,
    {
        "hosts"
    }

    /// Whether a file watcher is to be started: reloading is on and there
    /// are files.
    pub fn wants_watcher(&self) -> (b: bool)
        ensures
            b == (self.auto_reload && self.files@.len() > 0),
    {
        self.auto_reload && self.files.len() > 0
    }

    /// The response for a question answered from these addresses (see
    /// [`host_response`]); its id is 0.
    pub fn create_response(&self, question: &Question, ips: &Vec<IpAddr>) -> (m: Message)
        ensures
            host_response(*question, ips@, m),
            m.id == 0,
    {
        let mut response = Message::new();
        response.is_response = true;
        response.authoritative = true;
        response.recursion_available = false;
        let q = copy_question(question);
        response.questions.push(q);
        assert(response.questions@ =~= seq![*question]);
        let mut i: usize = 0;
        assert(ips@.take(0) =~= Seq::<IpAddr>::empty());
        assert(response.answers@ =~= host_answers(*question, ips@.take(0)));
        while i < ips.len()
            invariant
                i <= ips@.len(),
                response.is_response,
                response.authoritative,
                !response.recursion_available,
                response.rcode == RCODE_NOERROR,
                response.id == 0,
                response.questions@ == seq![*question],
                response.answers@ == host_answers(*question, ips@.take(i as int)),
                response.authority@.len() == 0,
                response.additional@.len() == 0,
            decreases ips.len() - i,
        {
            assert(ips@.take(i + 1).drop_last() =~= ips@.take(i as int));
            assert(ips@.take(i + 1).last() == ips@[i as int]);
            match ips[i] {
                IpAddr::V4(a) => {
                    if question.qtype == TYPE_A {
                        response.answers.push(
                            Record { name: question.qname.clone(), rtype: TYPE_A, class: question.qclass, ttl: 3600, rdata: RData::A(a) },
                        );
                    }
                },
                IpAddr::V6(a) => {
                    if question.qtype == TYPE_AAAA {
                        response.answers.push(
                            Record {
                                name: question.qname.clone(),
                                rtype: TYPE_AAAA,
                                class: question.qclass,
                                ttl: 3600,
                                rdata: RData::AAAA(a),
                            },
                        );
                    }
                },
            }
            i = i + 1;
        }
        assert(ips@.take(ips@.len() as int) =~= ips@);
        response
    }

    /// Answers the query from the mappings when there is no response yet,
    /// the first question asks for A or AAAA, and its name is mapped: the
    /// response (with the request's id) is [`host_response`]. Returns
    /// whether it answered.
    pub fn execute(&self, ctx: &mut Context) -> (answered: bool)
        requires
            self.hosts.wf(),
        ensures
            final(ctx).request == old(ctx).request,
            final(ctx).client_ip == old(ctx).client_ip,
            final(ctx).set_entries == old(ctx).set_entries,
            final(ctx).returned == old(ctx).returned,
            final(ctx).tag == old(ctx).tag,
            answered == (old(ctx).response is None && old(ctx).request.questions@.len() > 0 && (old(
                ctx,
            ).request.questions@[0].qtype == TYPE_A || old(ctx).request.questions@[0].qtype == TYPE_AAAA)
                && host_lookup(self.hosts.view(), host_key(old(ctx).request.questions@[0].qname@)) is Some),
            !answered ==> final(ctx).response == old(ctx).response,
            answered ==> (final(ctx).response matches Some(m) && m.id == old(ctx).request.id && host_response(
                old(ctx).request.questions@[0],
                host_lookup(self.hosts.view(), host_key(old(ctx).request.questions@[0].qname@))->Some_0,
                m,
            )),
    {
        if ctx.response.is_some() || ctx.request.questions.len() == 0 {
            return false;
        }
        let qtype = ctx.request.questions[0].qtype;
        if qtype != TYPE_A && qtype != TYPE_AAAA {
            return false;
        }
        match self.hosts.get_ips(ctx.request.questions[0].qname.as_str()) {
            Some(ips) => {
                let mut response = self.create_response(&ctx.request.questions[0], &ips);
                response.id = ctx.request.id;
                response.rcode = RCODE_NOERROR;
                ctx.response = Some(response);
                true
            },
            None => false,
        }
    }

    /// Sets the plugin up from `files` (a list, whose strings are kept, or
    /// one string) and `auto_reload`; the files are read afterwards.
    pub fn init(args: &Vec<(String, ConfigValue)>) -> (p: HostsPlugin)
        ensures
            p.hosts.wf(),
            p.hosts.view().len() == 0,
            p.auto_reload == match arg_get(args@, "auto_reload"@) {
                Some(ConfigValue::Bool(b)) => b,
                _ => false,
            },
            views_of_strings(p.files@) == match arg_get(args@, "files"@) {
                Some(ConfigValue::List(items)) => string_items(items@),
                Some(ConfigValue::Str(s)) => seq![s@],
                _ => Seq::empty(),
            },
    {
        let mut plugin = HostsPlugin::new();
        match get_arg(args, "files") {
            Some(ConfigValue::List(items)) => {
                plugin = plugin.with_files(strings_of(items));
            },
            Some(ConfigValue::Str(s)) => {
                let mut v: Vec<String> = Vec::new();
                v.push(s.clone());
                assert(views_of_strings(v@) =~= seq![s@]);
                plugin = plugin.with_files(v);
            },
            _ => {
                assert(views_of_strings(plugin.files@) =~= Seq::<Seq<char>>::empty());
            },
        }
        match get_arg(args, "auto_reload") {
            Some(ConfigValue::Bool(b)) => {
                plugin = plugin.with_auto_reload(*b);
            },
            _ => {},
        }
        plugin
    }
}

/// The text the readable files give together: each one's contents followed
/// by a newline, in order (`None` for a file that could not be read).
pub open spec fn combined_text(contents: Seq<Option<Seq<char>>>) -> Seq<char>
    decreases contents.len(),
{
    if contents.len() == 0 {
        Seq::empty()
    } else {
        let t = combined_text(contents.drop_last());
        match contents.last() {
            Some(c) => t + c + "\n"@,
            None => t,
        }
    }
}

/// The contents of what was read from each file.
pub open spec fn read_views(c: Seq<Option<String>>) -> Seq<Option<Seq<char>>> {
    c.map_values(
        |o: Option<String>|
            match o {
                Some(s) => Some(s@),
                None => None,
            },
    )
}

impl HostsPlugin {
    /// Loads the mappings from the files' contents (one entry per file, in
    /// order; `None` for a file that could not be read, which is skipped):
    /// the readable contents, each followed by a newline, are read as one
    /// hosts text (see [`Hosts::load_from_string`]). Nothing changes when
    /// no file could be read.
    pub fn load_hosts(&mut self, contents: Vec<Option<String>>) -> (r: Result<(), PluginError>)
        requires
            old(self).hosts.wf(),
            contents@.len() == old(self).files@.len(),
        ensures
            final(self).hosts.wf(),
            final(self).files == old(self).files,
            final(self).auto_reload == old(self).auto_reload,
            combined_text(read_views(contents@)).len() == 0 ==> (r is Ok && final(self).hosts.view()
                == old(self).hosts.view()),
            combined_text(read_views(contents@)).len() > 0 ==> match hosts_lines(
                lines_of(combined_text(read_views(contents@))),
            ) {
                Ok(m) => r is Ok && final(self).hosts.view() == m,
                Err(line) => (r matches Err(e) && e.view() == ErrView::FileParse {
                    path: "hosts"@,
                    reason: "No valid IP found in line: "@ + line,
                }) && final(self).hosts.view() == old(self).hosts.view(),
            },
    {
        let ghost cv = read_views(contents@);
        let mut all: Vec<char> = Vec::new();
        let mut i: usize = 0;
        assert(cv.take(0) =~= Seq::<Option<Seq<char>>>::empty());
        while i < contents.len()
            invariant
                i <= contents@.len(),
                cv == read_views(contents@),
                all@ == combined_text(cv.take(i as int)),
            decreases contents.len() - i,
        {
            proof {
                assert(cv.take(i + 1).drop_last() =~= cv.take(i as int));
                assert(cv.take(i + 1).last() == cv[i as int]);
            }
            match &contents[i] {
                Some(c) => {
                    let cc = chars_of(c.as_str());
                    append_chars(&mut all, &cc);
                    all.push('\n');
                    assert(all@ =~= combined_text(cv.take(i + 1))) by {
                        reveal_strlit("\n");
                    }
                },
                None => {},
            }
            i = i + 1;
        }
        assert(cv.take(contents@.len() as int) =~= cv);
        if all.len() == 0 {
            return Ok(());
        }
        let text = string_from_chars(&all);
        self.hosts.load_from_string(text.as_str())
    }
}

impl Default for Hosts {
    /// An empty table.
    fn default() -> (h: Hosts)
        ensures
            h.wf(),
            h.view().len() == 0,
    {
        Hosts::new()
    }
}

impl Default for HostsPlugin {
    /// A plugin with no mappings, no files and no reloading.
    fn default() -> (p: HostsPlugin)
        ensures
            p.hosts.wf(),
            p.hosts.view().len() == 0,
            p.files@.len() == 0,
            !p.auto_reload,
    {
        HostsPlugin::new()
    }
}

/// The texts of strings.
pub open spec fn views_of_strings(v: Seq<String>) -> Seq<Seq<char>> {
    v.map_values(|s: String| s@)
}

/// The strings among configuration values, in order.
pub open spec fn string_items(items: Seq<ConfigValue>) -> Seq<Seq<char>>
    decreases items.len(),
{
    if items.len() == 0 {
        Seq::empty()
    } else {
        let rest = string_items(items.drop_last());
        match items.last() {
            ConfigValue::Str(s) => rest.push(s@),
            _ => rest,
        }
    }
}

/// The strings among configuration values, in order.
pub fn strings_of(items: &Vec<ConfigValue>) -> (r: Vec<String>)
    ensures
        views_of_strings(r@) == string_items(items@),
{
    let mut r: Vec<String> = Vec::new();
    let mut i: usize = 0;
    assert(items@.take(0) =~= Seq::<ConfigValue>::empty());
    assert(views_of_strings(r@) =~= Seq::<Seq<char>>::empty());
    while i < items.len()
        invariant
            i <= items@.len(),
            views_of_strings(r@) == string_items(items@.take(i as int)),
        decreases items.len() - i,
    {
        assert(items@.take(i + 1).drop_last() =~= items@.take(i as int));
        assert(items@.take(i + 1).last() == items@[i as int]);
        match &items[i] {
            ConfigValue::Str(s) => {
                let ghost before = r@;
                r.push(s.clone());
                assert(views_of_strings(r@) =~= views_of_strings(before).push(s@));
            },
            _ => {},
        }
        i = i + 1;
    }
    assert(items@.take(items@.len() as int) =~= items@);
    r
}

/// After adding addresses to a name, looking the name up gives its earlier
/// addresses (none for a new name) followed by the added ones.
pub proof fn lemma_add_then_lookup(m: Seq<(Seq<char>, Seq<IpAddr>)>, key: Seq<char>, ips: Seq<IpAddr>)
    requires
        keys_distinct(m),
    ensures
        host_lookup(add_ips(m, key, ips), key) == Some(
            match host_lookup(m, key) {
                Some(old_ips) => old_ips + ips,
                None => ips,
            },
        ),
{
    lemma_host_index(m, key);
    lemma_add_ips_distinct(m, key, ips);
    let n = add_ips(m, key, ips);
    lemma_host_index(n, key);
    let i = host_index(m, key);
    if i < 0 {
        assert(n[n.len() - 1].0 == key);
    } else {
        assert(n[i].0 == key);
    }
}

/// Adding addresses to one name leaves every other name's lookup as it was.
pub proof fn lemma_add_keeps_others(m: Seq<(Seq<char>, Seq<IpAddr>)>, key: Seq<char>, other: Seq<char>, ips: Seq<IpAddr>)
    requires
        keys_distinct(m),
        key != other,
    ensures
        host_lookup(add_ips(m, key, ips), other) == host_lookup(m, other),
{
    lemma_host_index(m, key);
    lemma_host_index(m, other);
    lemma_add_ips_distinct(m, key, ips);
    let n = add_ips(m, key, ips);
    lemma_host_index(n, other);
    let j = host_index(m, other);
    if j >= 0 {
        assert(n[j].0 == other);
    } else {
        assert forall|k: int| 0 <= k < n.len() implies n[k].0 != other by {
            if k < m.len() {
            }
        }
    }
}

} // verus!
