//! Domain matching rules (`full:`, `domain:`, `regexp:`, `keyword:`) and the
//! domain set plugin that holds them.
//!
//! A domain matches when, after dropping trailing dots and lower-casing, it is
//! one of the full rules, equals or is a subdomain of a domain rule, is matched
//! by a regular expression rule, or contains a keyword rule.

use vstd::prelude::*;
use crate::config::{arg_get, get_arg, str_is, ConfigValue};
use crate::dns::Context;
use crate::error::PluginError;
use crate::hosts::{string_items, views_of_strings};
use crate::ip_set::string_list;
use crate::text::{
    owned, to_lowercase,
    chars_eq, chars_of, contains_chars, contains_seq, ends_with, has_prefix, has_suffix,
    lowercase_chars, slice_chars, starts_with, string_from_chars, trim, trim_chars,
    unicode_lower,
};

verus! {

#[verifier::external_type_specification]
#[verifier::external_body]
pub struct ExRegex(regex::Regex);

/// Whether `Regex::new` accepts the pattern `p`.
pub uninterp spec fn regex_compiles(p: Seq<char>) -> bool;

/// Whether the regular expression compiled from `p` matches somewhere in `t`
/// (`Regex::is_match`).
pub uninterp spec fn regex_finds(p: Seq<char>, t: Seq<char>) -> bool;

/// Matching strategy of a domain rule.
#[derive(Debug, Clone, Copy, PartialEq, Eq)]
pub enum MatchType {
    /// Exact match only (`full:google.com` matches only `google.com`)
    Full,
    /// Domain and subdomain match (`domain:google.com` matches `google.com`, `www.google.com`)
    Domain,
    /// Regex pattern match (`regexp:.+\.google\.com$`)
    Regexp,
    /// Keyword/substring match (`keyword:google` matches any domain containing "google")
    Keyword,
}

impl Default for MatchType {
    fn default() -> (m: MatchType)
        ensures
            m == MatchType::Full,
    {
        MatchType::Full
    }
}

/// A regular expression rule: the pattern and the regex compiled from it.
pub struct RegexpRule {
    pattern: String,
    regex: regex::Regex,
}

impl RegexpRule {
    /// The pattern this rule was compiled from.
    pub closed spec fn pattern_view(&self) -> Seq<char> {
        self.pattern@
    }

    /// The pattern this rule was compiled from.
    pub fn pattern(&self) -> (p: &String)
        ensures
            p@ == self.pattern_view(),
    {
        &self.pattern
    }
}

/// Compiles `pattern` with `Regex::new`; `None` when the regex crate rejects it.
/// The rule that comes back holds the pattern it was compiled from.
#[verifier::external_body]
fn compile_rule(pattern: String) -> (r: Option<RegexpRule>)
    ensures
        r is Some <==> regex_compiles(pattern@),
        r matches Some(rule) ==> rule.pattern_view() == pattern@,
{
    match regex::Regex::new(&pattern) {
        Ok(regex) => Some(RegexpRule { pattern, regex }),
        Err(_) => None,
    }
}

/// `Regex::is_match` of the rule's compiled regex on `text`.
#[verifier::external_body]
fn rule_finds(rule: &RegexpRule, text: &str) -> (b: bool)
    ensures
        b == regex_finds(rule.pattern_view(), text@),
{
    rule.regex.is_match(text)
}

/// Abstract contents of a rule collection.
pub struct RulesView {
    pub full: Seq<Seq<char>>,
    pub domain: Seq<Seq<char>>,
    pub regexp: Seq<Seq<char>>,
    pub keyword: Seq<Seq<char>>,
}

/// Domain matching rules.
pub struct DomainRules {
    full: Vec<String>,
    domain: Vec<String>,
    regexp: Vec<RegexpRule>,
    keyword: Vec<String>,
}

/// Statistics for domain rules.
#[derive(Debug, Clone, Copy)]
pub struct DomainRulesStats {
    pub full_count: usize,
    pub domain_count: usize,
    pub regexp_count: usize,
    pub keyword_count: usize,
}

/// The views of a vector of strings.
pub open spec fn string_views(v: Seq<String>) -> Seq<Seq<char>> {
    v.map_values(|s: String| s@)
}

/// `s` without its trailing dots (`trim_end_matches('.')`).
pub open spec fn strip_dots(s: Seq<char>) -> Seq<char>
    decreases s.len(),
{
    if s.len() > 0 && s.last() == '.' {
        strip_dots(s.drop_last())
    } else {
        s
    }
}

/// The form of a queried domain that rules are matched against.
pub open spec fn normalized_domain(d: Seq<char>) -> Seq<char> {
    unicode_lower(strip_dots(d))
}

/// Whether `d` is the domain `rule` or one of its subdomains.
pub open spec fn is_subdomain_of(d: Seq<char>, rule: Seq<char>) -> bool {
    d == rule || (rule.len() < d.len() && has_suffix(d, rule) && d[d.len() - rule.len() - 1]
        == '.')
}

/// Whether the (normalized) domain `d` matches the rules `v`.
pub open spec fn view_matches(v: RulesView, d: Seq<char>) -> bool {
    ||| v.full.contains(d)
    ||| exists|i: int| 0 <= i < v.domain.len() && is_subdomain_of(d, #[trigger] v.domain[i])
    ||| exists|i: int| 0 <= i < v.regexp.len() && regex_finds(#[trigger] v.regexp[i], d)
    ||| exists|i: int| 0 <= i < v.keyword.len() && contains_seq(d, #[trigger] v.keyword[i])
}

/// The rules after adding `value` with match type `mt` (non-regexp values
/// lower-cased; full and domain rules kept once; invalid regexps skipped).
pub open spec fn view_add(v: RulesView, mt: MatchType, value: Seq<char>) -> RulesView {
    if value.len() == 0 {
        v
    } else {
        match mt {
            MatchType::Full => {
                let n = unicode_lower(value);
                RulesView { full: if v.full.contains(n) { v.full } else { v.full.push(n) }, ..v }
            },
            MatchType::Domain => {
                let n = unicode_lower(value);
                RulesView {
                    domain: if v.domain.contains(n) { v.domain } else { v.domain.push(n) },
                    ..v
                }
            },
            MatchType::Regexp => {
                if regex_compiles(value) {
                    RulesView { regexp: v.regexp.push(value), ..v }
                } else {
                    v
                }
            },
            MatchType::Keyword => RulesView { keyword: v.keyword.push(unicode_lower(value)), ..v },
        }
    }
}

/// The rule that a line of a rules file describes: the match type given by a
/// `full:`, `domain:`, `keyword:` or `regexp:` prefix (else `default`), and the
/// trimmed value, lower-cased unless it is a regexp. `None` for blank lines,
/// comments and empty values.
pub open spec fn line_rule(line: Seq<char>, default: MatchType) -> Option<(MatchType, Seq<char>)> {
    let t = trim(line);
    if t.len() == 0 || t[0] == '#' {
        None
    } else {
        let (mt, raw) = if has_prefix(t, "full:"@) {
            (MatchType::Full, t.skip(5))
        } else if has_prefix(t, "domain:"@) {
            (MatchType::Domain, t.skip(7))
        } else if has_prefix(t, "keyword:"@) {
            (MatchType::Keyword, t.skip(8))
        } else if has_prefix(t, "regexp:"@) {
            (MatchType::Regexp, t.skip(7))
        } else {
            (default, t)
        };
        let value = trim(raw);
        if value.len() == 0 {
            None
        } else {
            Some(
                (
                    mt,
                    match mt {
                        MatchType::Regexp => value,
                        _ => unicode_lower(value),
                    },
                ),
            )
        }
    }
}

/// The rules after reading the line `line`.
pub open spec fn view_add_line(v: RulesView, line: Seq<char>, default: MatchType) -> RulesView {
    match line_rule(line, default) {
        None => v,
        Some((mt, value)) => view_add(v, mt, value),
    }
}

/// The rules after reading all of `lines` in order.
pub open spec fn view_add_lines(v: RulesView, lines: Seq<Seq<char>>, default: MatchType) -> RulesView
    decreases lines.len(),
{
    if lines.len() == 0 {
        v
    } else {
        view_add_line(view_add_lines(v, lines.drop_last(), default), lines.last(), default)
    }
}

/// The rules with nothing in them.
pub open spec fn empty_view() -> RulesView {
    RulesView { full: Seq::empty(), domain: Seq::empty(), regexp: Seq::empty(), keyword: Seq::empty() }
}

/// `v` with the elements of `extra` that it does not hold yet added, in order.
pub open spec fn union_seq(v: Seq<Seq<char>>, extra: Seq<Seq<char>>) -> Seq<Seq<char>>
    decreases extra.len(),
{
    if extra.len() == 0 {
        v
    } else {
        let u = union_seq(v, extra.drop_last());
        if u.contains(extra.last()) {
            u
        } else {
            u.push(extra.last())
        }
    }
}

proof fn lemma_union_contains(v: Seq<Seq<char>>, extra: Seq<Seq<char>>, x: Seq<char>)
    ensures
        union_seq(v, extra).contains(x) <==> (v.contains(x) || extra.contains(x)),
    decreases extra.len(),
{
    if extra.len() > 0 {
        lemma_union_contains(v, extra.drop_last(), x);
        if extra.drop_last().contains(x) {
            let j = choose|j: int| 0 <= j < extra.drop_last().len() && extra.drop_last()[j] == x;
            assert(extra[j] == x);
        }
        if extra.contains(x) && !extra.drop_last().contains(x) {
            let j = choose|j: int| 0 <= j < extra.len() && extra[j] == x;
            if j < extra.len() - 1 {
                assert(extra.drop_last()[j] == x);
            }
        }
        let u = union_seq(v, extra.drop_last());
        if !u.contains(extra.last()) {
            if u.push(extra.last()).contains(x) {
                let j = choose|j: int| 0 <= j < u.push(extra.last()).len() && u.push(extra.last())[j] == x;
                if j < u.len() {
                    assert(u[j] == x);
                }
            }
            if u.contains(x) {
                let j = choose|j: int| 0 <= j < u.len() && u[j] == x;
                assert(u.push(extra.last())[j] == x);
            }
            assert(u.push(extra.last())[u.len() as int] == extra.last());
        }
    }
}

/// The rules of `a` and `b` together (`DomainRules::merge`).
pub open spec fn view_merge(a: RulesView, b: RulesView) -> RulesView {
    RulesView {
        full: union_seq(a.full, b.full),
        domain: union_seq(a.domain, b.domain),
        regexp: a.regexp + b.regexp,
        keyword: a.keyword + b.keyword,
    }
}

/// Whether `s` holds no value twice.
pub open spec fn distinct(s: Seq<Seq<char>>) -> bool {
    s.no_duplicates()
}

proof fn lemma_union_distinct(v: Seq<Seq<char>>, extra: Seq<Seq<char>>)
    requires
        distinct(v),
    ensures
        distinct(union_seq(v, extra)),
    decreases extra.len(),
{
    if extra.len() > 0 {
        lemma_union_distinct(v, extra.drop_last());
        let u = union_seq(v, extra.drop_last());
        if !u.contains(extra.last()) {
            assert forall|i: int, j: int|
                0 <= i < u.push(extra.last()).len() && 0 <= j < u.push(extra.last()).len() && i
                    != j implies u.push(extra.last())[i] != u.push(extra.last())[j] by {
                if i < u.len() && j == u.len() {
                    assert(u[i] != extra.last());
                }
                if j < u.len() && i == u.len() {
                    assert(u[j] != extra.last());
                }
            }
        }
    }
}

/// Whether `v` holds `x`, compared by characters.
fn holds(v: &Vec<String>, x: &Vec<char>) -> (b: bool)
    ensures
        b == string_views(v@).contains(x@),
{
    let mut i: usize = 0;
    while i < v.len()
        invariant
            i <= v@.len(),
            forall|j: int| 0 <= j < i ==> v@[j]@ != x@,
        decreases v.len() - i,
    {
        let c = chars_of(v[i].as_str());
        if chars_eq(&c, x) {
            assert(string_views(v@)[i as int] == x@);
            return true;
        }
        i = i + 1;
    }
    proof {
        if string_views(v@).contains(x@) {
            let j = choose|j: int| 0 <= j < string_views(v@).len() && string_views(v@)[j] == x@;
            assert(v@[j]@ == x@);
        }
    }
    false
}

/// Adds `x` to `v` unless it is there already.
fn insert_once(v: &mut Vec<String>, x: Vec<char>)
    requires
        distinct(string_views(old(v)@)),
    ensures
        string_views(final(v)@) == (if string_views(old(v)@).contains(x@) {
            string_views(old(v)@)
        } else {
            string_views(old(v)@).push(x@)
        }),
        distinct(string_views(final(v)@)),
{
    if !holds(v, &x) {
        let ghost before = string_views(v@);
        let s = string_from_chars(&x);
        v.push(s);
        proof {
            assert(string_views(v@) =~= before.push(x@));
            assert forall|i: int, j: int|
                0 <= i < before.push(x@).len() && 0 <= j < before.push(x@).len() && i != j implies before.push(x@)[i] != before.push(x@)[j] by {
                if i < before.len() && j == before.len() {
                    assert(before[i] != x@);
                }
                if j < before.len() && i == before.len() {
                    assert(before[j] != x@);
                }
            }
        }
    }
}

/// The rule patterns of a vector of regexp rules.
pub open spec fn patterns(v: Seq<RegexpRule>) -> Seq<Seq<char>> {
    v.map_values(|r: RegexpRule| r.pattern_view())
}

impl DomainRules {
    /// The rules held, by kind.
    pub closed spec fn view(&self) -> RulesView {
        RulesView {
            full: string_views(self.full@),
            domain: string_views(self.domain@),
            regexp: patterns(self.regexp@),
            keyword: string_views(self.keyword@),
        }
    }

    /// Full and domain rules are each held once.
    pub closed spec fn wf(&self) -> bool {
        distinct(string_views(self.full@)) && distinct(string_views(self.domain@))
    }

    /// The number of rules held.
    pub open spec fn count(&self) -> nat {
        self.view().full.len() + self.view().domain.len() + self.view().regexp.len()
            + self.view().keyword.len()
    }

    /// An empty rule collection.
    pub fn new() -> (r: DomainRules)
        ensures
            r.wf(),
            r.view() == empty_view(),
    {
        DomainRules::with_capacity(0, 0)
    }

    /// An empty rule collection with room reserved for full and domain rules.
    pub fn with_capacity(full_cap: usize, domain_cap: usize) -> (r: DomainRules)
        ensures
            r.wf(),
            r.view() == empty_view(),
    {
        let r = DomainRules {
            full: Vec::with_capacity(full_cap),
            domain: Vec::with_capacity(domain_cap),
            regexp: Vec::new(),
            keyword: Vec::new(),
        };
        assert(r.view().full =~= Seq::<Seq<char>>::empty());
        assert(r.view().domain =~= Seq::<Seq<char>>::empty());
        assert(r.view().regexp =~= Seq::<Seq<char>>::empty());
        assert(r.view().keyword =~= Seq::<Seq<char>>::empty());
        r
    }

    /// Adds one rule. Empty values are ignored; non-regexp values are
    /// lower-cased; a pattern that `Regex::new` rejects is skipped.
    pub fn add_rule(&mut self, match_type: MatchType, value: String)
        requires
            old(self).wf(),
        ensures
            final(self).wf(),
            final(self).view() == view_add(old(self).view(), match_type, value@),
    {
        let v = chars_of(value.as_str());
        if v.len() == 0 {
            return;
        }
        match match_type {
            MatchType::Full => {
                let n = lowercase_chars(&v);
                insert_once(&mut self.full, n);
            },
            MatchType::Domain => {
                let n = lowercase_chars(&v);
                insert_once(&mut self.domain, n);
            },
            MatchType::Regexp => {
                match compile_rule(value) {
                    Some(rule) => {
                        let ghost before = patterns(self.regexp@);
                        self.regexp.push(rule);
                        assert(patterns(self.regexp@) =~= before.push(v@));
                    },
                    None => {},
                }
            },
            MatchType::Keyword => {
                let n = lowercase_chars(&v);
                let ghost before = string_views(self.keyword@);
                let s = string_from_chars(&n);
                self.keyword.push(s);
                assert(string_views(self.keyword@) =~= before.push(n@));
            },
        }
    }

    /// Reads one line of a rules file: blank lines and `#` comments are
    /// skipped, a `full:`/`domain:`/`keyword:`/`regexp:` prefix selects the
    /// match type, otherwise `default_type` applies.
    pub fn add_line(&mut self, line: &str, default_type: &MatchType)
        requires
            old(self).wf(),
        ensures
            final(self).wf(),
            final(self).view() == view_add_line(old(self).view(), line@, *default_type),
    {
        let all = chars_of(line);
        let t = trim_chars(&all);
        if t.len() == 0 || t[0] == '#' {
            return;
        }
        let p_full = chars_of("full:");
        let p_domain = chars_of("domain:");
        let p_keyword = chars_of("keyword:");
        let p_regexp = chars_of("regexp:");
        let ghost lens = ("full:"@.len(), "domain:"@.len(), "keyword:"@.len(), "regexp:"@.len());
        proof {
            reveal_strlit("full:");
            reveal_strlit("domain:");
            reveal_strlit("keyword:");
            reveal_strlit("regexp:");
        }
        let (mt, raw) = if starts_with(&t, &p_full) {
            (MatchType::Full, slice_chars(&t, 5, t.len()))
        } else if starts_with(&t, &p_domain) {
            (MatchType::Domain, slice_chars(&t, 7, t.len()))
        } else if starts_with(&t, &p_keyword) {
            (MatchType::Keyword, slice_chars(&t, 8, t.len()))
        } else if starts_with(&t, &p_regexp) {
            (MatchType::Regexp, slice_chars(&t, 7, t.len()))
        } else {
            (*default_type, t.clone())
        };
        let value = trim_chars(&raw);
        if value.len() == 0 {
            return;
        }
        let normalized = match mt {
            MatchType::Regexp => value,
            _ => lowercase_chars(&value),
        };
        let s = string_from_chars(&normalized);
        self.add_rule(mt, s);
    }

    /// Whether `domain` matches any rule. Trailing dots are ignored and the
    /// comparison is made on the lower-cased domain.
    pub fn matches(&self, domain: &str) -> (b: bool)
        ensures
            b == view_matches(self.view(), normalized_domain(domain@)),
    {
        let all = chars_of(domain);
        let mut end = all.len();
        assert(all@.take(end as int) =~= all@);
        while end > 0 && all[end - 1] == '.'
            invariant
                end <= all@.len(),
                strip_dots(all@) == strip_dots(all@.take(end as int)),
            decreases end,
        {
            proof {
                assert(all@.take(end as int).drop_last() =~= all@.take(end - 1));
            }
            end = end - 1;
        }
        proof {
            if end > 0 {
                assert(strip_dots(all@.take(end as int)) == all@.take(end as int));
            } else {
                assert(all@.take(0) =~= Seq::<char>::empty());
            }
        }
        let stripped = slice_chars(&all, 0, end);
        assert(stripped@ =~= all@.take(end as int));
        let d = lowercase_chars(&stripped);
        let ghost v = self.view();
        let ghost nd = normalized_domain(domain@);
        assert(d@ == nd);
        if holds(&self.full, &d) {
            return true;
        }
        let mut i: usize = 0;
        while i < self.domain.len()
            invariant
                i <= self.domain@.len(),
                v == self.view(),
                d@ == nd,
                nd == normalized_domain(domain@),
                forall|j: int| 0 <= j < i ==> !is_subdomain_of(d@, #[trigger] v.domain[j]),
            decreases self.domain.len() - i,
        {
            let r = chars_of(self.domain[i].as_str());
            assert(r@ == v.domain[i as int]);
            if self.subdomain_check(&d, &r) {
                return true;
            }
            i = i + 1;
        }
        let dstr = string_from_chars(&d);
        let mut k: usize = 0;
        while k < self.regexp.len()
            invariant
                k <= self.regexp@.len(),
                v == self.view(),
                dstr@ == d@,
                d@ == nd,
                nd == normalized_domain(domain@),
                forall|j: int| 0 <= j < k ==> !regex_finds(#[trigger] v.regexp[j], d@),
            decreases self.regexp.len() - k,
        {
            if rule_finds(&self.regexp[k], dstr.as_str()) {
                assert(v.regexp[k as int] == self.regexp@[k as int].pattern_view());
                return true;
            }
            assert(v.regexp[k as int] == self.regexp@[k as int].pattern_view());
            k = k + 1;
        }
        let mut m: usize = 0;
        while m < self.keyword.len()
            invariant
                m <= self.keyword@.len(),
                v == self.view(),
                d@ == nd,
                nd == normalized_domain(domain@),
                forall|j: int| 0 <= j < m ==> !contains_seq(d@, #[trigger] v.keyword[j]),
            decreases self.keyword.len() - m,
        {
            let kw = chars_of(self.keyword[m].as_str());
            assert(kw@ == v.keyword[m as int]);
            if contains_chars(&d, &kw) {
                return true;
            }
            m = m + 1;
        }
        false
    }

    fn subdomain_check(&self, d: &Vec<char>, r: &Vec<char>) -> (b: bool)
        ensures
            b == is_subdomain_of(d@, r@),
    {
        if chars_eq(d, r) {
            return true;
        }
        if r.len() < d.len() && ends_with(d, r) {
            d[d.len() - r.len() - 1] == '.'
        } else {
            false
        }
    }

    /// Total rule count.
    pub fn len(&self) -> (n: usize)
        requires
            self.count() <= usize::MAX,
        ensures
            n == self.count(),
    {
        self.full.len() + self.domain.len() + self.regexp.len() + self.keyword.len()
    }

    /// Whether no rule is held.
    pub fn is_empty(&self) -> (b: bool)
        ensures
            b == (self.count() == 0),
    {
        self.full.len() == 0 && self.domain.len() == 0 && self.regexp.len() == 0
            && self.keyword.len() == 0
    }

    /// Rule counts by kind.
    pub fn stats(&self) -> (s: DomainRulesStats)
        ensures
            s.full_count == self.view().full.len(),
            s.domain_count == self.view().domain.len(),
            s.regexp_count == self.view().regexp.len(),
            s.keyword_count == self.view().keyword.len(),
    {
        DomainRulesStats {
            full_count: self.full.len(),
            domain_count: self.domain.len(),
            regexp_count: self.regexp.len(),
            keyword_count: self.keyword.len(),
        }
    }

    /// Removes every rule.
    pub fn clear(&mut self)
        ensures
            final(self).wf(),
            final(self).view() == empty_view(),
    {
        self.full.clear();
        self.domain.clear();
        self.regexp.clear();
        self.keyword.clear();
        self.shrink_to_fit();
        assert(self.view().full =~= Seq::<Seq<char>>::empty());
        assert(self.view().domain =~= Seq::<Seq<char>>::empty());
        assert(self.view().regexp =~= Seq::<Seq<char>>::empty());
        assert(self.view().keyword =~= Seq::<Seq<char>>::empty());
    }

    /// Adds the rules of `other` (full and domain rules kept once).
    pub fn merge(&mut self, other: DomainRules)
        requires
            old(self).wf(),
        ensures
            final(self).wf(),
            final(self).view() == view_merge(old(self).view(), other.view()),
    {
        let ghost a = self.view();
        let ghost b = other.view();
        let DomainRules { full, domain, regexp, keyword } = other;
        Self::union_into(&mut self.full, full);
        Self::union_into(&mut self.domain, domain);
        let ghost rx = patterns(self.regexp@);
        let mut regexp = regexp;
        self.regexp.append(&mut regexp);
        assert(patterns(self.regexp@) =~= a.regexp + b.regexp);
        let mut keyword = keyword;
        self.keyword.append(&mut keyword);
        assert(string_views(self.keyword@) =~= a.keyword + b.keyword);
    }

    fn union_into(v: &mut Vec<String>, extra: Vec<String>)
        requires
            distinct(string_views(old(v)@)),
        ensures
            distinct(string_views(final(v)@)),
            string_views(final(v)@) == union_seq(string_views(old(v)@), string_views(extra@)),
    {
        let ghost start = string_views(v@);
        let mut i: usize = 0;
        while i < extra.len()
            invariant
                i <= extra@.len(),
                distinct(string_views(v@)),
                string_views(v@) == union_seq(start, string_views(extra@).take(i as int)),
            decreases extra.len() - i,
        {
            let x = chars_of(extra[i].as_str());
            proof {
                assert(string_views(extra@).take(i + 1).drop_last() =~= string_views(
                    extra@,
                ).take(i as int));
            }
            insert_once(v, x);
            i = i + 1;
        }
        assert(string_views(extra@).take(extra@.len() as int) =~= string_views(extra@));
    }

    /// Releases spare capacity; the rules are unchanged.
    pub fn shrink_to_fit(&mut self)
        ensures
            final(self).view() == old(self).view(),
            final(self).wf() == old(self).wf(),
    {
        shrink_vec(&mut self.full);
        shrink_vec(&mut self.domain);
        shrink_vec(&mut self.regexp);
        shrink_vec(&mut self.keyword);
    }
}

impl Default for DomainRules {
    /// An empty rule collection.
    fn default() -> (r: DomainRules)
        ensures
            r.wf(),
            r.view() == empty_view(),
    {
        DomainRules::new()
    }
}

/// `Vec::shrink_to_fit`: releases spare capacity, keeping the elements.
#[verifier::external_body]
pub fn shrink_vec<T>(v: &mut Vec<T>)
    ensures
        final(v)@ == old(v)@,
{
    v.shrink_to_fit()
}

/// Adding a rule never stops a domain from matching.
pub proof fn lemma_add_keeps_matches(v: RulesView, mt: MatchType, value: Seq<char>, d: Seq<char>)
    requires
        view_matches(v, d),
    ensures
        view_matches(view_add(v, mt, value), d),
{
    let w = view_add(v, mt, value);
    if v.full.contains(d) {
        let i = choose|i: int| 0 <= i < v.full.len() && v.full[i] == d;
        assert(w.full[i] == d);
    } else if exists|i: int| 0 <= i < v.domain.len() && is_subdomain_of(d, #[trigger] v.domain[i]) {
        let i = choose|i: int| 0 <= i < v.domain.len() && is_subdomain_of(d, #[trigger] v.domain[i]);
        assert(w.domain[i] == v.domain[i]);
    } else if exists|i: int| 0 <= i < v.regexp.len() && regex_finds(#[trigger] v.regexp[i], d) {
        let i = choose|i: int| 0 <= i < v.regexp.len() && regex_finds(#[trigger] v.regexp[i], d);
        assert(w.regexp[i] == v.regexp[i]);
    } else {
        let i = choose|i: int| 0 <= i < v.keyword.len() && contains_seq(d, #[trigger] v.keyword[i]);
        assert(w.keyword[i] == v.keyword[i]);
    }
}

/// A domain rule matches the domain itself and every subdomain of it (a
/// name ending in `.` followed by the rule), compared lower-cased.
pub proof fn lemma_domain_rule_covers_subdomains(v: RulesView, value: Seq<char>, d: Seq<char>)
    requires
        value.len() > 0,
        is_subdomain_of(d, unicode_lower(value)),
    ensures
        view_matches(view_add(v, MatchType::Domain, value), d),
{
    let n = unicode_lower(value);
    let w = view_add(v, MatchType::Domain, value);
    if v.domain.contains(n) {
        let i = choose|i: int| 0 <= i < v.domain.len() && v.domain[i] == n;
        assert(is_subdomain_of(d, w.domain[i]));
    } else {
        assert(w.domain[v.domain.len() as int] == n);
    }
}

/// A full rule matches exactly its lower-cased value.
pub proof fn lemma_full_rule_matches(v: RulesView, value: Seq<char>)
    requires
        value.len() > 0,
    ensures
        view_matches(view_add(v, MatchType::Full, value), unicode_lower(value)),
{
    let n = unicode_lower(value);
    let w = view_add(v, MatchType::Full, value);
    if !v.full.contains(n) {
        assert(w.full[v.full.len() as int] == n);
    }
}

/// A domain matches merged rules exactly when it matches either part.
pub proof fn lemma_merge_matches(a: RulesView, b: RulesView, d: Seq<char>)
    ensures
        view_matches(view_merge(a, b), d) <==> (view_matches(a, d) || view_matches(b, d)),
{
    let m = view_merge(a, b);
    lemma_union_contains(a.full, b.full, d);
    assert forall|x: Seq<char>| m.domain.contains(x) <==> (a.domain.contains(x) || b.domain.contains(x)) by {
        lemma_union_contains(a.domain, b.domain, x);
    }
    if exists|i: int| 0 <= i < m.domain.len() && is_subdomain_of(d, #[trigger] m.domain[i]) {
        let i = choose|i: int| 0 <= i < m.domain.len() && is_subdomain_of(d, #[trigger] m.domain[i]);
        assert(m.domain.contains(m.domain[i]));
        if a.domain.contains(m.domain[i]) {
            let j = choose|j: int| 0 <= j < a.domain.len() && a.domain[j] == m.domain[i];
            assert(is_subdomain_of(d, a.domain[j]));
        } else {
            let j = choose|j: int| 0 <= j < b.domain.len() && b.domain[j] == m.domain[i];
            assert(is_subdomain_of(d, b.domain[j]));
        }
    }
    if exists|i: int| 0 <= i < a.domain.len() && is_subdomain_of(d, #[trigger] a.domain[i]) {
        let i = choose|i: int| 0 <= i < a.domain.len() && is_subdomain_of(d, #[trigger] a.domain[i]);
        assert(a.domain.contains(a.domain[i]));
        let j = choose|j: int| 0 <= j < m.domain.len() && m.domain[j] == a.domain[i];
        assert(is_subdomain_of(d, m.domain[j]));
    }
    if exists|i: int| 0 <= i < b.domain.len() && is_subdomain_of(d, #[trigger] b.domain[i]) {
        let i = choose|i: int| 0 <= i < b.domain.len() && is_subdomain_of(d, #[trigger] b.domain[i]);
        assert(b.domain.contains(b.domain[i]));
        let j = choose|j: int| 0 <= j < m.domain.len() && m.domain[j] == b.domain[i];
        assert(is_subdomain_of(d, m.domain[j]));
    }
    if exists|i: int| 0 <= i < m.regexp.len() && regex_finds(#[trigger] m.regexp[i], d) {
        let i = choose|i: int| 0 <= i < m.regexp.len() && regex_finds(#[trigger] m.regexp[i], d);
        if i < a.regexp.len() {
            assert(regex_finds(a.regexp[i], d));
        } else {
            assert(regex_finds(b.regexp[i - a.regexp.len()], d));
        }
    }
    if exists|i: int| 0 <= i < a.regexp.len() && regex_finds(#[trigger] a.regexp[i], d) {
        let i = choose|i: int| 0 <= i < a.regexp.len() && regex_finds(#[trigger] a.regexp[i], d);
        assert(regex_finds(m.regexp[i], d));
    }
    if exists|i: int| 0 <= i < b.regexp.len() && regex_finds(#[trigger] b.regexp[i], d) {
        let i = choose|i: int| 0 <= i < b.regexp.len() && regex_finds(#[trigger] b.regexp[i], d);
        assert(regex_finds(m.regexp[i + a.regexp.len()], d));
    }
    if exists|i: int| 0 <= i < m.keyword.len() && contains_seq(d, #[trigger] m.keyword[i]) {
        let i = choose|i: int| 0 <= i < m.keyword.len() && contains_seq(d, #[trigger] m.keyword[i]);
        if i < a.keyword.len() {
            assert(contains_seq(d, a.keyword[i]));
        } else {
            assert(contains_seq(d, b.keyword[i - a.keyword.len()]));
        }
    }
    if exists|i: int| 0 <= i < a.keyword.len() && contains_seq(d, #[trigger] a.keyword[i]) {
        let i = choose|i: int| 0 <= i < a.keyword.len() && contains_seq(d, #[trigger] a.keyword[i]);
        assert(contains_seq(d, m.keyword[i]));
    }
    if exists|i: int| 0 <= i < b.keyword.len() && contains_seq(d, #[trigger] b.keyword[i]) {
        let i = choose|i: int| 0 <= i < b.keyword.len() && contains_seq(d, #[trigger] b.keyword[i]);
        assert(contains_seq(d, m.keyword[i + a.keyword.len()]));
    }
}

/// The match type a configuration word names, compared after Unicode
/// lower-casing; an unknown word means `Domain`.
pub open spec fn match_type_word(s: Seq<char>) -> MatchType {
    let l = unicode_lower(s);
    if l == "full"@ {
        MatchType::Full
    } else if l == "domain"@ {
        MatchType::Domain
    } else if l == "keyword"@ {
        MatchType::Keyword
    } else if l == "regexp"@ || l == "regex"@ {
        MatchType::Regexp
    } else {
        MatchType::Domain
    }
}

/// The default match type the arguments configure: `default_match_type`,
/// else `match_type`, when it is a string; `Domain` otherwise.
pub open spec fn match_type_setting(args: Seq<(String, ConfigValue)>) -> MatchType {
    let v = match arg_get(args, "default_match_type"@) {
        Some(v) => Some(v),
        None => arg_get(args, "match_type"@),
    };
    match v {
        Some(ConfigValue::Str(s)) => match_type_word(s@),
        _ => MatchType::Domain,
    }
}

/// The strings a list-or-string argument gives: the strings of a list, or
/// the one string; nothing otherwise.
pub open spec fn string_list_setting(v: Option<ConfigValue>) -> Seq<Seq<char>> {
    match v {
        Some(ConfigValue::List(items)) => string_items(items@),
        Some(ConfigValue::Str(s)) => seq![s@],
        _ => Seq::empty(),
    }
}

/// The rules read from the lines of one file.
pub open spec fn file_rules(lines: Seq<Seq<char>>, default: MatchType) -> RulesView {
    view_add_lines(empty_view(), lines, default)
}

/// The rules of the files that could be read (`None` for one that could
/// not), merged in order.
pub open spec fn merged_files(files: Seq<Option<Seq<Seq<char>>>>, default: MatchType) -> RulesView
    decreases files.len(),
{
    if files.len() == 0 {
        empty_view()
    } else {
        let v = merged_files(files.drop_last(), default);
        match files.last() {
            Some(lines) => view_merge(v, file_rules(lines, default)),
            None => v,
        }
    }
}

/// The line views of what was read from each file.
pub open spec fn loaded_views(l: Seq<Option<Vec<String>>>) -> Seq<Option<Seq<Seq<char>>>> {
    l.map_values(
        |o: Option<Vec<String>>|
            match o {
                Some(v) => Some(views_of_strings(v@)),
                None => None,
            },
    )
}

/// The rules a domain set holds after loading: those of its files merged in
/// order, then its inline expressions read as lines.
pub open spec fn domain_set_rules(
    files: Seq<Option<Seq<Seq<char>>>>,
    exps: Seq<Seq<char>>,
    default: MatchType,
) -> RulesView {
    view_add_lines(merged_files(files, default), exps, default)
}

/// Reads the lines of one rules file.
pub fn rules_from_lines(lines: &Vec<String>, default: &MatchType) -> (r: DomainRules)
    ensures
        r.wf(),
        r.view() == file_rules(views_of_strings(lines@), *default),
{
    let mut r = DomainRules::new();
    let ghost lv = views_of_strings(lines@);
    let mut i: usize = 0;
    assert(lv.take(0) =~= Seq::<Seq<char>>::empty());
    while i < lines.len()
        invariant
            i <= lines@.len(),
            lv == views_of_strings(lines@),
            r.wf(),
            r.view() == view_add_lines(empty_view(), lv.take(i as int), *default),
        decreases lines.len() - i,
    {
        proof {
            assert(lv.take(i + 1).drop_last() =~= lv.take(i as int));
            assert(lv.take(i + 1).last() == lines@[i as int]@);
        }
        r.add_line(lines[i].as_str(), default);
        i = i + 1;
    }
    assert(lv.take(lines@.len() as int) =~= lv);
    r
}

/// A named set of domain rules loaded from files and inline expressions.
pub struct DomainSetPlugin {
    /// The set's name (its tag, or the plugin's name).
    pub name: String,
    /// Files the rules are read from.
    pub files: Vec<String>,
    /// Inline rule expressions, read after the files.
    pub exps: Vec<String>,
    /// Reload the files when they change.
    pub auto_reload: bool,
    /// Match type of lines without a type prefix.
    pub default_match_type: MatchType,
    /// The plugin's tag from its configuration.
    pub tag: Option<String>,
    /// The rules held.
    pub rules: DomainRules,
}

impl DomainSetPlugin {
    /// The rules currently held.
    pub closed spec fn rules_view(&self) -> RulesView {
        self.rules.view()
    }

    /// The held rules keep full and domain rules once each.
    pub closed spec fn wf(&self) -> bool {
        self.rules.wf()
    }

    /// An empty set named `name`: no files or expressions, no reloading,
    /// default match type `Domain`.
    pub fn new(name: String) -> (p: DomainSetPlugin)
        ensures
            p.wf(),
            p.name == name,
            p.files@.len() == 0,
            p.exps@.len() == 0,
            !p.auto_reload,
            p.default_match_type == MatchType::Domain,
            p.tag is None,
            p.rules_view() == empty_view(),
    {
        DomainSetPlugin {
            name,
            files: Vec::new(),
            exps: Vec::new(),
            auto_reload: false,
            default_match_type: MatchType::Domain,
            tag: None,
            rules: DomainRules::new(),
        }
    }

    /// Sets the files to read.
    pub fn with_files(self, files: Vec<String>) -> (p: DomainSetPlugin)
        ensures
            p.files == files,
            p.name == self.name,
            p.exps == self.exps,
            p.auto_reload == self.auto_reload,
            p.default_match_type == self.default_match_type,
            p.tag == self.tag,
            p.rules_view() == self.rules_view(),
            p.wf() == self.wf(),
    {
        DomainSetPlugin { files, ..self }
    }

    /// Sets reloading.
    pub fn with_auto_reload(self, enabled: bool) -> (p: DomainSetPlugin)
        ensures
            p.auto_reload == enabled,
            p.name == self.name,
            p.files == self.files,
            p.exps == self.exps,
            p.default_match_type == self.default_match_type,
            p.tag == self.tag,
            p.rules_view() == self.rules_view(),
            p.wf() == self.wf(),
    {
        DomainSetPlugin { auto_reload: enabled, ..self }
    }

    /// Sets the inline expressions.
    pub fn with_exps(self, exps: Vec<String>) -> (p: DomainSetPlugin)
        ensures
            p.exps == exps,
            p.name == self.name,
            p.files == self.files,
            p.auto_reload == self.auto_reload,
            p.default_match_type == self.default_match_type,
            p.tag == self.tag,
            p.rules_view() == self.rules_view(),
            p.wf() == self.wf(),
    {
        DomainSetPlugin { exps, ..self }
    }

    /// Sets the match type of lines without a type prefix.
    pub fn with_default_match_type(self, match_type: MatchType) -> (p: DomainSetPlugin)
        ensures
            p.default_match_type == match_type,
            p.name == self.name,
            p.files == self.files,
            p.exps == self.exps,
            p.auto_reload == self.auto_reload,
            p.tag == self.tag,
            p.rules_view() == self.rules_view(),
            p.wf() == self.wf(),
    {
        DomainSetPlugin { default_match_type: match_type, ..self }
    }

    /// Whether the files are to be watched: reloading is on and there is a
    /// file.
    pub fn wants_watcher(&self) -> (b: bool)
        ensures
            b == (self.auto_reload && self.files@.len() > 0),
    {
        self.auto_reload && self.files.len() > 0
    }

    /// Replaces the rules with those loaded from the files' lines (one entry
    /// per file, in order; `None` for a file that could not be read, which
    /// is skipped) and then the inline expressions.
    pub fn load_domains(&mut self, loaded: Vec<Option<Vec<String>>>) -> (r: Result<(), PluginError>)
        requires
            old(self).wf(),
            loaded@.len() == old(self).files@.len(),
        ensures
            r is Ok,
            final(self).wf(),
            final(self).rules_view() == domain_set_rules(
                loaded_views(loaded@),
                views_of_strings(old(self).exps@),
                old(self).default_match_type,
            ),
            final(self).name == old(self).name,
            final(self).files == old(self).files,
            final(self).exps == old(self).exps,
            final(self).auto_reload == old(self).auto_reload,
            final(self).default_match_type == old(self).default_match_type,
            final(self).tag == old(self).tag,
    {
        let ghost fv = loaded_views(loaded@);
        let mut new_rules = DomainRules::new();
        let mut i: usize = 0;
        assert(fv.take(0) =~= Seq::<Option<Seq<Seq<char>>>>::empty());
        while i < loaded.len()
            invariant
                i <= loaded@.len(),
                fv == loaded_views(loaded@),
                new_rules.wf(),
                new_rules.view() == merged_files(fv.take(i as int), self.default_match_type),
            decreases loaded.len() - i,
        {
            proof {
                assert(fv.take(i + 1).drop_last() =~= fv.take(i as int));
                assert(fv.take(i + 1).last() == fv[i as int]);
            }
            match &loaded[i] {
                Some(lines) => {
                    let fr = rules_from_lines(lines, &self.default_match_type);
                    new_rules.merge(fr);
                },
                None => {},
            }
            i = i + 1;
        }
        assert(fv.take(loaded@.len() as int) =~= fv);
        let ghost ev = views_of_strings(self.exps@);
        let ghost base = new_rules.view();
        let mut j: usize = 0;
        assert(ev.take(0) =~= Seq::<Seq<char>>::empty());
        while j < self.exps.len()
            invariant
                j <= self.exps@.len(),
                ev == views_of_strings(self.exps@),
                new_rules.wf(),
                new_rules.view() == view_add_lines(base, ev.take(j as int), self.default_match_type),
            decreases self.exps.len() - j,
        {
            proof {
                assert(ev.take(j + 1).drop_last() =~= ev.take(j as int));
                assert(ev.take(j + 1).last() == self.exps@[j as int]@);
            }
            new_rules.add_line(self.exps[j].as_str(), &self.default_match_type);
            j = j + 1;
        }
        assert(ev.take(self.exps@.len() as int) =~= ev);
        new_rules.shrink_to_fit();
        self.rules = new_rules;
        Ok(())
    }

    /// Whether `domain` matches the set's rules (see [`DomainRules::matches`]).
    pub fn matches(&self, domain: &str) -> (b: bool)
        ensures
            b == view_matches(self.rules_view(), normalized_domain(domain@)),
    {
        self.rules.matches(domain)
    }

    /// Whether the name of the request's first question matches the set;
    /// false for a request without questions.
    pub fn matches_context(&self, ctx: &Context) -> (b: bool)
        ensures
            b == (ctx.request.questions@.len() > 0 && view_matches(
                self.rules_view(),
                normalized_domain(ctx.request.questions@[0].qname@),
            )),
    {
        if ctx.request.questions.len() == 0 {
            return false;
        }
        self.rules.matches(ctx.request.questions[0].qname.as_str())
    }

    /// The rules held.
    pub fn get_rules(&self) -> (r: &DomainRules)
        ensures
            r.view() == self.rules_view(),
            r.wf() == self.wf(),
    {
        &self.rules
    }

    /// Rule counts by kind.
    pub fn stats(&self) -> (s: DomainRulesStats)
        ensures
            s.full_count == self.rules_view().full.len(),
            s.domain_count == self.rules_view().domain.len(),
            s.regexp_count == self.rules_view().regexp.len(),
            s.keyword_count == self.rules_view().keyword.len(),
    {
        self.rules.stats()
    }

    /// Drops every rule (the set is being shut down).
    pub fn shutdown(&mut self)
        ensures
            final(self).wf(),
            final(self).rules_view() == empty_view(),
            final(self).name == old(self).name,
            final(self).files == old(self).files,
            final(self).exps == old(self).exps,
            final(self).auto_reload == old(self).auto_reload,
            final(self).default_match_type == old(self).default_match_type,
            final(self).tag == old(self).tag,
    {
        self.rules.clear();
    }

    /// The plugin's registered name.
    pub fn name(&self) -> (s: &'static str)
        ensures
            s@ == "domain_set"@,
    {
        "domain_set"
    }

    /// Sets the plugin up from its arguments: the name is the `tag` argument
    /// when it is a non-empty string, else `effective_name`; the default
    /// match type, `files` and `exps` (each a list whose strings are kept,
    /// or one string) and `auto_reload`. The rules are loaded afterwards
    /// with [`DomainSetPlugin::load_domains`].
    pub fn init(args: &Vec<(String, ConfigValue)>, effective_name: &str, tag: Option<String>) -> (p: DomainSetPlugin)
        ensures
            p.wf(),
            p.rules_view() == empty_view(),
            p.name@ == match arg_get(args@, "tag"@) {
                Some(ConfigValue::Str(t)) => if t@.len() > 0 {
                    t@
                } else {
                    effective_name@
                },
                _ => effective_name@,
            },
            p.tag == tag,
            p.default_match_type == match_type_setting(args@),
            views_of_strings(p.files@) == string_list_setting(arg_get(args@, "files"@)),
            views_of_strings(p.exps@) == string_list_setting(arg_get(args@, "exps"@)),
            p.auto_reload == match arg_get(args@, "auto_reload"@) {
                Some(ConfigValue::Bool(b)) => b,
                _ => false,
            },
    {
        let name = match get_arg(args, "tag") {
            Some(ConfigValue::Str(t)) => if chars_of(t.as_str()).len() > 0 {
                t.clone()
            } else {
                owned(effective_name)
            },
            _ => owned(effective_name),
        };
        let mut plugin = DomainSetPlugin::new(name);
        plugin.tag = tag;
        let mt_value = match get_arg(args, "default_match_type") {
            Some(v) => Some(v),
            None => get_arg(args, "match_type"),
        };
        match mt_value {
            Some(ConfigValue::Str(s)) => {
                plugin.default_match_type = match_type_from(s);
            },
            _ => {},
        }
        plugin = plugin.with_files(string_list(get_arg(args, "files")));
        match get_arg(args, "auto_reload") {
            Some(ConfigValue::Bool(b)) => {
                plugin = plugin.with_auto_reload(*b);
            },
            _ => {},
        }
        plugin = plugin.with_exps(string_list(get_arg(args, "exps")));
        plugin
    }
}

fn match_type_from(s: &String) -> (m: MatchType)
    ensures
        m == match_type_word(s@),
{
    let l = to_lowercase(s.as_str());
    if str_is(&l, "full") {
        MatchType::Full
    } else if str_is(&l, "domain") {
        MatchType::Domain
    } else if str_is(&l, "keyword") {
        MatchType::Keyword
    } else if str_is(&l, "regexp") || str_is(&l, "regex") {
        MatchType::Regexp
    } else {
        MatchType::Domain
    }
}

} // verus!
