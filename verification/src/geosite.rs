//! Geographic domain categories: each category holds exact domains and
//! suffix patterns, and a domain is looked up to the first category that
//! matches it.

use vstd::prelude::*;
use crate::text::{
    chars_eq, chars_of, ends_with, has_prefix, has_suffix, lines, lines_of, lowercase_chars,
    slice_chars, split_whitespace, split_ws, starts_with, string_from_chars, trim, trim_chars,
    unicode_lower, views,
};
use crate::domain_rules::{distinct, string_views};
use crate::config::{arg_get, get_arg, ConfigValue};
use crate::dns::{Context, Message, TYPE_A, TYPE_AAAA};
use crate::error::{ErrView, PluginError};
use crate::geoip::{geo_data, geo_files, text_views};
use crate::hosts::{strings_of, views_of_strings};

verus! {

/// Abstract contents of one category.
pub struct CategoryView {
    pub exact: Seq<Seq<char>>,
    pub suffixes: Seq<Seq<char>>,
}

/// The exact domains and suffix patterns of one category.
#[derive(Debug)]
pub struct DomainSet {
    exact: Vec<String>,
    suffixes: Vec<String>,
}

/// `s` without one leading dot (`strip_prefix('.')`).
pub open spec fn strip_dot(s: Seq<char>) -> Seq<char> {
    if s.len() > 0 && s[0] == '.' {
        s.drop_first()
    } else {
        s
    }
}

/// `v` with `x` added unless present.
pub open spec fn add_once(v: Seq<Seq<char>>, x: Seq<char>) -> Seq<Seq<char>> {
    if v.contains(x) {
        v
    } else {
        v.push(x)
    }
}

/// Whether a (lower-cased) domain matches the category.
pub open spec fn category_matches(c: CategoryView, d: Seq<char>) -> bool {
    ||| c.exact.contains(d)
    ||| exists|i: int|
        0 <= i < c.suffixes.len() && (d == #[trigger] c.suffixes[i] || has_suffix(
            d,
            seq!['.'] + c.suffixes[i],
        ))
}

/// The empty category.
pub open spec fn empty_category() -> CategoryView {
    CategoryView { exact: Seq::empty(), suffixes: Seq::empty() }
}

/// The category after adding `domain`: `*.x` and `.x` add the suffix `x`,
/// anything else is an exact domain; both lower-cased.
pub open spec fn category_add(c: CategoryView, domain: Seq<char>) -> CategoryView {
    if has_prefix(domain, "*."@) {
        CategoryView { suffixes: add_once(c.suffixes, strip_dot(unicode_lower(domain.skip(2)))), ..c }
    } else if has_prefix(domain, "."@) {
        CategoryView { suffixes: add_once(c.suffixes, strip_dot(unicode_lower(domain.skip(1)))), ..c }
    } else {
        CategoryView { exact: add_once(c.exact, unicode_lower(domain)), ..c }
    }
}

/// Adds `x` to `v` unless it is there already.
fn push_once(v: &mut Vec<String>, x: Vec<char>)
    requires
        distinct(string_views(old(v)@)),
    ensures
        string_views(final(v)@) == add_once(string_views(old(v)@), x@),
        distinct(string_views(final(v)@)),
{
    let mut i: usize = 0;
    while i < v.len()
        invariant
            i <= v@.len(),
            distinct(string_views(v@)),
            forall|j: int| 0 <= j < i ==> v@[j]@ != x@,
        decreases v.len() - i,
    {
        let c = chars_of(v[i].as_str());
        if chars_eq(&c, &x) {
            assert(string_views(v@)[i as int] == x@);
            assert(string_views(v@).contains(x@));
            assert(string_views(v@) == add_once(string_views(v@), x@));
            return;
        }
        i = i + 1;
    }
    let ghost before = string_views(v@);
    assert(!before.contains(x@)) by {
        if before.contains(x@) {
            let j = choose|j: int| 0 <= j < before.len() && before[j] == x@;
            assert(v@[j]@ == x@);
        }
    }
    let s = string_from_chars(&x);
    v.push(s);
    proof {
        assert(string_views(v@) =~= before.push(x@));
        assert forall|a: int, b: int|
            0 <= a < before.push(x@).len() && 0 <= b < before.push(x@).len() && a != b implies before.push(x@)[a] != before.push(x@)[b] by {
            if a < before.len() && b == before.len() {
                assert(before[a] != x@);
            }
            if b < before.len() && a == before.len() {
                assert(before[b] != x@);
            }
        }
    }
}

impl DomainSet {
    pub closed spec fn view(&self) -> CategoryView {
        CategoryView { exact: string_views(self.exact@), suffixes: string_views(self.suffixes@) }
    }

    pub closed spec fn wf(&self) -> bool {
        distinct(string_views(self.exact@)) && distinct(string_views(self.suffixes@))
    }

    /// An empty category.
    pub fn new() -> (r: DomainSet)
        ensures
            r.wf(),
            r.view() == empty_category(),
    {
        let r = DomainSet { exact: Vec::new(), suffixes: Vec::new() };
        assert(r.view().exact =~= Seq::<Seq<char>>::empty());
        assert(r.view().suffixes =~= Seq::<Seq<char>>::empty());
        r
    }

    /// Adds an exact domain (lower-cased).
    pub fn add_exact(&mut self, domain: &Vec<char>)
        requires
            old(self).wf(),
        ensures
            final(self).wf(),
            final(self).view() == (CategoryView {
                exact: add_once(old(self).view().exact, unicode_lower(domain@)),
                ..old(self).view()
            }),
    {
        let l = lowercase_chars(domain);
        push_once(&mut self.exact, l);
    }

    /// Adds a suffix pattern (lower-cased, one leading dot dropped).
    pub fn add_suffix(&mut self, suffix: &Vec<char>)
        requires
            old(self).wf(),
        ensures
            final(self).wf(),
            final(self).view() == (CategoryView {
                suffixes: add_once(old(self).view().suffixes, strip_dot(unicode_lower(suffix@))),
                ..old(self).view()
            }),
    {
        let l = lowercase_chars(suffix);
        let s = if l.len() > 0 && l[0] == '.' {
            let r = slice_chars(&l, 1, l.len());
            assert(r@ =~= l@.drop_first());
            r
        } else {
            l
        };
        push_once(&mut self.suffixes, s);
    }

    /// Whether the category matches `domain` (compared lower-cased): an exact
    /// domain, a suffix itself, or a subdomain of a suffix.
    pub fn matches(&self, domain: &Vec<char>) -> (b: bool)
        ensures
            b == category_matches(self.view(), unicode_lower(domain@)),
    {
        let d = lowercase_chars(domain);
        let ghost v = self.view();
        let mut i: usize = 0;
        while i < self.exact.len()
            invariant
                i <= self.exact@.len(),
                v == self.view(),
                d@ == unicode_lower(domain@),
                forall|j: int| 0 <= j < i ==> v.exact[j] != d@,
            decreases self.exact.len() - i,
        {
            let e = chars_of(self.exact[i].as_str());
            if chars_eq(&e, &d) {
                assert(v.exact[i as int] == d@);
                return true;
            }
            i = i + 1;
        }
        assert(!v.exact.contains(d@));
        let mut k: usize = 0;
        while k < self.suffixes.len()
            invariant
                k <= self.suffixes@.len(),
                v == self.view(),
                d@ == unicode_lower(domain@),
                !v.exact.contains(d@),
                forall|j: int|
                    0 <= j < k ==> !(d@ == #[trigger] v.suffixes[j] || has_suffix(
                        d@,
                        seq!['.'] + v.suffixes[j],
                    )),
            decreases self.suffixes.len() - k,
        {
            let sfx = chars_of(self.suffixes[k].as_str());
            assert(sfx@ == v.suffixes[k as int]);
            if chars_eq(&d, &sfx) {
                return true;
            }
            let mut dotted: Vec<char> = Vec::new();
            dotted.push('.');
            let dotted = crate::text::concat_chars(&dotted, &sfx);
            assert(dotted@ =~= seq!['.'] + sfx@);
            if ends_with(&d, &dotted) {
                return true;
            }
            k = k + 1;
        }
        false
    }

    /// The number of domains and suffixes held.
    pub fn len(&self) -> (n: usize)
        requires
            self.view().exact.len() + self.view().suffixes.len() <= usize::MAX,
        ensures
            n == self.view().exact.len() + self.view().suffixes.len(),
    {
        self.exact.len() + self.suffixes.len()
    }
}

/// Abstract contents of the plugin: categories in the order they were created.
pub struct GeoSiteView {
    pub metadata_key: Seq<char>,
    pub names: Seq<Seq<char>>,
    pub cats: Seq<CategoryView>,
}

/// The index of the category named `name`, if any.
pub open spec fn category_index(names: Seq<Seq<char>>, name: Seq<char>) -> Option<int>
    decreases names.len(),
{
    if names.len() == 0 {
        None
    } else {
        match category_index(names.drop_last(), name) {
            Some(i) => Some(i),
            None => if names.last() == name {
                Some(names.len() - 1)
            } else {
                None
            },
        }
    }
}

proof fn lemma_category_index(names: Seq<Seq<char>>, name: Seq<char>)
    ensures
        match category_index(names, name) {
            Some(i) => 0 <= i < names.len() && names[i] == name && forall|j: int|
                0 <= j < i ==> names[j] != name,
            None => forall|j: int| 0 <= j < names.len() ==> names[j] != name,
        },
    decreases names.len(),
{
    if names.len() > 0 {
        let p = names.drop_last();
        lemma_category_index(p, name);
        match category_index(p, name) {
            Some(i) => {
                assert(names[i] == p[i]);
                assert forall|j: int| 0 <= j < i implies names[j] != name by {
                    assert(names[j] == p[j]);
                }
            },
            None => {
                assert forall|j: int| 0 <= j < names.len() - 1 implies names[j] != name by {
                    assert(names[j] == p[j]);
                }
            },
        }
    }
}

/// The plugin after `add_domain(category, domain)`.
pub open spec fn geo_add(g: GeoSiteView, category: Seq<char>, domain: Seq<char>) -> GeoSiteView {
    let c = unicode_lower(category);
    match category_index(g.names, c) {
        Some(i) => GeoSiteView { cats: g.cats.update(i, category_add(g.cats[i], domain)), ..g },
        None => GeoSiteView {
            names: g.names.push(c),
            cats: g.cats.push(category_add(empty_category(), domain)),
            ..g
        },
    }
}

/// The plugin after reading one line of a GeoSite file: `<category> <domain>`;
/// blank lines, `#` comments and lines with fewer than two words are skipped.
pub open spec fn geo_add_line(g: GeoSiteView, line: Seq<char>) -> GeoSiteView {
    let t = trim(line);
    if t.len() == 0 || t[0] == '#' {
        g
    } else {
        let parts = split_ws(t);
        if parts.len() < 2 {
            g
        } else {
            geo_add(g, parts[0], parts[1])
        }
    }
}

/// The plugin after reading `ls` in order.
pub open spec fn geo_add_lines(g: GeoSiteView, ls: Seq<Seq<char>>) -> GeoSiteView
    decreases ls.len(),
{
    if ls.len() == 0 {
        g
    } else {
        geo_add_line(geo_add_lines(g, ls.drop_last()), ls.last())
    }
}

/// The first category (in creation order) that matches `d`.
pub open spec fn first_match(cats: Seq<CategoryView>, d: Seq<char>) -> Option<int>
    decreases cats.len(),
{
    if cats.len() == 0 {
        None
    } else {
        match first_match(cats.drop_last(), d) {
            Some(i) => Some(i),
            None => if category_matches(cats.last(), d) {
                Some(cats.len() - 1)
            } else {
                None
            },
        }
    }
}

/// The sum of the sizes of the categories.
pub open spec fn total_domains(cats: Seq<CategoryView>) -> nat
    decreases cats.len(),
{
    if cats.len() == 0 {
        0
    } else {
        total_domains(cats.drop_last()) + cats.last().exact.len() + cats.last().suffixes.len()
    }
}

/// The category that `execute` stores for `req`: that of the first
/// question's name, for an A or AAAA question whose name a category matches.
pub open spec fn site_category(g: GeoSiteView, req: Message) -> Option<Seq<char>> {
    if req.questions@.len() == 0 {
        None
    } else {
        let q = req.questions@[0];
        if q.qtype != TYPE_A && q.qtype != TYPE_AAAA {
            None
        } else {
            match first_match(g.cats, unicode_lower(q.qname@)) {
                Some(i) => Some(g.names[i]),
                None => None,
            }
        }
    }
}

/// The metadata key the configuration gives: the `metadata_key` string,
/// else `category`.
pub open spec fn site_key(args: Seq<(String, ConfigValue)>) -> Seq<char> {
    match arg_get(args, "metadata_key"@) {
        Some(ConfigValue::Str(s)) => s@,
        _ => "category"@,
    }
}

/// The plugin after loading the files in order (each given with its text or
/// the error reading it); the first unreadable file is the error.
pub open spec fn site_load_files(
    g: GeoSiteView,
    paths: Seq<Seq<char>>,
    texts: Seq<Result<Seq<char>, Seq<char>>>,
) -> Result<GeoSiteView, ErrView>
    decreases texts.len(),
{
    if texts.len() == 0 {
        Ok(g)
    } else {
        match site_load_files(g, paths.drop_last(), texts.drop_last()) {
            Err(e) => Err(e),
            Ok(g1) => match texts.last() {
                Err(msg) => Err(ErrView::Config("Failed to read GeoSite file '"@ + paths.last() + "': "@ + msg)),
                Ok(t) => Ok(geo_add_lines(g1, lines_of(t))),
            },
        }
    }
}

/// The plugin after loading the inline texts in order.
pub open spec fn site_load_data(g: GeoSiteView, data: Seq<Seq<char>>) -> GeoSiteView
    decreases data.len(),
{
    if data.len() == 0 {
        g
    } else {
        geo_add_lines(site_load_data(g, data.drop_last()), lines_of(data.last()))
    }
}

/// The plugin the configuration gives: no categories under the metadata
/// key, then the files of `files`, then the inline texts of `data`.
pub open spec fn site_settings(args: Seq<(String, ConfigValue)>, texts: Seq<Result<Seq<char>, Seq<char>>>) -> Result<GeoSiteView, ErrView> {
    let start = GeoSiteView { metadata_key: site_key(args), names: Seq::empty(), cats: Seq::empty() };
    match site_load_files(start, geo_files(args), texts) {
        Err(e) => Err(e),
        Ok(g) => Ok(site_load_data(g, geo_data(args))),
    }
}

proof fn lemma_site_files_err_sticks(
    g: GeoSiteView,
    paths: Seq<Seq<char>>,
    texts: Seq<Result<Seq<char>, Seq<char>>>,
    k: int,
)
    requires
        0 <= k <= texts.len(),
        paths.len() == texts.len(),
        site_load_files(g, paths.take(k), texts.take(k)) is Err,
    ensures
        site_load_files(g, paths, texts) == site_load_files(g, paths.take(k), texts.take(k)),
    decreases texts.len() - k,
{
    if k < texts.len() {
        assert(paths.take(k + 1).drop_last() =~= paths.take(k));
        assert(texts.take(k + 1).drop_last() =~= texts.take(k));
        lemma_site_files_err_sticks(g, paths, texts, k + 1);
    } else {
        assert(paths.take(k) =~= paths);
        assert(texts.take(k) =~= texts);
    }
}

/// GeoSite plugin for geographic domain matching.
#[derive(Debug)]
pub struct GeoSitePlugin {
    metadata_key: String,
    names: Vec<String>,
    categories: Vec<DomainSet>,
}

impl GeoSitePlugin {
    pub closed spec fn view(&self) -> GeoSiteView {
        GeoSiteView {
            metadata_key: self.metadata_key@,
            names: string_views(self.names@),
            cats: self.categories@.map_values(|d: DomainSet| d.view()),
        }
    }

    pub closed spec fn wf(&self) -> bool {
        &&& self.names@.len() == self.categories@.len()
        &&& forall|i: int| 0 <= i < self.categories@.len() ==> (#[trigger] self.categories@[i]).wf()
    }

    /// A plugin with no categories that stores the category under `metadata_key`.
    pub fn new(metadata_key: &str) -> (g: GeoSitePlugin)
        ensures
            g.wf(),
            g.view().metadata_key == metadata_key@,
            g.view().names.len() == 0,
            g.view().cats.len() == 0,
    {
        GeoSitePlugin { metadata_key: crate::text::owned(metadata_key), names: Vec::new(), categories: Vec::new() }
    }

    /// The metadata key the category is stored under.
    pub fn metadata_key(&self) -> (k: &String)
        ensures
            k@ == self.view().metadata_key,
    {
        &self.metadata_key
    }

    /// Adds a domain to a category (created on first use; names lower-cased).
    /// `*.x` and `.x` add the suffix `x`; anything else is an exact domain.
    pub fn add_domain(&mut self, category: &str, domain: &str)
        requires
            old(self).wf(),
        ensures
            final(self).wf(),
            final(self).view() == geo_add(old(self).view(), category@, domain@),
    {
        let c = chars_of(category);
        let d = chars_of(domain);
        self.add_domain_chars(&c, &d);
    }

    fn add_domain_chars(&mut self, category: &Vec<char>, domain: &Vec<char>)
        requires
            old(self).wf(),
        ensures
            final(self).wf(),
            final(self).view() == geo_add(old(self).view(), category@, domain@),
    {
        let cat = lowercase_chars(category);
        let ghost g = self.view();
        proof {
            lemma_category_index(g.names, cat@);
        }
        let mut i: usize = 0;
        let mut found = false;
        while i < self.names.len() && !found
            invariant
                i <= self.names@.len(),
                g == self.view(),
                self.wf(),
                found ==> i < self.names@.len() && g.names[i as int] == cat@,
                forall|j: int| 0 <= j < i ==> g.names[j] != cat@,
            decreases self.names.len() - i + (if found { 0int } else { 1int }),
        {
            let n = chars_of(self.names[i].as_str());
            assert(n@ == g.names[i as int]);
            if chars_eq(&n, &cat) {
                found = true;
            } else {
                i = i + 1;
            }
        }
        if !found {
            let ghost before = self.view();
            self.names.push(string_from_chars(&cat));
            self.categories.push(DomainSet::new());
            proof {
                assert(string_views(self.names@) =~= before.names.push(cat@));
                assert(self.categories@.map_values(|d: DomainSet| d.view()) =~= before.cats.push(
                    empty_category(),
                ));
                assert forall|j: int| 0 <= j < self.categories@.len() implies (
                #[trigger] self.categories@[j]).wf() by {
                    if j < before.cats.len() {
                        assert(self.categories@[j] == old(self).categories@[j]);
                    }
                }
            }
        }
        let ghost mid = self.view();
        assert(self.names@[i as int]@ == cat@);
        self.add_to_category(i, domain);
        proof {
            if found {
                assert(category_index(g.names, cat@) == Some(i as int));
                assert(self.view().cats =~= g.cats.update(i as int, category_add(g.cats[i as int], domain@)));
            } else {
                assert(category_index(g.names, cat@) is None);
                assert(self.view().cats =~= g.cats.push(category_add(empty_category(), domain@)));
            }
        }
    }

    fn add_to_category(&mut self, i: usize, domain: &Vec<char>)
        requires
            old(self).wf(),
            i < old(self).categories@.len(),
        ensures
            final(self).wf(),
            final(self).view() == (GeoSiteView {
                cats: old(self).view().cats.update(i as int, category_add(old(self).view().cats[i as int], domain@)),
                ..old(self).view()
            }),
    {
        let star = chars_of("*.");
        let dot = chars_of(".");
        let mut set = DomainSet::new();
        let ghost before = self.view();
        let ghost old_set = self.categories@[i as int];
        assert(old_set.wf());
        std::mem::swap(&mut set, &mut self.categories[i]);
        assert(set.view() == before.cats[i as int]);
        if starts_with(domain, &star) {
            proof { reveal_strlit("*."); }
            let rest = slice_chars(domain, 2, domain.len());
            assert(rest@ =~= domain@.skip(2));
            set.add_suffix(&rest);
        } else if starts_with(domain, &dot) {
            proof { reveal_strlit("."); }
            let rest = slice_chars(domain, 1, domain.len());
            assert(rest@ =~= domain@.skip(1));
            set.add_suffix(&rest);
        } else {
            set.add_exact(domain);
        }
        let ghost new_set = set.view();
        self.categories.set(i, set);
        proof {
            assert(self.view().cats =~= before.cats.update(i as int, new_set));
            assert forall|j: int| 0 <= j < self.categories@.len() implies (
            #[trigger] self.categories@[j]).wf() by {
                if j != i {
                    assert(self.categories@[j] == old(self).categories@[j]);
                }
            }
        }
    }

    /// Loads `<category> <domain>` lines; `#` comments, blank lines and lines
    /// with fewer than two words are skipped. Never fails.
    pub fn load_from_string(&mut self, content: &str) -> (r: Result<(), String>)
        requires
            old(self).wf(),
        ensures
            r is Ok,
            final(self).wf(),
            final(self).view() == geo_add_lines(old(self).view(), lines_of(content@)),
    {
        let ls = lines(content);
        let ghost lv = views(ls@);
        let ghost start = self.view();
        let mut i: usize = 0;
        assert(lv.take(0) =~= Seq::<Seq<char>>::empty());
        while i < ls.len()
            invariant
                i <= ls@.len(),
                lv == views(ls@),
                self.wf(),
                self.view() == geo_add_lines(start, lv.take(i as int)),
            decreases ls.len() - i,
        {
            proof {
                assert(lv.take(i + 1).drop_last() =~= lv.take(i as int));
                assert(lv.take(i + 1).last() == ls@[i as int]@);
            }
            let t = trim_chars(&ls[i]);
            if t.len() == 0 || t[0] == '#' {
            } else {
                let parts = split_whitespace(&t);
                if parts.len() >= 2 {
                    assert(views(parts@)[0] == parts@[0]@);
                    assert(views(parts@)[1] == parts@[1]@);
                    self.add_domain_chars(&parts[0], &parts[1]);
                }
            }
            i = i + 1;
        }
        assert(lv.take(ls@.len() as int) =~= lv);
        Ok(())
    }

    /// The first category (in creation order) that matches `domain`.
    pub fn lookup(&self, domain: &str) -> (r: Option<String>)
        requires
            self.wf(),
        ensures
            match first_match(self.view().cats, unicode_lower(domain@)) {
                Some(i) => r is Some && r->Some_0@ == self.view().names[i],
                None => r is None,
            },
    {
        let d = chars_of(domain);
        let ghost v = self.view();
        let ghost ld = unicode_lower(domain@);
        let mut i: usize = 0;
        assert(v.cats.take(0) =~= Seq::<CategoryView>::empty());
        while i < self.categories.len()
            invariant
                i <= self.categories@.len(),
                v == self.view(),
                d@ == domain@,
                ld == unicode_lower(domain@),
                self.wf(),
                first_match(v.cats.take(i as int), ld) is None,
            decreases self.categories.len() - i,
        {
            proof {
                assert(v.cats.take(i + 1).drop_last() =~= v.cats.take(i as int));
                assert(v.cats.take(i + 1).last() == self.categories@[i as int].view());
            }
            if self.categories[i].matches(&d) {
                proof {
                    lemma_first_match_prefix(v.cats, ld, i as int);
                }
                let name = self.names[i].clone();
                assert(name@ == v.names[i as int]);
                return Some(name);
            }
            i = i + 1;
        }
        assert(v.cats.take(i as int) =~= v.cats);
        None
    }

    /// The number of categories.
    pub fn category_count(&self) -> (n: usize)
        ensures
            n == self.view().cats.len(),
    {
        self.categories.len()
    }

    /// The total number of domains and suffixes across categories.
    pub fn domain_count(&self) -> (n: usize)
        requires
            total_domains(self.view().cats) <= usize::MAX,
        ensures
            n == total_domains(self.view().cats),
    {
        let ghost v = self.view();
        let mut total: usize = 0;
        let mut i: usize = 0;
        assert(v.cats.take(0) =~= Seq::<CategoryView>::empty());
        while i < self.categories.len()
            invariant
                i <= self.categories@.len(),
                v == self.view(),
                total_domains(v.cats) <= usize::MAX,
                total == total_domains(v.cats.take(i as int)),
            decreases self.categories.len() - i,
        {
            proof {
                assert(v.cats.take(i + 1).drop_last() =~= v.cats.take(i as int));
                lemma_total_prefix(v.cats, i + 1);
            }
            let n = self.categories[i].exact.len() + self.categories[i].suffixes.len();
            total = total + n;
            i = i + 1;
        }
        assert(v.cats.take(i as int) =~= v.cats);
        total
    }

    /// Whether there is no category.
    pub fn is_empty(&self) -> (b: bool)
        ensures
            b == (self.view().cats.len() == 0),
    {
        self.categories.len() == 0
    }

    /// Stores the category of the query's first question under the metadata
    /// key, when the question asks for A or AAAA and a category matches its
    /// name; otherwise the context is left as it was.
    pub fn execute(&self, ctx: &mut Context)
        requires
            self.wf(),
        ensures
            final(ctx).request == old(ctx).request,
            final(ctx).response == old(ctx).response,
            final(ctx).client_ip == old(ctx).client_ip,
            final(ctx).set_entries == old(ctx).set_entries,
            final(ctx).returned == old(ctx).returned,
            match site_category(self.view(), old(ctx).request) {
                Some(c) => final(ctx).tag matches Some(t) && t.0@ == self.view().metadata_key && t.1@ == c,
                None => final(ctx).tag == old(ctx).tag,
            },
    {
        if ctx.request.questions.len() == 0 {
            return;
        }
        let qtype = ctx.request.questions[0].qtype;
        if qtype != TYPE_A && qtype != TYPE_AAAA {
            return;
        }
        let found = self.lookup(ctx.request.questions[0].qname.as_str());
        match found {
            Some(category) => {
                ctx.tag = Some((self.metadata_key.clone(), category));
            },
            None => {},
        }
    }

    /// The plugin's registered name.
    pub fn name(&self) -> (s: &'static str)
        ensures
            s@ == "geo_site"@,
    {
        "geo_site"
    }

    /// Sets the plugin up: the metadata key (`metadata_key`, else
    /// `category`), then the category data of the files listed in `files`,
    /// in order (`texts` holds each one's text, or the error reading it),
    /// then the inline texts of `data`.
    pub fn init(args: &Vec<(String, ConfigValue)>, texts: Vec<Result<String, String>>) -> (r: Result<GeoSitePlugin, PluginError>)
        requires
            texts@.len() == geo_files(args@).len(),
        ensures
            match site_settings(args@, text_views(texts@)) {
                Ok(v) => r matches Ok(g) && g.wf() && g.view() == v,
                Err(e) => r matches Err(x) && x.view() == e,
            },
    {
        let key = match get_arg(args, "metadata_key") {
            Some(ConfigValue::Str(s)) => s.clone(),
            _ => crate::text::owned("category"),
        };
        let mut g = GeoSitePlugin::new(key.as_str());
        let ghost start = g.view();
        assert(start.names =~= Seq::<Seq<char>>::empty());
        assert(start.cats =~= Seq::<CategoryView>::empty());
        let files: Vec<String> = match get_arg(args, "files") {
            Some(ConfigValue::List(items)) => strings_of(items),
            _ => {
                let v: Vec<String> = Vec::new();
                assert(views_of_strings(v@) =~= Seq::<Seq<char>>::empty());
                v
            },
        };
        let ghost pv = views_of_strings(files@);
        let ghost tv = text_views(texts@);
        assert(pv == geo_files(args@));
        let mut i: usize = 0;
        assert(pv.take(0) =~= Seq::<Seq<char>>::empty());
        assert(tv.take(0) =~= Seq::<Result<Seq<char>, Seq<char>>>::empty());
        while i < texts.len()
            invariant
                i <= texts@.len(),
                texts@.len() == files@.len(),
                pv == views_of_strings(files@),
                pv == geo_files(args@),
                tv == text_views(texts@),
                g.wf(),
                start == (GeoSiteView { metadata_key: site_key(args@), names: Seq::empty(), cats: Seq::empty() }),
                site_load_files(start, pv.take(i as int), tv.take(i as int)) == Ok::<GeoSiteView, ErrView>(g.view()),
            decreases texts.len() - i,
        {
            proof {
                assert(pv.take(i + 1).drop_last() =~= pv.take(i as int));
                assert(tv.take(i + 1).drop_last() =~= tv.take(i as int));
                assert(pv.take(i + 1).last() == files@[i as int]@);
                assert(tv.take(i + 1).last() == tv[i as int]);
                assert(pv.take(i + 1).len() == i + 1);
                assert(tv.take(i + 1).len() == i + 1);
            }
            match &texts[i] {
                Err(msg) => {
                    proof {
                        lemma_site_files_err_sticks(start, pv, tv, i + 1);
                    }
                    let mut t = chars_of("Failed to read GeoSite file '");
                    let p = chars_of(files[i].as_str());
                    crate::text::append_chars(&mut t, &p);
                    let mid = chars_of("': ");
                    crate::text::append_chars(&mut t, &mid);
                    let mc = chars_of(msg.as_str());
                    crate::text::append_chars(&mut t, &mc);
                    return Err(PluginError::Config(string_from_chars(&t)));
                },
                Ok(content) => {
                    let _ = g.load_from_string(content.as_str());
                },
            }
            i = i + 1;
        }
        assert(pv.take(texts@.len() as int) =~= pv);
        assert(tv.take(texts@.len() as int) =~= tv);
        let ghost g1 = g.view();
        let data: Vec<String> = match get_arg(args, "data") {
            Some(ConfigValue::List(items)) => strings_of(items),
            _ => {
                let v: Vec<String> = Vec::new();
                assert(views_of_strings(v@) =~= Seq::<Seq<char>>::empty());
                v
            },
        };
        let ghost dv = views_of_strings(data@);
        assert(dv == geo_data(args@));
        let mut j: usize = 0;
        assert(dv.take(0) =~= Seq::<Seq<char>>::empty());
        while j < data.len()
            invariant
                j <= data@.len(),
                dv == views_of_strings(data@),
                dv == geo_data(args@),
                start == (GeoSiteView { metadata_key: site_key(args@), names: Seq::empty(), cats: Seq::empty() }),
                site_load_files(start, geo_files(args@), text_views(texts@)) == Ok::<GeoSiteView, ErrView>(g1),
                g.wf(),
                site_load_data(g1, dv.take(j as int)) == g.view(),
            decreases data.len() - j,
        {
            proof {
                assert(dv.take(j + 1).drop_last() =~= dv.take(j as int));
                assert(dv.take(j + 1).last() == data@[j as int]@);
            }
            let _ = g.load_from_string(data[j].as_str());
            j = j + 1;
        }
        assert(dv.take(data@.len() as int) =~= dv);
        Ok(g)
    }

    /// Removes every category.
    pub fn clear(&mut self)
        ensures
            final(self).wf(),
            final(self).view().cats.len() == 0,
            final(self).view().names.len() == 0,
            final(self).view().metadata_key == old(self).view().metadata_key,
    {
        self.names.clear();
        self.categories.clear();
    }
}

proof fn lemma_first_match_prefix(cats: Seq<CategoryView>, d: Seq<char>, i: int)
    requires
        0 <= i < cats.len(),
        first_match(cats.take(i), d) is None,
        category_matches(cats[i], d),
    ensures
        first_match(cats, d) == Some(i),
    decreases cats.len() - i,
{
    if i + 1 < cats.len() {
        assert(cats.drop_last().take(i) =~= cats.take(i));
        lemma_first_match_prefix(cats.drop_last(), d, i);
    } else {
        assert(cats.drop_last() =~= cats.take(i));
    }
}

proof fn lemma_total_prefix(cats: Seq<CategoryView>, i: int)
    requires
        0 <= i <= cats.len(),
    ensures
        total_domains(cats.take(i)) <= total_domains(cats),
    decreases cats.len() - i,
{
    if i < cats.len() {
        lemma_total_prefix(cats, i + 1);
        assert(cats.take(i + 1).drop_last() =~= cats.take(i));
    } else {
        assert(cats.take(i) =~= cats);
    }
}

/// Some category matches `d` exactly when the first match exists.
proof fn lemma_first_match_some(cats: Seq<CategoryView>, d: Seq<char>, i: int)
    requires
        0 <= i < cats.len(),
        category_matches(cats[i], d),
    ensures
        first_match(cats, d) is Some,
    decreases cats.len(),
{
    if i < cats.len() - 1 {
        assert(cats.drop_last()[i] == cats[i]);
        lemma_first_match_some(cats.drop_last(), d, i);
    }
}

/// Adding a domain to a category keeps every domain that category matched.
proof fn lemma_category_add_keeps(c: CategoryView, domain: Seq<char>, d: Seq<char>)
    requires
        category_matches(c, d),
    ensures
        category_matches(category_add(c, domain), d),
{
    let n = category_add(c, domain);
    if c.exact.contains(d) {
        assert(n.exact.contains(d)) by {
            let j = choose|j: int| 0 <= j < c.exact.len() && c.exact[j] == d;
            assert(n.exact[j] == d);
        }
    } else {
        let i = choose|i: int|
            0 <= i < c.suffixes.len() && (d == #[trigger] c.suffixes[i] || has_suffix(d, seq!['.'] + c.suffixes[i]));
        assert(n.suffixes[i] == c.suffixes[i]);
    }
}

/// A domain added to a category (not as a `*.` or `.` pattern) is found by
/// `lookup` afterwards: some category matches it.
pub proof fn lemma_added_domain_found(g: GeoSiteView, category: Seq<char>, domain: Seq<char>)
    requires
        g.names.len() == g.cats.len(),
        !has_prefix(domain, "*."@),
        !has_prefix(domain, "."@),
    ensures
        first_match(geo_add(g, category, domain).cats, unicode_lower(domain)) is Some,
{
    let c = unicode_lower(category);
    let d = unicode_lower(domain);
    lemma_category_index(g.names, c);
    let n = geo_add(g, category, domain);
    match category_index(g.names, c) {
        Some(i) => {
            let a = category_add(g.cats[i], domain);
            assert(a.exact.contains(d)) by {
                if !g.cats[i].exact.contains(d) {
                    assert(a.exact[g.cats[i].exact.len() as int] == d);
                }
            }
            assert(n.cats[i] == a);
            lemma_first_match_some(n.cats, d, i);
        },
        None => {
            let a = category_add(empty_category(), domain);
            assert(a.exact[0] == d);
            assert(n.cats[g.cats.len() as int] == a);
            lemma_first_match_some(n.cats, d, g.cats.len() as int);
        },
    }
}

/// Adding a domain never makes a domain that was found unfound.
pub proof fn lemma_add_keeps_found(g: GeoSiteView, category: Seq<char>, domain: Seq<char>, d: Seq<char>)
    requires
        g.names.len() == g.cats.len(),
        first_match(g.cats, d) is Some,
    ensures
        first_match(geo_add(g, category, domain).cats, d) is Some,
{
    let c = unicode_lower(category);
    lemma_category_index(g.names, c);
    lemma_first_match_bounds(g.cats, d);
    let j = first_match(g.cats, d)->Some_0;
    let n = geo_add(g, category, domain);
    match category_index(g.names, c) {
        Some(i) => {
            if i == j {
                lemma_category_add_keeps(g.cats[j], domain, d);
            }
            assert(category_matches(n.cats[j], d));
        },
        None => {
            assert(n.cats[j] == g.cats[j]);
        },
    }
    lemma_first_match_some(n.cats, d, j);
}

/// The first match is a matching index of the sequence.
proof fn lemma_first_match_bounds(cats: Seq<CategoryView>, d: Seq<char>)
    ensures
        first_match(cats, d) matches Some(i) ==> 0 <= i < cats.len() && category_matches(cats[i], d),
    decreases cats.len(),
{
    if cats.len() > 0 {
        lemma_first_match_bounds(cats.drop_last(), d);
        if let Some(i) = first_match(cats.drop_last(), d) {
            assert(cats.drop_last()[i] == cats[i]);
        }
    }
}

} // verus!
