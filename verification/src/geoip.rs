//! Country lookup of IP addresses from CIDR ranges, and the plugin that
//! tags a response with the country of its first located address.
//!
//! Range data is text with one `<cidr> <country>` pair per line; blank
//! lines and `#` comments are skipped, as are lines with fewer than two
//! fields. Country codes are kept upper-cased.

use vstd::prelude::*;
use crate::config::{arg_get, get_arg, ConfigValue};
use crate::dns::Context;
use crate::error::{ErrView, PluginError};
use crate::hosts::{string_items, strings_of, views_of_strings};
use crate::ip::{ipnet_parse, net_contains, net_valid, parse_net, IpAddr, IpNet};
use crate::ip_set::{any_contains, record_addr};
use crate::text::{
    append_chars, chars_eq, chars_of, lines, lines_of, owned, split_whitespace, split_ws,
    string_from_chars, to_uppercase, trim, trim_chars, unicode_upper, views,
};

verus! {

/// Country ranges: each country code with its networks, in insertion order.
pub type GeoMap = Seq<(Seq<char>, Seq<IpNet>)>;

/// Whether no country code occurs twice.
pub open spec fn countries_distinct(m: GeoMap) -> bool {
    forall|i: int, j: int| 0 <= i < m.len() && 0 <= j < m.len() && i != j ==> #[trigger] m[i].0 != #[trigger] m[j].0
}

/// The ranges after adding `net` to country `key`.
pub open spec fn geo_add(m: GeoMap, key: Seq<char>, net: IpNet) -> GeoMap {
    if exists|i: int| 0 <= i < m.len() && #[trigger] m[i].0 == key {
        let i = choose|i: int| 0 <= i < m.len() && #[trigger] m[i].0 == key;
        m.update(i, (key, m[i].1.push(net)))
    } else {
        m.push((key, seq![net]))
    }
}

/// What a line of range data says.
pub enum GeoLine {
    /// Nothing (blank, comment, fewer than two fields)
    Skip,
    /// A first field that is not a network
    Bad(Seq<char>),
    /// A network and the country code it belongs to
    Add(IpNet, Seq<char>),
}

/// Reads one line of range data.
pub open spec fn geo_line(line: Seq<char>) -> GeoLine {
    let t = trim(line);
    if t.len() == 0 || t[0] == '#' {
        GeoLine::Skip
    } else {
        let parts = split_ws(t);
        if parts.len() < 2 {
            GeoLine::Skip
        } else {
            match ipnet_parse(parts[0]) {
                None => GeoLine::Bad(parts[0]),
                Some(n) => GeoLine::Add(n, parts[1]),
            }
        }
    }
}

/// The ranges after reading `ls` in order, and the first field of the first
/// line whose network does not parse (reading stops there; the lines before
/// it stay added).
pub open spec fn geo_load(m: GeoMap, ls: Seq<Seq<char>>) -> (GeoMap, Option<Seq<char>>)
    decreases ls.len(),
{
    if ls.len() == 0 {
        (m, None)
    } else {
        let (m1, e) = geo_load(m, ls.drop_last());
        if e is Some {
            (m1, e)
        } else {
            match geo_line(ls.last()) {
                GeoLine::Skip => (m1, None),
                GeoLine::Bad(p) => (m1, Some(p)),
                GeoLine::Add(n, cc) => (geo_add(m1, unicode_upper(cc), n), None),
            }
        }
    }
}

/// The error for a first field that is not a network; the reason is what
/// `ipnet`'s parse error displays.
pub open spec fn bad_cidr(p: Seq<char>) -> ErrView {
    ErrView::Config("Invalid CIDR '"@ + p + "': invalid IP address syntax"@)
}

/// Loading a text of range data: the ranges, or the error of its first bad
/// line.
pub open spec fn geo_load_text(m: GeoMap, text: Seq<char>) -> Result<GeoMap, ErrView> {
    let (m2, e) = geo_load(m, lines_of(text));
    match e {
        None => Ok(m2),
        Some(p) => Err(bad_cidr(p)),
    }
}

/// Whether some range of some country holds `ip`.
pub open spec fn geo_has(m: GeoMap, ip: IpAddr) -> bool {
    exists|i: int| 0 <= i < m.len() && any_contains(#[trigger] m[i].1, ip)
}

/// Whether a range of country `c` holds `ip`.
pub open spec fn country_has(m: GeoMap, c: Seq<char>, ip: IpAddr) -> bool {
    exists|i: int| 0 <= i < m.len() && #[trigger] m[i].0 == c && any_contains(m[i].1, ip)
}

/// Whether a record's address lies in some range.
pub open spec fn located(m: GeoMap, r: crate::dns::Record) -> bool {
    record_addr(r.rdata) matches Some(a) && geo_has(m, a)
}

/// The number of ranges of all countries.
pub open spec fn total_ranges(m: GeoMap) -> nat
    decreases m.len(),
{
    if m.len() == 0 {
        0
    } else {
        total_ranges(m.drop_last()) + m.last().1.len()
    }
}

/// The files named in `files` (the strings of a list).
pub open spec fn geo_files(args: Seq<(String, ConfigValue)>) -> Seq<Seq<char>> {
    match arg_get(args, "files"@) {
        Some(ConfigValue::List(items)) => string_items(items@),
        _ => Seq::empty(),
    }
}

/// The inline range texts in `data` (the strings of a list).
pub open spec fn geo_data(args: Seq<(String, ConfigValue)>) -> Seq<Seq<char>> {
    match arg_get(args, "data"@) {
        Some(ConfigValue::List(items)) => string_items(items@),
        _ => Seq::empty(),
    }
}

/// The metadata key: the `metadata_key` string, else `country`.
pub open spec fn geo_key(args: Seq<(String, ConfigValue)>) -> Seq<char> {
    match arg_get(args, "metadata_key"@) {
        Some(ConfigValue::Str(s)) => s@,
        _ => "country"@,
    }
}

/// The texts read from the files, or the errors reading them.
pub open spec fn text_views(t: Seq<Result<String, String>>) -> Seq<Result<Seq<char>, Seq<char>>> {
    t.map_values(
        |r: Result<String, String>|
            match r {
                Ok(s) => Ok(s@),
                Err(e) => Err(e@),
            },
    )
}

/// The ranges after loading the files in order (each given with its text or
/// the error reading it).
pub open spec fn geo_load_files(m: GeoMap, paths: Seq<Seq<char>>, texts: Seq<Result<Seq<char>, Seq<char>>>) -> Result<GeoMap, ErrView>
    decreases texts.len(),
{
    if texts.len() == 0 {
        Ok(m)
    } else {
        match geo_load_files(m, paths.drop_last(), texts.drop_last()) {
            Err(e) => Err(e),
            Ok(m1) => match texts.last() {
                Err(msg) => Err(ErrView::Config("Failed to read GeoIP file '"@ + paths.last() + "': "@ + msg)),
                Ok(t) => geo_load_text(m1, t),
            },
        }
    }
}

/// The ranges after loading the inline texts in order.
pub open spec fn geo_load_data(m: GeoMap, data: Seq<Seq<char>>) -> Result<GeoMap, ErrView>
    decreases data.len(),
{
    if data.len() == 0 {
        Ok(m)
    } else {
        match geo_load_data(m, data.drop_last()) {
            Err(e) => Err(e),
            Ok(m1) => geo_load_text(m1, data.last()),
        }
    }
}

/// The ranges the configuration gives: the files, then the inline data.
pub open spec fn geo_settings(args: Seq<(String, ConfigValue)>, texts: Seq<Result<Seq<char>, Seq<char>>>) -> Result<GeoMap, ErrView> {
    match geo_load_files(Seq::empty(), geo_files(args), texts) {
        Err(e) => Err(e),
        Ok(m) => geo_load_data(m, geo_data(args)),
    }
}

proof fn lemma_load_err_sticks(m: GeoMap, ls: Seq<Seq<char>>, k: int)
    requires
        0 <= k <= ls.len(),
        geo_load(m, ls.take(k)).1 is Some,
    ensures
        geo_load(m, ls) == geo_load(m, ls.take(k)),
    decreases ls.len() - k,
{
    if k < ls.len() {
        assert(ls.take(k + 1).drop_last() =~= ls.take(k));
        lemma_load_err_sticks(m, ls, k + 1);
    } else {
        assert(ls.take(k) =~= ls);
    }
}

proof fn lemma_files_err_sticks(m: GeoMap, paths: Seq<Seq<char>>, texts: Seq<Result<Seq<char>, Seq<char>>>, k: int)
    requires
        0 <= k <= texts.len(),
        paths.len() == texts.len(),
        geo_load_files(m, paths.take(k), texts.take(k)) is Err,
    ensures
        geo_load_files(m, paths, texts) == geo_load_files(m, paths.take(k), texts.take(k)),
    decreases texts.len() - k,
{
    if k < texts.len() {
        assert(paths.take(k + 1).drop_last() =~= paths.take(k));
        assert(texts.take(k + 1).drop_last() =~= texts.take(k));
        lemma_files_err_sticks(m, paths, texts, k + 1);
    } else {
        assert(paths.take(k) =~= paths);
        assert(texts.take(k) =~= texts);
    }
}

proof fn lemma_data_err_sticks(m: GeoMap, data: Seq<Seq<char>>, k: int)
    requires
        0 <= k <= data.len(),
        geo_load_data(m, data.take(k)) is Err,
    ensures
        geo_load_data(m, data) == geo_load_data(m, data.take(k)),
    decreases data.len() - k,
{
    if k < data.len() {
        assert(data.take(k + 1).drop_last() =~= data.take(k));
        lemma_data_err_sticks(m, data, k + 1);
    } else {
        assert(data.take(k) =~= data);
    }
}

/// After a range is added to a country, every address in the range is
/// located in that country.
pub proof fn lemma_add_locates(m: GeoMap, key: Seq<char>, net: IpNet, ip: IpAddr)
    requires
        countries_distinct(m),
        net_contains(net, ip),
    ensures
        country_has(geo_add(m, key, net), key, ip),
        geo_has(geo_add(m, key, net), ip),
{
    let g = geo_add(m, key, net);
    if exists|i: int| 0 <= i < m.len() && #[trigger] m[i].0 == key {
        let i = choose|i: int| 0 <= i < m.len() && #[trigger] m[i].0 == key;
        let r = m[i].1.push(net);
        assert(g[i] == (key, r));
        assert(net_contains(r[r.len() - 1], ip));
        assert(any_contains(g[i].1, ip));
        assert(g[i].0 == key);
    } else {
        let i = m.len() as int;
        assert(g[i] == (key, seq![net]));
        assert(net_contains(g[i].1[0], ip));
        assert(any_contains(g[i].1, ip));
        assert(g[i].0 == key);
    }
}

/// Adding a range keeps every address located where it was.
pub proof fn lemma_add_keeps_located(m: GeoMap, key: Seq<char>, net: IpNet, c: Seq<char>, ip: IpAddr)
    requires
        countries_distinct(m),
        country_has(m, c, ip),
    ensures
        country_has(geo_add(m, key, net), c, ip),
{
    let g = geo_add(m, key, net);
    let i = choose|i: int| 0 <= i < m.len() && #[trigger] m[i].0 == c && any_contains(m[i].1, ip);
    let j = choose|j: int| 0 <= j < m[i].1.len() && net_contains(#[trigger] m[i].1[j], ip);
    if exists|k: int| 0 <= k < m.len() && #[trigger] m[k].0 == key {
        let k = choose|k: int| 0 <= k < m.len() && #[trigger] m[k].0 == key;
        if k == i {
            assert(g[i].1[j] == m[i].1[j]);
        } else {
            assert(g[i] == m[i]);
        }
        assert(net_contains(g[i].1[j], ip));
        assert(g[i].0 == c);
    } else {
        assert(g[i] == m[i]);
        assert(net_contains(g[i].1[j], ip));
    }
}

/// Country ranges keyed by upper-cased country code.
#[derive(Debug)]
pub struct GeoIpPlugin {
    /// The metadata key the located country is stored under.
    pub metadata_key: String,
    /// Each country code with its ranges, in insertion order.
    pub countries: Vec<(String, Vec<IpNet>)>,
}

impl GeoIpPlugin {
    /// The countries with their ranges.
    pub closed spec fn view(&self) -> GeoMap {
        self.countries@.map_values(|e: (String, Vec<IpNet>)| (e.0@, e.1@))
    }

    /// Country codes are distinct and every range is a valid network.
    pub closed spec fn wf(&self) -> bool {
        &&& countries_distinct(self.view())
        &&& forall|i: int, j: int|
            0 <= i < self.view().len() && 0 <= j < self.view()[i].1.len() ==> net_valid(
                #[trigger] self.view()[i].1[j],
            )
    }

    /// An empty lookup table storing its result under `metadata_key`.
    pub fn new(metadata_key: String) -> (g: GeoIpPlugin)
        ensures
            g.wf(),
            g.metadata_key == metadata_key,
            g.view().len() == 0,
    {
        let g = GeoIpPlugin { metadata_key, countries: Vec::new() };
        assert(g.view() =~= Seq::<(Seq<char>, Seq<IpNet>)>::empty());
        g
    }

    fn find_country(&self, key: &Vec<char>) -> (r: Option<usize>)
        ensures
            r is None ==> forall|i: int| 0 <= i < self.view().len() ==> #[trigger] self.view()[i].0 != key@,
            r matches Some(i) ==> i < self.view().len() && self.view()[i as int].0 == key@,
    {
        let mut i: usize = 0;
        while i < self.countries.len()
            invariant
                i <= self.countries@.len(),
                forall|k: int| 0 <= k < i ==> #[trigger] self.view()[k].0 != key@,
            decreases self.countries.len() - i,
        {
            let c = chars_of(self.countries[i].0.as_str());
            if chars_eq(&c, key) {
                return Some(i);
            }
            i = i + 1;
        }
        None
    }

    /// Adds a range to a country (its code upper-cased). Always succeeds.
    pub fn add_country_cidr(&mut self, country_code: &str, cidr: IpNet) -> (r: Result<(), PluginError>)
        requires
            old(self).wf(),
            net_valid(cidr),
        ensures
            r is Ok,
            final(self).wf(),
            final(self).view() == geo_add(old(self).view(), unicode_upper(country_code@), cidr),
            final(self).metadata_key == old(self).metadata_key,
    {
        let country = to_uppercase(country_code);
        let key = chars_of(country.as_str());
        let ghost m = self.view();
        match self.find_country(&key) {
            Some(i) => {
                let mut e = self.countries.remove(i);
                e.1.push(cidr);
                self.countries.insert(i, e);
                proof {
                    let j = choose|j: int| 0 <= j < m.len() && #[trigger] m[j].0 == key@;
                    assert(j == i);
                    assert(self.view() =~= m.update(i as int, (key@, m[i as int].1.push(cidr))));
                    assert forall|a: int, b: int|
                        0 <= a < self.view().len() && 0 <= b < self.view()[a].1.len() implies net_valid(
                        #[trigger] self.view()[a].1[b],
                    ) by {
                        if a == i && b == m[a].1.len() {
                        } else {
                            assert(self.view()[a].1[b] == m[a].1[b]);
                        }
                    }
                    assert forall|a: int, b: int|
                        0 <= a < self.view().len() && 0 <= b < self.view().len() && a != b implies #[trigger] self.view()[a].0
                        != #[trigger] self.view()[b].0 by {
                        assert(m[a].0 != m[b].0);
                    }
                }
            },
            None => {
                let mut v: Vec<IpNet> = Vec::new();
                v.push(cidr);
                self.countries.push((country, v));
                proof {
                    assert(self.view() =~= m.push((key@, seq![cidr])));
                    assert forall|a: int, b: int|
                        0 <= a < self.view().len() && 0 <= b < self.view()[a].1.len() implies net_valid(
                        #[trigger] self.view()[a].1[b],
                    ) by {
                        if a < m.len() {
                            assert(self.view()[a] == m[a]);
                        }
                    }
                    assert forall|a: int, b: int|
                        0 <= a < self.view().len() && 0 <= b < self.view().len() && a != b implies #[trigger] self.view()[a].0
                        != #[trigger] self.view()[b].0 by {
                        if a < m.len() && b < m.len() {
                            assert(m[a].0 != m[b].0);
                        } else if a < m.len() {
                            assert(m[a].0 != key@);
                        } else {
                            assert(m[b].0 != key@);
                        }
                    }
                }
            },
        }
        Ok(())
    }

    /// Reads range data (see [`geo_load`]). On a line whose first field is
    /// not a network, reading stops with an error; the lines before it stay
    /// added.
    pub fn load_from_string(&mut self, content: &str) -> (r: Result<(), PluginError>)
        requires
            old(self).wf(),
        ensures
            final(self).wf(),
            final(self).view() == geo_load(old(self).view(), lines_of(content@)).0,
            final(self).metadata_key == old(self).metadata_key,
            match geo_load(old(self).view(), lines_of(content@)).1 {
                None => r is Ok,
                Some(p) => r matches Err(e) && e.view() == bad_cidr(p),
            },
    {
        let ls = lines(content);
        let ghost lv = views(ls@);
        let ghost m0 = self.view();
        let mut i: usize = 0;
        assert(lv.take(0) =~= Seq::<Seq<char>>::empty());
        while i < ls.len()
            invariant
                i <= ls@.len(),
                lv == views(ls@),
                lv == lines_of(content@),
                m0 == old(self).view(),
                self.wf(),
                self.metadata_key == old(self).metadata_key,
                geo_load(m0, lv.take(i as int)) == (self.view(), None::<Seq<char>>),
            decreases ls.len() - i,
        {
            proof {
                assert(lv.take(i + 1).drop_last() =~= lv.take(i as int));
                assert(lv.take(i + 1).last() == ls@[i as int]@);
            }
            let t = trim_chars(&ls[i]);
            if t.len() > 0 && t[0] != '#' {
                let parts = split_whitespace(&t);
                if parts.len() >= 2 {
                    let first = string_from_chars(&parts[0]);
                    match parse_net(first.as_str()) {
                        None => {
                            proof {
                                lemma_load_err_sticks(m0, lv, i + 1);
                            }
                            let mut msg = chars_of("Invalid CIDR '");
                            append_chars(&mut msg, &parts[0]);
                            let tail = chars_of("': invalid IP address syntax");
                            append_chars(&mut msg, &tail);
                            return Err(PluginError::Config(string_from_chars(&msg)));
                        },
                        Some(net) => {
                            let cc = string_from_chars(&parts[1]);
                            let _ = self.add_country_cidr(cc.as_str(), net);
                        },
                    }
                }
            }
            i = i + 1;
        }
        assert(lv.take(lv.len() as int) =~= lv);
        Ok(())
    }

    /// The country of a range holding `ip`, if any. When ranges of several
    /// countries hold it, which one comes back is left open.
    pub fn lookup(&self, ip: &IpAddr) -> (r: Option<String>)
        requires
            self.wf(),
        ensures
            r is None <==> !geo_has(self.view(), *ip),
            r matches Some(c) ==> country_has(self.view(), c@, *ip),
    {
        let mut i: usize = 0;
        while i < self.countries.len()
            invariant
                i <= self.countries@.len(),
                self.wf(),
                forall|k: int| 0 <= k < i ==> !any_contains(#[trigger] self.view()[k].1, *ip),
            decreases self.countries.len() - i,
        {
            let ranges = &self.countries[i].1;
            let mut j: usize = 0;
            while j < ranges.len()
                invariant
                    i < self.countries@.len(),
                    *ranges == self.countries@[i as int].1,
                    j <= ranges@.len(),
                    self.wf(),
                    forall|k: int| 0 <= k < j ==> !net_contains(#[trigger] ranges@[k], *ip),
                decreases ranges.len() - j,
            {
                assert(self.view()[i as int].1[j as int] == ranges@[j as int]);
                if ranges[j].contains(ip) {
                    assert(any_contains(self.view()[i as int].1, *ip));
                    let c = self.countries[i].0.clone();
                    assert(c@ == self.view()[i as int].0);
                    return Some(c);
                }
                j = j + 1;
            }
            assert(self.view()[i as int].1 == ranges@);
            i = i + 1;
        }
        None
    }

    /// The number of countries.
    pub fn country_count(&self) -> (n: usize)
        ensures
            n == self.view().len(),
    {
        self.countries.len()
    }

    /// The number of ranges over all countries.
    pub fn range_count(&self) -> (n: usize)
        requires
            total_ranges(self.view()) <= usize::MAX,
        ensures
            n == total_ranges(self.view()),
    {
        let ghost m = self.view();
        let mut n: usize = 0;
        let mut i: usize = 0;
        while i < self.countries.len()
            invariant
                i <= self.countries@.len(),
                m == self.view(),
                n == total_ranges(m.take(i as int)),
                total_ranges(m) <= usize::MAX,
            decreases self.countries.len() - i,
        {
            proof {
                assert(m.take(i + 1).drop_last() =~= m.take(i as int));
                lemma_total_prefix(m, i + 1);
            }
            n = n + self.countries[i].1.len();
            i = i + 1;
        }
        assert(m.take(i as int) =~= m);
        n
    }

    /// Whether no country has ranges.
    pub fn is_empty(&self) -> (b: bool)
        ensures
            b == (self.view().len() == 0),
    {
        self.countries.len() == 0
    }

    /// Removes every country.
    pub fn clear(&mut self)
        ensures
            final(self).wf(),
            final(self).view().len() == 0,
            final(self).metadata_key == old(self).metadata_key,
    {
        self.countries.clear();
        assert(self.view() =~= Seq::<(Seq<char>, Seq<IpNet>)>::empty());
    }

    /// The plugin's registered name.
    pub fn name(&self) -> (s: &'static str)
        ensures
            s@ == "geo_ip"@,
    {
        "geo_ip"
    }

    /// Tags the response with a country: the first answer (in order) whose
    /// A or AAAA address some range holds gives the country, stored under
    /// the metadata key. Nothing changes when there is no response or no
    /// answer is located.
    pub fn execute(&self, ctx: &mut Context)
        requires
            self.wf(),
        ensures
            final(ctx).request == old(ctx).request,
            final(ctx).response == old(ctx).response,
            final(ctx).client_ip == old(ctx).client_ip,
            final(ctx).set_entries == old(ctx).set_entries,
            final(ctx).returned == old(ctx).returned,
            match old(ctx).response {
                None => final(ctx).tag == old(ctx).tag,
                Some(m) => {
                    &&& (forall|k: int| 0 <= k < m.answers@.len() ==> !located(self.view(), #[trigger] m.answers@[k]))
                        ==> final(ctx).tag == old(ctx).tag
                    &&& (exists|k: int| 0 <= k < m.answers@.len() && located(self.view(), #[trigger] m.answers@[k]))
                        ==> exists|k: int|
                        0 <= k < m.answers@.len() && located(self.view(), #[trigger] m.answers@[k]) && (forall|j: int|
                            0 <= j < k ==> !located(self.view(), #[trigger] m.answers@[j])) && (final(ctx).tag matches Some(t)
                            && t.0@ == self.metadata_key@ && (record_addr(m.answers@[k].rdata) matches Some(a)
                            && country_has(self.view(), t.1@, a)))
                },
            },
    {
        let mut found: Option<(usize, String)> = None;
        match &ctx.response {
            None => {},
            Some(m) => {
                let mut i: usize = 0;
                while i < m.answers.len() && found.is_none()
                    invariant
                        i <= m.answers@.len(),
                        self.wf(),
                        found is None ==> forall|k: int| 0 <= k < i ==> !located(self.view(), #[trigger] m.answers@[k]),
                        found matches Some(f) ==> {
                            &&& f.0 < m.answers@.len()
                            &&& located(self.view(), m.answers@[f.0 as int])
                            &&& forall|j: int| 0 <= j < f.0 ==> !located(self.view(), #[trigger] m.answers@[j])
                            &&& record_addr(m.answers@[f.0 as int].rdata) matches Some(a)
                            &&& country_has(self.view(), f.1@, a)
                        },
                    decreases m.answers.len() - i,
                {
                    let ip = match &m.answers[i].rdata {
                        crate::dns::RData::A(a) => Some(IpAddr::V4(*a)),
                        crate::dns::RData::AAAA(a) => Some(IpAddr::V6(*a)),
                        _ => None,
                    };
                    assert(ip == record_addr(m.answers@[i as int].rdata));
                    match ip {
                        Some(a) => {
                            match self.lookup(&a) {
                                Some(c) => {
                                    found = Some((i, c));
                                },
                                None => {},
                            }
                        },
                        None => {},
                    }
                    i = i + 1;
                }
            },
        }
        match found {
            Some((_, c)) => {
                ctx.tag = Some((self.metadata_key.clone(), c));
            },
            None => {},
        }
    }

    /// Sets the table up: the metadata key (`metadata_key`, else
    /// `country`), then the range data of the files listed in `files`, in
    /// order (`texts` holds each one's text, or the error reading it), then
    /// the inline texts of `data`.
    pub fn init(args: &Vec<(String, ConfigValue)>, texts: Vec<Result<String, String>>) -> (r: Result<GeoIpPlugin, PluginError>)
        requires
            texts@.len() == geo_files(args@).len(),
        ensures
            match geo_settings(args@, text_views(texts@)) {
                Ok(m) => r matches Ok(g) && g.wf() && g.view() == m && g.metadata_key@ == geo_key(args@),
                Err(e) => r matches Err(x) && x.view() == e,
            },
    {
        let key = match get_arg(args, "metadata_key") {
            Some(ConfigValue::Str(s)) => s.clone(),
            _ => owned("country"),
        };
        let mut g = GeoIpPlugin::new(key);
        let files: Vec<String> = match get_arg(args, "files") {
            Some(ConfigValue::List(items)) => strings_of(items),
            _ => {
                let v: Vec<String> = Vec::new();
                assert(views_of_strings(v@) =~= Seq::<Seq<char>>::empty());
                v
            },
        };
        let ghost pv = views_of_strings(files@);
        let ghost tv = text_views(texts@);
        assert(pv == geo_files(args@));
        let mut i: usize = 0;
        assert(pv.take(0) =~= Seq::<Seq<char>>::empty());
        assert(tv.take(0) =~= Seq::<Result<Seq<char>, Seq<char>>>::empty());
        assert(g.view() =~= Seq::<(Seq<char>, Seq<IpNet>)>::empty());
        while i < texts.len()
            invariant
                i <= texts@.len(),
                texts@.len() == files@.len(),
                pv == views_of_strings(files@),
                pv == geo_files(args@),
                tv == text_views(texts@),
                g.wf(),
                g.metadata_key@ == geo_key(args@),
                geo_load_files(Seq::empty(), pv.take(i as int), tv.take(i as int)) == Ok::<GeoMap, ErrView>(g.view()),
            decreases texts.len() - i,
        {
            proof {
                assert(pv.take(i + 1).drop_last() =~= pv.take(i as int));
                assert(tv.take(i + 1).drop_last() =~= tv.take(i as int));
                assert(pv.take(i + 1).last() == files@[i as int]@);
                assert(tv.take(i + 1).last() == tv[i as int]);
                assert(pv.take(i + 1).len() == i + 1);
                assert(tv.take(i + 1).len() == i + 1);
            }
            match &texts[i] {
                Err(msg) => {
                    proof {
                        lemma_files_err_sticks(Seq::empty(), pv, tv, i + 1);
                    }
                    let mut t = chars_of("Failed to read GeoIP file '");
                    let p = chars_of(files[i].as_str());
                    append_chars(&mut t, &p);
                    let mid = chars_of("': ");
                    append_chars(&mut t, &mid);
                    let mc = chars_of(msg.as_str());
                    append_chars(&mut t, &mc);
                    return Err(PluginError::Config(string_from_chars(&t)));
                },
                Ok(content) => {
                    match g.load_from_string(content.as_str()) {
                        Ok(()) => {},
                        Err(e) => {
                            proof {
                                lemma_files_err_sticks(Seq::empty(), pv, tv, i + 1);
                            }
                            return Err(e);
                        },
                    }
                },
            }
            i = i + 1;
        }
        assert(pv.take(texts@.len() as int) =~= pv);
        assert(tv.take(texts@.len() as int) =~= tv);
        let ghost m1 = g.view();
        let data: Vec<String> = match get_arg(args, "data") {
            Some(ConfigValue::List(items)) => strings_of(items),
            _ => {
                let v: Vec<String> = Vec::new();
                assert(views_of_strings(v@) =~= Seq::<Seq<char>>::empty());
                v
            },
        };
        let ghost dv = views_of_strings(data@);
        assert(dv == geo_data(args@));
        let mut j: usize = 0;
        assert(dv.take(0) =~= Seq::<Seq<char>>::empty());
        while j < data.len()
            invariant
                j <= data@.len(),
                dv == views_of_strings(data@),
                dv == geo_data(args@),
                geo_load_files(Seq::empty(), geo_files(args@), text_views(texts@)) == Ok::<GeoMap, ErrView>(m1),
                g.wf(),
                g.metadata_key@ == geo_key(args@),
                geo_load_data(m1, dv.take(j as int)) == Ok::<GeoMap, ErrView>(g.view()),
            decreases data.len() - j,
        {
            proof {
                assert(dv.take(j + 1).drop_last() =~= dv.take(j as int));
                assert(dv.take(j + 1).last() == data@[j as int]@);
            }
            match g.load_from_string(data[j].as_str()) {
                Ok(()) => {},
                Err(e) => {
                    proof {
                        lemma_data_err_sticks(m1, dv, j + 1);
                    }
                    return Err(e);
                },
            }
            j = j + 1;
        }
        assert(dv.take(data@.len() as int) =~= dv);
        Ok(g)
    }
}

proof fn lemma_total_prefix(m: GeoMap, k: int)
    requires
        0 < k <= m.len(),
    ensures
        total_ranges(m.take(k)) <= total_ranges(m),
        total_ranges(m.take(k)) == total_ranges(m.take(k - 1)) + m[k - 1].1.len(),
    decreases m.len() - k,
{
    assert(m.take(k).drop_last() =~= m.take(k - 1));
    if k < m.len() {
        lemma_total_prefix(m, k + 1);
    } else {
        assert(m.take(k) =~= m);
    }
}

} // verus!
