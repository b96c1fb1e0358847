//! A named set of IP networks, read from files (one network or address per
//! line) and inline entries, that addresses and responses are matched
//! against.

use vstd::prelude::*;
use crate::config::{arg_get, get_arg, ConfigValue};
use crate::dns::{Context, RData};
use crate::domain_rules::string_list_setting;
use crate::error::PluginError;
use crate::hosts::{string_items, strings_of, views_of_strings};
use crate::ip::{ip_parse, ipnet_parse, net_contains, net_valid, parse_ip, parse_net, IpAddr, IpNet};
use crate::text::{chars_of, lines, lines_of, owned, string_from_chars, trim, trim_chars, views};

verus! {

/// The network an entry names: a network in CIDR form, else a single
/// address as a host network (`/32` or `/128`).
pub open spec fn entry_net(t: Seq<char>) -> Option<IpNet> {
    match ipnet_parse(t) {
        Some(n) => Some(n),
        None => match ip_parse(t) {
            Some(IpAddr::V4(a)) => Some(IpNet::V4 { addr: a, prefix: 32 }),
            Some(IpAddr::V6(a)) => Some(IpNet::V6 { addr: a, prefix: 128 }),
            None => None,
        },
    }
}

/// The network a line of a set file gives: blank lines, `#` comments and
/// entries that do not parse give none.
pub open spec fn line_net(line: Seq<char>) -> Option<IpNet> {
    let t = trim(line);
    if t.len() == 0 || t[0] == '#' {
        None
    } else {
        entry_net(t)
    }
}

/// The networks of a file's lines, in order.
pub open spec fn nets_of_lines(ls: Seq<Seq<char>>) -> Seq<IpNet>
    decreases ls.len(),
{
    if ls.len() == 0 {
        Seq::empty()
    } else {
        let r = nets_of_lines(ls.drop_last());
        match line_net(ls.last()) {
            Some(n) => r.push(n),
            None => r,
        }
    }
}

/// The networks of the files that could be read (`None` for one that could
/// not, which is skipped), in order.
pub open spec fn nets_of_files(files: Seq<Option<Seq<char>>>) -> Seq<IpNet>
    decreases files.len(),
{
    if files.len() == 0 {
        Seq::empty()
    } else {
        let r = nets_of_files(files.drop_last());
        match files.last() {
            Some(content) => r + nets_of_lines(lines_of(content)),
            None => r,
        }
    }
}

/// The networks of inline entries; entries that do not parse are skipped.
pub open spec fn nets_of_entries(ips: Seq<Seq<char>>) -> Seq<IpNet>
    decreases ips.len(),
{
    if ips.len() == 0 {
        Seq::empty()
    } else {
        let r = nets_of_entries(ips.drop_last());
        match entry_net(ips.last()) {
            Some(n) => r.push(n),
            None => r,
        }
    }
}

/// The contents of what was read from each file.
pub open spec fn content_views(c: Seq<Option<String>>) -> Seq<Option<Seq<char>>> {
    c.map_values(
        |o: Option<String>|
            match o {
                Some(s) => Some(s@),
                None => None,
            },
    )
}

/// Whether one of the networks holds `ip`.
pub open spec fn any_contains(nets: Seq<IpNet>, ip: IpAddr) -> bool {
    exists|i: int| 0 <= i < nets.len() && net_contains(#[trigger] nets[i], ip)
}

/// The address an answer record carries, for A and AAAA records.
pub open spec fn record_addr(d: RData) -> Option<IpAddr> {
    match d {
        RData::A(a) => Some(IpAddr::V4(a)),
        RData::AAAA(a) => Some(IpAddr::V6(a)),
        _ => None,
    }
}

/// Whether every network's prefix length fits its family.
pub open spec fn all_valid(nets: Seq<IpNet>) -> bool {
    forall|i: int| 0 <= i < nets.len() ==> net_valid(#[trigger] nets[i])
}

/// Parses one entry (see [`entry_net`]).
pub fn parse_entry(t: &str) -> (r: Option<IpNet>)
    ensures
        r == entry_net(t@),
        r matches Some(n) ==> net_valid(n),
{
    match parse_net(t) {
        Some(n) => Some(n),
        None => match parse_ip(t) {
            Some(IpAddr::V4(a)) => Some(IpNet::V4 { addr: a, prefix: 32 }),
            Some(IpAddr::V6(a)) => Some(IpNet::V6 { addr: a, prefix: 128 }),
            None => None,
        },
    }
}

/// The networks listed in the text of a set file.
pub fn nets_from_content(content: &str) -> (r: Vec<IpNet>)
    ensures
        r@ == nets_of_lines(lines_of(content@)),
        all_valid(r@),
{
    let ls = lines(content);
    let ghost lv = views(ls@);
    let mut r: Vec<IpNet> = Vec::new();
    let mut i: usize = 0;
    assert(lv.take(0) =~= Seq::<Seq<char>>::empty());
    while i < ls.len()
        invariant
            i <= ls@.len(),
            lv == views(ls@),
            lv == lines_of(content@),
            r@ == nets_of_lines(lv.take(i as int)),
            all_valid(r@),
        decreases ls.len() - i,
    {
        proof {
            assert(lv.take(i + 1).drop_last() =~= lv.take(i as int));
            assert(lv.take(i + 1).last() == ls@[i as int]@);
        }
        let t = trim_chars(&ls[i]);
        if t.len() > 0 && t[0] != '#' {
            let s = string_from_chars(&t);
            match parse_entry(s.as_str()) {
                Some(n) => {
                    r.push(n);
                },
                None => {},
            }
        }
        i = i + 1;
    }
    assert(lv.take(lv.len() as int) =~= lv);
    r
}

/// A named set of IP networks.
pub struct IpSetPlugin {
    /// The set's name (its tag, or the plugin's name).
    pub name: String,
    /// Files the networks are read from.
    pub files: Vec<String>,
    /// Inline entries, read after the files.
    pub ips: Vec<String>,
    /// Reload the files when they change.
    pub auto_reload: bool,
    /// The plugin's tag from its configuration.
    pub tag: Option<String>,
    /// The networks held, in load order.
    pub networks: Vec<IpNet>,
}

impl IpSetPlugin {
    /// Every held network's prefix length fits its family.
    pub open spec fn wf(&self) -> bool {
        all_valid(self.networks@)
    }

    /// An empty set named `name`.
    pub fn new(name: String) -> (p: IpSetPlugin)
        ensures
            p.wf(),
            p.name == name,
            p.files@.len() == 0,
            p.ips@.len() == 0,
            !p.auto_reload,
            p.tag is None,
            p.networks@.len() == 0,
    {
        IpSetPlugin {
            name,
            files: Vec::new(),
            ips: Vec::new(),
            auto_reload: false,
            tag: None,
            networks: Vec::new(),
        }
    }

    /// Sets the files to read.
    pub fn with_files(self, files: Vec<String>) -> (p: IpSetPlugin)
        ensures
            p == (IpSetPlugin { files, ..self }),
    {
        IpSetPlugin { files, ..self }
    }

    /// Sets the inline entries.
    pub fn with_ips(self, ips: Vec<String>) -> (p: IpSetPlugin)
        ensures
            p == (IpSetPlugin { ips, ..self }),
    {
        IpSetPlugin { ips, ..self }
    }

    /// Sets reloading.
    pub fn with_auto_reload(self, enabled: bool) -> (p: IpSetPlugin)
        ensures
            p == (IpSetPlugin { auto_reload: enabled, ..self }),
    {
        IpSetPlugin { auto_reload: enabled, ..self }
    }

    /// Whether the files are to be watched: reloading is on and there is a
    /// file.
    pub fn wants_watcher(&self) -> (b: bool)
        ensures
            b == (self.auto_reload && self.files@.len() > 0),
    {
        self.auto_reload && self.files.len() > 0
    }

    /// Replaces the networks with those of the files' contents (one entry
    /// per file, in order; `None` for a file that could not be read, which
    /// is skipped) followed by those of the inline entries.
    pub fn load_networks(&mut self, contents: Vec<Option<String>>) -> (r: Result<(), PluginError>)
        requires
            contents@.len() == old(self).files@.len(),
        ensures
            r is Ok,
            final(self).wf(),
            final(self).networks@ == nets_of_files(content_views(contents@)) + nets_of_entries(
                views_of_strings(old(self).ips@),
            ),
            final(self).name == old(self).name,
            final(self).files == old(self).files,
            final(self).ips == old(self).ips,
            final(self).auto_reload == old(self).auto_reload,
            final(self).tag == old(self).tag,
    {
        let ghost cv = content_views(contents@);
        let mut nets: Vec<IpNet> = Vec::new();
        let mut i: usize = 0;
        assert(cv.take(0) =~= Seq::<Option<Seq<char>>>::empty());
        while i < contents.len()
            invariant
                i <= contents@.len(),
                cv == content_views(contents@),
                nets@ == nets_of_files(cv.take(i as int)),
                all_valid(nets@),
            decreases contents.len() - i,
        {
            proof {
                assert(cv.take(i + 1).drop_last() =~= cv.take(i as int));
                assert(cv.take(i + 1).last() == cv[i as int]);
            }
            match &contents[i] {
                Some(c) => {
                    let mut more = nets_from_content(c.as_str());
                    let ghost before = nets@;
                    nets.append(&mut more);
                    assert(all_valid(nets@)) by {
                        assert forall|k: int| 0 <= k < nets@.len() implies net_valid(#[trigger] nets@[k]) by {
                            if k >= before.len() {
                                assert(nets@[k] == nets_of_lines(lines_of(c@))[k - before.len()]);
                            }
                        }
                    }
                },
                None => {},
            }
            i = i + 1;
        }
        assert(cv.take(contents@.len() as int) =~= cv);
        let ghost from_files = nets@;
        let ghost iv = views_of_strings(self.ips@);
        let mut j: usize = 0;
        assert(iv.take(0) =~= Seq::<Seq<char>>::empty());
        assert(from_files + nets_of_entries(iv.take(0)) =~= from_files);
        while j < self.ips.len()
            invariant
                j <= self.ips@.len(),
                iv == views_of_strings(self.ips@),
                nets@ == from_files + nets_of_entries(iv.take(j as int)),
                all_valid(nets@),
            decreases self.ips.len() - j,
        {
            proof {
                assert(iv.take(j + 1).drop_last() =~= iv.take(j as int));
                assert(iv.take(j + 1).last() == self.ips@[j as int]@);
            }
            match parse_entry(self.ips[j].as_str()) {
                Some(n) => {
                    nets.push(n);
                    assert(nets@ =~= from_files + nets_of_entries(iv.take(j + 1)));
                },
                None => {},
            }
            j = j + 1;
        }
        assert(iv.take(self.ips@.len() as int) =~= iv);
        self.networks = nets;
        Ok(())
    }

    /// Whether one of the held networks holds `ip`.
    pub fn matches(&self, ip: &IpAddr) -> (b: bool)
        requires
            self.wf(),
        ensures
            b == any_contains(self.networks@, *ip),
    {
        let mut i: usize = 0;
        while i < self.networks.len()
            invariant
                i <= self.networks@.len(),
                self.wf(),
                forall|k: int| 0 <= k < i ==> !net_contains(#[trigger] self.networks@[k], *ip),
            decreases self.networks.len() - i,
        {
            if self.networks[i].contains(ip) {
                return true;
            }
            i = i + 1;
        }
        false
    }

    /// Whether an A or AAAA answer of the response carries an address of the
    /// set; false when there is no response.
    pub fn matches_context(&self, ctx: &Context) -> (b: bool)
        requires
            self.wf(),
        ensures
            b == (ctx.response matches Some(m) && exists|i: int|
                0 <= i < m.answers@.len() && (record_addr(#[trigger] m.answers@[i].rdata) matches Some(a)
                    && any_contains(self.networks@, a))),
    {
        match &ctx.response {
            None => false,
            Some(m) => {
                let mut i: usize = 0;
                while i < m.answers.len()
                    invariant
                        i <= m.answers@.len(),
                        self.wf(),
                        ctx.response == Some(*m),
                        forall|k: int|
                            0 <= k < i ==> !(record_addr(#[trigger] m.answers@[k].rdata) matches Some(a)
                                && any_contains(self.networks@, a)),
                    decreases m.answers.len() - i,
                {
                    let ip = match &m.answers[i].rdata {
                        RData::A(a) => Some(IpAddr::V4(*a)),
                        RData::AAAA(a) => Some(IpAddr::V6(*a)),
                        _ => None,
                    };
                    match ip {
                        Some(a) => {
                            if self.matches(&a) {
                                assert(record_addr(m.answers@[i as int].rdata) == Some(a));
                                return true;
                            }
                        },
                        None => {},
                    }
                    i = i + 1;
                }
                false
            },
        }
    }

    /// The networks held.
    pub fn get_networks(&self) -> (r: &Vec<IpNet>)
        ensures
            r@ == self.networks@,
    {
        &self.networks
    }

    /// The plugin's registered name.
    pub fn name(&self) -> (s: &'static str)
        ensures
            s@ == "ip_set"@,
    {
        "ip_set"
    }

    /// Sets the plugin up from its arguments: the name is the `tag` argument
    /// when it is a non-empty string, else `effective_name`; `files` and
    /// `ips` (each a list whose strings are kept, or one string) and
    /// `auto_reload`. The networks are loaded afterwards with
    /// [`IpSetPlugin::load_networks`].
    pub fn init(args: &Vec<(String, ConfigValue)>, effective_name: &str, tag: Option<String>) -> (p: IpSetPlugin)
        ensures
            p.wf(),
            p.networks@.len() == 0,
            p.name@ == match arg_get(args@, "tag"@) {
                Some(ConfigValue::Str(t)) => if t@.len() > 0 {
                    t@
                } else {
                    effective_name@
                },
                _ => effective_name@,
            },
            p.tag == tag,
            views_of_strings(p.files@) == string_list_setting(arg_get(args@, "files"@)),
            views_of_strings(p.ips@) == string_list_setting(arg_get(args@, "ips"@)),
            p.auto_reload == match arg_get(args@, "auto_reload"@) {
                Some(ConfigValue::Bool(b)) => b,
                _ => false,
            },
    {
        let name = match get_arg(args, "tag") {
            Some(ConfigValue::Str(t)) => if chars_of(t.as_str()).len() > 0 {
                t.clone()
            } else {
                owned(effective_name)
            },
            _ => owned(effective_name),
        };
        let mut plugin = IpSetPlugin::new(name);
        plugin.tag = tag;
        plugin = plugin.with_files(string_list(get_arg(args, "files")));
        match get_arg(args, "auto_reload") {
            Some(ConfigValue::Bool(b)) => {
                plugin = plugin.with_auto_reload(*b);
            },
            _ => {},
        }
        plugin = plugin.with_ips(string_list(get_arg(args, "ips")));
        plugin
    }
}

/// The strings of a list-or-string argument (see [`string_list_setting`]).
pub fn string_list(v: Option<&ConfigValue>) -> (r: Vec<String>)
    ensures
        views_of_strings(r@) == string_list_setting(
            match v {
                Some(x) => Some(*x),
                None => None,
            },
        ),
{
    match v {
        Some(ConfigValue::List(items)) => strings_of(items),
        Some(ConfigValue::Str(s)) => {
            let mut r: Vec<String> = Vec::new();
            r.push(s.clone());
            assert(views_of_strings(r@) =~= seq![s@]);
            r
        },
        _ => {
            let r: Vec<String> = Vec::new();
            assert(views_of_strings(r@) =~= Seq::<Seq<char>>::empty());
            r
        },
    }
}

} // verus!
