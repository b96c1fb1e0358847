//! The `nftset` and `ipset` plugins: their short setup strings, and the CIDR
//! entries they derive from the A/AAAA answers of a response.

use vstd::prelude::*;
use crate::dns::{Context, RData, Record};
use crate::error::{ErrView, PluginError};
use crate::ip::{make_v4_prefix, make_v6_prefix, v4_prefix_text, v6_prefix_text};
use crate::text::{
    comma_groups, join_seq, regroup,
    append_chars, chars_eq, chars_of, dec, dec_chars, int_error_string, int_error_text, owned,
    parse_i32_chars, parse_i32_spec, split_char, split_on, split_whitespace, split_ws,
    string_from_chars, views,
};

verus! {

/// Per-family nftables settings.
#[derive(Debug, Clone)]
pub struct SetArgs {
    /// Optional nftables table family (e.g. `inet`).
    pub table_family: Option<String>,
    /// Optional nftables table name.
    pub table: Option<String>,
    /// Optional nftables set name.
    pub set: Option<String>,
    /// Prefix length mask to apply when synthesizing CIDRs.
    pub mask: Option<u8>,
}

/// nftset plugin settings.
#[derive(Debug, Clone)]
pub struct NftSetArgs {
    /// Optional configuration for IPv4 elements (table, set and mask).
    pub ipv4: Option<SetArgs>,
    /// Optional configuration for IPv6 elements (table, set and mask).
    pub ipv6: Option<SetArgs>,
}

/// The text of an optional string.
pub open spec fn opt_view(o: Option<String>) -> Option<Seq<char>> {
    match o {
        Some(s) => Some(s@),
        None => None,
    }
}

pub struct SetArgsView {
    pub table_family: Option<Seq<char>>,
    pub table: Option<Seq<char>>,
    pub set: Option<Seq<char>>,
    pub mask: Option<u8>,
}

pub struct NftArgsView {
    pub ipv4: Option<SetArgsView>,
    pub ipv6: Option<SetArgsView>,
}

impl SetArgs {
    pub open spec fn view(&self) -> SetArgsView {
        SetArgsView {
            table_family: opt_view(self.table_family),
            table: opt_view(self.table),
            set: opt_view(self.set),
            mask: self.mask,
        }
    }
}

pub open spec fn opt_set_view(o: Option<SetArgs>) -> Option<SetArgsView> {
    match o {
        Some(s) => Some(s.view()),
        None => None,
    }
}

impl NftSetArgs {
    pub open spec fn view(&self) -> NftArgsView {
        NftArgsView { ipv4: opt_set_view(self.ipv4), ipv6: opt_set_view(self.ipv6) }
    }
}

/// The settings after reading one `family,table,set,addr_type,mask` field.
pub open spec fn nft_field(a: NftArgsView, f: Seq<char>) -> Result<NftArgsView, ErrView> {
    let ss = split_on(f, ',');
    if ss.len() != 5 {
        Err(
            ErrView::InvalidConfigValue {
                field: "nftset"@,
                value: f,
                reason: "expect 5 comma-separated fields, got "@ + dec(ss.len()),
            },
        )
    } else {
        match parse_i32_spec(ss[4]) {
            Err(e) => Err(
                ErrView::InvalidConfigValue { field: "mask"@, value: ss[4], reason: int_error_text(e) },
            ),
            Ok(m) => {
                let sa = SetArgsView {
                    table_family: Some(ss[0]),
                    table: Some(ss[1]),
                    set: Some(ss[2]),
                    mask: Some((m as i32) as u8),
                };
                if ss[3] == "ipv4_addr"@ {
                    Ok(NftArgsView { ipv4: Some(sa), ..a })
                } else if ss[3] == "ipv6_addr"@ {
                    Ok(NftArgsView { ipv6: Some(sa), ..a })
                } else {
                    Err(ErrView::InvalidAddress { input: "unsupported ip type: "@ + ss[3] })
                }
            },
        }
    }
}

/// The settings after reading `fs` in order, stopping at the first error.
pub open spec fn nft_fields(a: NftArgsView, fs: Seq<Seq<char>>) -> Result<NftArgsView, ErrView>
    decreases fs.len(),
{
    if fs.len() == 0 {
        Ok(a)
    } else {
        match nft_fields(a, fs.drop_last()) {
            Err(e) => Err(e),
            Ok(a2) => nft_field(a2, fs.last()),
        }
    }
}

/// What `NftSetPlugin::quick_setup(s)` yields.
pub open spec fn nft_quick(s: Seq<char>) -> Result<NftArgsView, ErrView> {
    let fs = split_ws(s);
    if fs.len() > 2 {
        Err(
            ErrView::InvalidConfigValue {
                field: "nftset"@,
                value: s,
                reason: "expect no more than 2 fields, got "@ + dec(fs.len()),
            },
        )
    } else {
        nft_fields(NftArgsView { ipv4: None, ipv6: None }, fs)
    }
}

fn text(prefix: &str, rest: &Vec<char>) -> (r: String)
    ensures
        r@ == prefix@ + rest@,
{
    let mut p = chars_of(prefix);
    append_chars(&mut p, rest);
    string_from_chars(&p)
}

fn count_text(prefix: &str, n: usize) -> (r: String)
    ensures
        r@ == prefix@ + dec(n as nat),
{
    let d = dec_chars(n as u64);
    text(prefix, &d)
}

fn is_lit(s: &Vec<char>, lit: &str) -> (b: bool)
    ensures
        b == (s@ == lit@),
{
    let l = chars_of(lit);
    chars_eq(s, &l)
}

/// The keys of stored entry lists, in order.
pub open spec fn list_keys(l: Seq<(String, Vec<(String, String)>)>) -> Seq<Seq<char>> {
    l.map_values(|e: (String, Vec<(String, String)>)| e.0@)
}

/// The position of the first list stored under `key`, or -1.
pub open spec fn key_pos(keys: Seq<Seq<char>>, key: Seq<char>) -> int
    decreases keys.len(),
{
    if keys.len() == 0 {
        -1
    } else {
        let p = key_pos(keys.drop_last(), key);
        if p >= 0 {
            p
        } else if keys.last() == key {
            keys.len() - 1
        } else {
            -1
        }
    }
}

/// The entries stored under `key`, if any list is.
pub open spec fn recorded(l: Seq<(String, Vec<(String, String)>)>, key: Seq<char>) -> Option<Seq<(Seq<char>, Seq<char>)>> {
    let p = key_pos(list_keys(l), key);
    if p >= 0 {
        Some(entry_views(l[p].1@))
    } else {
        None
    }
}

proof fn lemma_key_pos(keys: Seq<Seq<char>>, key: Seq<char>)
    ensures
        key_pos(keys, key) >= 0 ==> key_pos(keys, key) < keys.len() && keys[key_pos(keys, key)] == key
            && forall|j: int| 0 <= j < key_pos(keys, key) ==> keys[j] != key,
        key_pos(keys, key) < 0 ==> forall|j: int| 0 <= j < keys.len() ==> keys[j] != key,
    decreases keys.len(),
{
    if keys.len() > 0 {
        let d = keys.drop_last();
        lemma_key_pos(d, key);
        assert forall|j: int| 0 <= j < d.len() implies d[j] == keys[j] by {}
    }
}

/// Copies a list of entries.
fn copy_entries(v: &Vec<(String, String)>) -> (r: Vec<(String, String)>)
    ensures
        entry_views(r@) == entry_views(v@),
{
    let mut r: Vec<(String, String)> = Vec::new();
    let mut i: usize = 0;
    while i < v.len()
        invariant
            i <= v@.len(),
            entry_views(r@) == entry_views(v@).take(i as int),
        decreases v.len() - i,
    {
        let a = v[i].0.clone();
        let b = v[i].1.clone();
        let ghost before = entry_views(r@);
        r.push((a, b));
        assert(entry_views(r@) =~= before.push((v@[i as int].0@, v@[i as int].1@)));
        assert(entry_views(v@).take(i + 1) =~= entry_views(v@).take(i as int).push(entry_views(v@)[i as int]));
        i = i + 1;
    }
    assert(entry_views(v@).take(v@.len() as int) =~= entry_views(v@));
    r
}

/// The entries stored under `key`, or none.
pub fn recorded_entries(l: &Vec<(String, Vec<(String, String)>)>, key: &str) -> (r: Vec<(String, String)>)
    ensures
        entry_views(r@) == match recorded(l@, key@) {
            Some(e) => e,
            None => Seq::empty(),
        },
{
    let ghost keys = list_keys(l@);
    proof {
        lemma_key_pos(keys, key@);
    }
    let kc = chars_of(key);
    let mut i: usize = 0;
    while i < l.len()
        invariant
            i <= l@.len(),
            keys == list_keys(l@),
            kc@ == key@,
            forall|j: int| 0 <= j < i ==> keys[j] != key@,
        decreases l.len() - i,
    {
        let name = chars_of(l[i].0.as_str());
        assert(keys[i as int] == l@[i as int].0@);
        if chars_eq(&name, &kc) {
            proof {
                lemma_key_pos(keys, key@);
                assert(key_pos(keys, key@) == i);
            }
            return copy_entries(&l[i].1);
        }
        i = i + 1;
    }
    let r: Vec<(String, String)> = Vec::new();
    assert(entry_views(r@) =~= Seq::<(Seq<char>, Seq<char>)>::empty());
    r
}

/// Stores `v` under `key`, replacing the list stored there; the lists under
/// other keys are unchanged.
pub fn store_entries(l: &mut Vec<(String, Vec<(String, String)>)>, key: &str, v: Vec<(String, String)>)
    ensures
        recorded(final(l)@, key@) == Some(entry_views(v@)),
        forall|k: Seq<char>| k != key@ ==> #[trigger] recorded(final(l)@, k) == recorded(old(l)@, k),
{
    let ghost keys = list_keys(l@);
    proof {
        lemma_key_pos(keys, key@);
    }
    let kc = chars_of(key);
    let mut i: usize = 0;
    while i < l.len()
        invariant
            i <= l@.len(),
            keys == list_keys(l@),
            kc@ == key@,
            l@ == old(l)@,
            forall|j: int| 0 <= j < i ==> keys[j] != key@,
        decreases l.len() - i,
    {
        let cur = chars_of(l[i].0.as_str());
        assert(keys[i as int] == l@[i as int].0@);
        if chars_eq(&cur, &kc) {
            let ghost old_l = l@;
            let name = l[i].0.clone();
            l.set(i, (name, v));
            proof {
                lemma_key_pos(keys, key@);
                assert(keys[i as int] == key@);
                assert(key_pos(keys, key@) == i);
                assert(list_keys(l@) =~= keys);
                assert forall|k: Seq<char>| k != key@ implies #[trigger] recorded(l@, k) == recorded(old_l, k) by {
                    lemma_key_pos(keys, k);
                    let p = key_pos(keys, k);
                    if p >= 0 {
                        assert(p != i);
                        assert(l@[p] == old_l[p]);
                    }
                }
            }
            return;
        }
        i = i + 1;
    }
    let ghost old_l = l@;
    l.push((crate::text::owned(key), v));
    proof {
        lemma_key_pos(keys, key@);
        assert(key_pos(keys, key@) < 0);
        assert(list_keys(l@) =~= keys.push(key@));
        assert(list_keys(l@).drop_last() =~= keys);
        assert(key_pos(list_keys(l@), key@) == keys.len());
        assert forall|k: Seq<char>| k != key@ implies #[trigger] recorded(l@, k) == recorded(old_l, k) by {
            lemma_key_pos(keys, k);
            let p = key_pos(keys, k);
            assert(key_pos(list_keys(l@), k) == p);
            if p >= 0 {
                assert(l@[p] == old_l[p]);
            }
        }
    }
}

/// The nftset plugin.
pub struct NftSetPlugin {
    pub args: NftSetArgs,
}

impl NftSetPlugin {
    /// A plugin with these settings.
    pub fn new(args: NftSetArgs) -> (p: NftSetPlugin)
        ensures
            p.args.view() == args.view(),
    {
        NftSetPlugin { args }
    }

    /// The plugin's registered name.
    pub fn name(&self) -> (s: &'static str)
        ensures
            s@ == "nftset"@,
    {
        "nftset"
    }

    /// Reads `<family>,<table>,<set>,<ipv4_addr|ipv6_addr>,<mask>` fields,
    /// at most two, separated by white space.
    pub fn quick_setup(s: &str) -> (r: Result<NftSetPlugin, PluginError>)
        ensures
            match nft_quick(s@) {
                Ok(a) => r is Ok && r->Ok_0.args.view() == a,
                Err(e) => r is Err && r->Err_0.view() == e,
            },
    {
        let all = chars_of(s);
        let fs = split_whitespace(&all);
        if fs.len() > 2 {
            return Err(
                PluginError::InvalidConfigValue {
                    field: owned("nftset"),
                    value: owned(s),
                    reason: count_text("expect no more than 2 fields, got ", fs.len()),
                },
            );
        }
        let ghost fv = views(fs@);
        let mut args = NftSetArgs { ipv4: None, ipv6: None };
        let mut i: usize = 0;
        assert(fv.take(0) =~= Seq::<Seq<char>>::empty());
        while i < fs.len()
            invariant
                i <= fs@.len(),
                fv == views(fs@),
                fv == split_ws(s@),
                nft_quick(s@) == nft_fields(NftArgsView { ipv4: None, ipv6: None }, fv),
                nft_fields(NftArgsView { ipv4: None, ipv6: None }, fv.take(i as int)) == Ok::<
                    NftArgsView,
                    ErrView,
                >(args.view()),
            decreases fs.len() - i,
        {
            proof {
                assert(fv.take(i + 1).drop_last() =~= fv.take(i as int));
                assert(fv.take(i + 1).last() == fs@[i as int]@);
            }
            let ghost before = args.view();
            match Self::apply_field(args, &fs[i]) {
                Ok(a) => {
                    args = a;
                },
                Err(e) => {
                    proof {
                        assert(nft_fields(NftArgsView { ipv4: None, ipv6: None }, fv.take(i + 1))
                            == Err::<NftArgsView, ErrView>(e.view()));
                        lemma_nft_err_sticks(fv, i + 1);
                        assert(fv.take(fv.len() as int) =~= fv);
                    }
                    return Err(e);
                },
            }
            i = i + 1;
        }
        assert(fv.take(fv.len() as int) =~= fv);
        Ok(NftSetPlugin::new(args))
    }

    fn apply_field(a: NftSetArgs, f: &Vec<char>) -> (r: Result<NftSetArgs, PluginError>)
        ensures
            match nft_field(a.view(), f@) {
                Ok(v) => r is Ok && r->Ok_0.view() == v,
                Err(e) => r is Err && r->Err_0.view() == e,
            },
    {
        let ss = split_char(f, ',');
        let ghost sv = views(ss@);
        if ss.len() != 5 {
            return Err(
                PluginError::InvalidConfigValue {
                    field: owned("nftset"),
                    value: string_from_chars(f),
                    reason: count_text("expect 5 comma-separated fields, got ", ss.len()),
                },
            );
        }
        assert(sv[4] == ss@[4]@ && sv[3] == ss@[3]@ && sv[0] == ss@[0]@ && sv[1] == ss@[1]@
            && sv[2] == ss@[2]@);
        let m = match parse_i32_chars(&ss[4]) {
            Ok(m) => m,
            Err(e) => {
                return Err(
                    PluginError::InvalidConfigValue {
                        field: owned("mask"),
                        value: string_from_chars(&ss[4]),
                        reason: int_error_string(e),
                    },
                );
            },
        };
        let sa = SetArgs {
            table_family: Some(string_from_chars(&ss[0])),
            table: Some(string_from_chars(&ss[1])),
            set: Some(string_from_chars(&ss[2])),
            mask: Some(m as u8),
        };
        if is_lit(&ss[3], "ipv4_addr") {
            Ok(NftSetArgs { ipv4: Some(sa), ipv6: a.ipv6 })
        } else if is_lit(&ss[3], "ipv6_addr") {
            Ok(NftSetArgs { ipv4: a.ipv4, ipv6: Some(sa) })
        } else {
            Err(PluginError::InvalidAddress { input: text("unsupported ip type: ", &ss[3]) })
        }
    }
}

proof fn lemma_nft_err_sticks(fv: Seq<Seq<char>>, k: int)
    requires
        0 <= k <= fv.len(),
        nft_fields(NftArgsView { ipv4: None, ipv6: None }, fv.take(k)) is Err,
    ensures
        nft_fields(NftArgsView { ipv4: None, ipv6: None }, fv.take(fv.len() as int)) == nft_fields(
            NftArgsView { ipv4: None, ipv6: None },
            fv.take(k),
        ),
    decreases fv.len() - k,
{
    if k < fv.len() {
        assert(fv.take(k + 1).drop_last() =~= fv.take(k));
        lemma_nft_err_sticks(fv, k + 1);
    }
}

/// What the exec form `nftset <exec_str>` yields: comma-separated values,
/// five per set, regrouped and read by `quick_setup`.
pub open spec fn nft_exec(prefix: Seq<char>, exec_str: Seq<char>) -> Result<NftArgsView, ErrView> {
    if prefix != "nftset"@ {
        Err(
            ErrView::Config(
                "ExecPlugin quick_setup: unsupported prefix '"@ + prefix + "', expected '"@ + "nftset"@ + "'"@,
            ),
        )
    } else {
        let parts = split_on(exec_str, ',');
        if parts.len() % 5 != 0 {
            Err(
                ErrView::Config(
                    "Invalid nftset arguments: expected multiples of 5 comma-separated values, got "@
                        + dec(parts.len()),
                ),
            )
        } else {
            nft_quick(join_seq(comma_groups(parts, 5), ' '))
        }
    }
}

/// The error an exec-form setup gives for a prefix that is not its own.
pub open spec fn prefix_error_view(prefix: Seq<char>, expected: Seq<char>) -> ErrView {
    ErrView::Config(
        "ExecPlugin quick_setup: unsupported prefix '"@ + prefix + "', expected '"@ + expected + "'"@,
    )
}

/// Builds the error for an exec-form prefix that does not name the plugin.
pub fn unsupported_prefix(prefix: &str, expected: &str) -> (r: PluginError)
    ensures
        r.view() == prefix_error_view(prefix@, expected@),
{
    let mut t = chars_of("ExecPlugin quick_setup: unsupported prefix '");
    let p = chars_of(prefix);
    append_chars(&mut t, &p);
    let mid = chars_of("', expected '");
    append_chars(&mut t, &mid);
    let e = chars_of(expected);
    append_chars(&mut t, &e);
    let end = chars_of("'");
    append_chars(&mut t, &end);
    PluginError::Config(string_from_chars(&t))
}

/// One CIDR entry to add: the set name and the network text.
pub open spec fn entry_views(v: Seq<(String, String)>) -> Seq<(Seq<char>, Seq<char>)> {
    v.map_values(|e: (String, String)| (e.0@, e.1@))
}

/// The entries the nftset plugin derives from one answer record.
pub open spec fn nft_entries(a: NftArgsView, r: RData) -> (Seq<(Seq<char>, Seq<char>)>, Seq<(Seq<char>, Seq<char>)>) {
    match r {
        RData::A(ip) => match a.ipv4 {
            Some(sa) => match sa.set {
                Some(name) => (
                    seq![(name, v4_prefix_text(ip, (match sa.mask { Some(m) => m, None => 24u8 }) as nat))],
                    Seq::empty(),
                ),
                None => (Seq::empty(), Seq::empty()),
            },
            None => (Seq::empty(), Seq::empty()),
        },
        RData::AAAA(ip) => match a.ipv6 {
            Some(sa) => match sa.set {
                Some(name) => (
                    Seq::empty(),
                    seq![(name, v6_prefix_text(ip, (match sa.mask { Some(m) => m, None => 48u8 }) as nat))],
                ),
                None => (Seq::empty(), Seq::empty()),
            },
            None => (Seq::empty(), Seq::empty()),
        },
        _ => (Seq::empty(), Seq::empty()),
    }
}

/// The IPv4 and IPv6 entries derived from all answers, in answer order.
pub open spec fn nft_all(a: NftArgsView, answers: Seq<Record>) -> (Seq<(Seq<char>, Seq<char>)>, Seq<(Seq<char>, Seq<char>)>)
    decreases answers.len(),
{
    if answers.len() == 0 {
        (Seq::empty(), Seq::empty())
    } else {
        let prev = nft_all(a, answers.drop_last());
        let e = nft_entries(a, answers.last().rdata);
        (prev.0 + e.0, prev.1 + e.1)
    }
}

impl NftSetPlugin {
    /// Sets the plugin up from its exec form: the prefix must be `nftset`, the
    /// values come five per set, separated by commas.
    pub fn exec_quick_setup(prefix: &str, exec_str: &str) -> (r: Result<NftSetPlugin, PluginError>)
        ensures
            match nft_exec(prefix@, exec_str@) {
                Ok(a) => r is Ok && r->Ok_0.args.view() == a,
                Err(e) => r is Err && r->Err_0.view() == e,
            },
    {
        let p = chars_of(prefix);
        if !is_lit(&p, "nftset") {
            return Err(unsupported_prefix(prefix, "nftset"));
        }
        let e = chars_of(exec_str);
        let parts = split_char(&e, ',');
        if parts.len() % 5 != 0 {
            let msg = count_text(
                "Invalid nftset arguments: expected multiples of 5 comma-separated values, got ",
                parts.len(),
            );
            return Err(PluginError::Config(msg));
        }
        let joined = regroup(&parts, 5);
        let js = string_from_chars(&joined);
        NftSetPlugin::quick_setup(js.as_str())
    }

    /// The `(set, cidr)` entries for the A and AAAA answers of a response:
    /// IPv4 entries (default mask 24) and IPv6 entries (default mask 48), for
    /// the families whose set name is configured.
    pub fn collect(&self, answers: &Vec<Record>) -> (r: (Vec<(String, String)>, Vec<(String, String)>))
        ensures
            entry_views(r.0@) == nft_all(self.args.view(), answers@).0,
            entry_views(r.1@) == nft_all(self.args.view(), answers@).1,
    {
        let ghost a = self.args.view();
        let mut v4: Vec<(String, String)> = Vec::new();
        let mut v6: Vec<(String, String)> = Vec::new();
        let mut i: usize = 0;
        assert(answers@.take(0) =~= Seq::<Record>::empty());
        assert(entry_views(v4@) =~= Seq::<(Seq<char>, Seq<char>)>::empty());
        assert(entry_views(v6@) =~= Seq::<(Seq<char>, Seq<char>)>::empty());
        while i < answers.len()
            invariant
                i <= answers@.len(),
                a == self.args.view(),
                entry_views(v4@) == nft_all(a, answers@.take(i as int)).0,
                entry_views(v6@) == nft_all(a, answers@.take(i as int)).1,
            decreases answers.len() - i,
        {
            proof {
                assert(answers@.take(i + 1).drop_last() =~= answers@.take(i as int));
            }
            let ghost b4 = entry_views(v4@);
            let ghost b6 = entry_views(v6@);
            match &answers[i].rdata {
                RData::A(ip) => {
                    match &self.args.ipv4 {
                        Some(sa) => match &sa.set {
                            Some(name) => {
                                let mask = match sa.mask {
                                    Some(m) => m,
                                    None => 24,
                                };
                                let p = make_v4_prefix(*ip, mask);
                                v4.push((name.clone(), p));
                                assert(entry_views(v4@) =~= b4 + seq![(name@, p@)]);
                            },
                            None => {},
                        },
                        None => {},
                    }
                },
                RData::AAAA(ip) => {
                    match &self.args.ipv6 {
                        Some(sa) => match &sa.set {
                            Some(name) => {
                                let mask = match sa.mask {
                                    Some(m) => m,
                                    None => 48,
                                };
                                let p = make_v6_prefix(*ip, mask);
                                v6.push((name.clone(), p));
                                assert(entry_views(v6@) =~= b6 + seq![(name@, p@)]);
                            },
                            None => {},
                        },
                        None => {},
                    }
                },
                _ => {},
            }
            i = i + 1;
            proof {
                assert(b4 + Seq::<(Seq<char>, Seq<char>)>::empty() =~= b4);
                assert(b6 + Seq::<(Seq<char>, Seq<char>)>::empty() =~= b6);
            }
        }
        assert(answers@.take(answers@.len() as int) =~= answers@);
        (v4, v6)
    }
    /// Records the entries of the response's answers for the system sets:
    /// the IPv4 ones under `nftset_added_v4` and the IPv6 ones under
    /// `nftset_added_v6`, each only when there are some, and returns them (to
    /// be added to the nftables sets). Without a response nothing is recorded
    /// and there are no entries.
    pub fn execute(&self, ctx: &mut Context) -> (r: (Vec<(String, String)>, Vec<(String, String)>))
        ensures
            final(ctx).request == old(ctx).request,
            final(ctx).response == old(ctx).response,
            final(ctx).client_ip == old(ctx).client_ip,
            final(ctx).returned == old(ctx).returned,
            final(ctx).tag == old(ctx).tag,
            match old(ctx).response {
                None => r.0@.len() == 0 && r.1@.len() == 0 && final(ctx).set_entries@ == old(ctx).set_entries@,
                Some(m) => {
                    &&& entry_views(r.0@) == nft_all(self.args.view(), m.answers@).0
                    &&& entry_views(r.1@) == nft_all(self.args.view(), m.answers@).1
                    &&& recorded(final(ctx).set_entries@, "nftset_added_v4"@) == (if r.0@.len() > 0 {
                        Some(entry_views(r.0@))
                    } else {
                        recorded(old(ctx).set_entries@, "nftset_added_v4"@)
                    })
                    &&& recorded(final(ctx).set_entries@, "nftset_added_v6"@) == (if r.1@.len() > 0 {
                        Some(entry_views(r.1@))
                    } else {
                        recorded(old(ctx).set_entries@, "nftset_added_v6"@)
                    })
                    &&& forall|k: Seq<char>|
                        k != "nftset_added_v4"@ && k != "nftset_added_v6"@ ==> #[trigger] recorded(
                            final(ctx).set_entries@,
                            k,
                        ) == recorded(old(ctx).set_entries@, k)
                },
            },
    {
        let collected = match &ctx.response {
            Some(m) => Some(self.collect(&m.answers)),
            None => None,
        };
        match collected {
            None => (Vec::new(), Vec::new()),
            Some((v4, v6)) => {
                proof {
                    reveal_strlit("nftset_added_v4");
                    reveal_strlit("nftset_added_v6");
                    assert("nftset_added_v4"@ != "nftset_added_v6"@) by {
                        assert("nftset_added_v4"@[14] != "nftset_added_v6"@[14]);
                    }
                }
                if v4.len() > 0 {
                    let c = copy_entries(&v4);
                    store_entries(&mut ctx.set_entries, "nftset_added_v4", c);
                }
                if v6.len() > 0 {
                    let c = copy_entries(&v6);
                    store_entries(&mut ctx.set_entries, "nftset_added_v6", c);
                }
                (v4, v6)
            },
        }
    }
}

/// ipset plugin settings.
#[derive(Debug, Clone)]
pub struct IpSetArgs {
    /// Optional ipset name for IPv4 entries.
    pub set_name4: Option<String>,
    /// Optional ipset name for IPv6 entries.
    pub set_name6: Option<String>,
    /// IPv4 prefix length used when converting A records to CIDR.
    pub mask4: Option<u8>,
    /// IPv6 prefix length used when converting AAAA records to CIDR.
    pub mask6: Option<u8>,
}

pub struct IpSetArgsView {
    pub set_name4: Option<Seq<char>>,
    pub set_name6: Option<Seq<char>>,
    pub mask4: Option<u8>,
    pub mask6: Option<u8>,
}

impl IpSetArgs {
    pub open spec fn view(&self) -> IpSetArgsView {
        IpSetArgsView {
            set_name4: opt_view(self.set_name4),
            set_name6: opt_view(self.set_name6),
            mask4: self.mask4,
            mask6: self.mask6,
        }
    }

    /// No set names; masks 24 (IPv4) and 32 (IPv6).
    pub fn default_args() -> (a: IpSetArgs)
        ensures
            a.view() == ipset_default(),
    {
        IpSetArgs { set_name4: None, set_name6: None, mask4: Some(24), mask6: Some(32) }
    }
}

impl Default for IpSetArgs {
    fn default() -> (a: IpSetArgs)
        ensures
            a.view() == ipset_default(),
    {
        IpSetArgs::default_args()
    }
}

/// The default ipset settings.
pub open spec fn ipset_default() -> IpSetArgsView {
    IpSetArgsView { set_name4: None, set_name6: None, mask4: Some(24), mask6: Some(32) }
}

/// The settings after reading one `set,family,mask` field.
pub open spec fn ipset_field(a: IpSetArgsView, f: Seq<char>) -> Result<IpSetArgsView, ErrView> {
    let ss = split_on(f, ',');
    if ss.len() != 3 {
        Err(ErrView::Other("invalid args, expect 3 fields, got "@ + dec(ss.len())))
    } else {
        match parse_i32_spec(ss[2]) {
            Err(e) => Err(ErrView::Other("invalid mask, "@ + int_error_text(e))),
            Ok(m) => if ss[1] == "inet"@ {
                Ok(IpSetArgsView { mask4: Some((m as i32) as u8), set_name4: Some(ss[0]), ..a })
            } else if ss[1] == "inet6"@ {
                Ok(IpSetArgsView { mask6: Some((m as i32) as u8), set_name6: Some(ss[0]), ..a })
            } else {
                Err(ErrView::Other("invalid set family, "@ + ss[1]))
            },
        }
    }
}

/// The settings after reading `fs` in order, stopping at the first error.
pub open spec fn ipset_fields(a: IpSetArgsView, fs: Seq<Seq<char>>) -> Result<IpSetArgsView, ErrView>
    decreases fs.len(),
{
    if fs.len() == 0 {
        Ok(a)
    } else {
        match ipset_fields(a, fs.drop_last()) {
            Err(e) => Err(e),
            Ok(a2) => ipset_field(a2, fs.last()),
        }
    }
}

/// What `IpSetPlugin::quick_setup(s)` yields.
pub open spec fn ipset_quick(s: Seq<char>) -> Result<IpSetArgsView, ErrView> {
    let fs = split_ws(s);
    if fs.len() > 2 {
        Err(ErrView::Other("expect no more than 2 fields, got "@ + dec(fs.len())))
    } else {
        ipset_fields(ipset_default(), fs)
    }
}

/// What the exec form `ipset <exec_str>` yields (three values per set).
pub open spec fn ipset_exec(prefix: Seq<char>, exec_str: Seq<char>) -> Result<IpSetArgsView, ErrView> {
    if prefix != "ipset"@ {
        Err(
            ErrView::Config(
                "ExecPlugin quick_setup: unsupported prefix '"@ + prefix + "', expected '"@ + "ipset"@ + "'"@,
            ),
        )
    } else {
        let parts = split_on(exec_str, ',');
        if parts.len() % 3 != 0 {
            Err(
                ErrView::Config(
                    "Invalid ipset arguments: expected multiples of 3 comma-separated values, got "@
                        + dec(parts.len()),
                ),
            )
        } else {
            ipset_quick(join_seq(comma_groups(parts, 3), ' '))
        }
    }
}

/// The entry the ipset plugin derives from one answer record.
pub open spec fn ipset_entries(a: IpSetArgsView, r: RData) -> Seq<(Seq<char>, Seq<char>)> {
    match r {
        RData::A(ip) => match a.set_name4 {
            Some(name) => seq![(name, v4_prefix_text(ip, (match a.mask4 { Some(m) => m, None => 24u8 }) as nat))],
            None => Seq::empty(),
        },
        RData::AAAA(ip) => match a.set_name6 {
            Some(name) => seq![(name, v6_prefix_text(ip, (match a.mask6 { Some(m) => m, None => 32u8 }) as nat))],
            None => Seq::empty(),
        },
        _ => Seq::empty(),
    }
}

/// The entries derived from all answers, in answer order.
pub open spec fn ipset_all(a: IpSetArgsView, answers: Seq<Record>) -> Seq<(Seq<char>, Seq<char>)>
    decreases answers.len(),
{
    if answers.len() == 0 {
        Seq::empty()
    } else {
        ipset_all(a, answers.drop_last()) + ipset_entries(a, answers.last().rdata)
    }
}

/// The ipset plugin.
pub struct IpSetPlugin {
    pub args: IpSetArgs,
}

impl IpSetPlugin {
    /// A plugin with these settings.
    pub fn new(args: IpSetArgs) -> (p: IpSetPlugin)
        ensures
            p.args.view() == args.view(),
    {
        IpSetPlugin { args }
    }

    /// The plugin's registered name.
    pub fn name(&self) -> (s: &'static str)
        ensures
            s@ == "ipset"@,
    {
        "ipset"
    }

    /// Reads `<set>,<inet|inet6>,<mask>` fields, at most two, separated by
    /// white space, over the default settings.
    pub fn quick_setup(s: &str) -> (r: Result<IpSetPlugin, PluginError>)
        ensures
            match ipset_quick(s@) {
                Ok(a) => r is Ok && r->Ok_0.args.view() == a,
                Err(e) => r is Err && r->Err_0.view() == e,
            },
    {
        let all = chars_of(s);
        let fs = split_whitespace(&all);
        if fs.len() > 2 {
            return Err(PluginError::Other(count_text("expect no more than 2 fields, got ", fs.len())));
        }
        let ghost fv = views(fs@);
        let mut args = IpSetArgs::default_args();
        let mut i: usize = 0;
        assert(fv.take(0) =~= Seq::<Seq<char>>::empty());
        while i < fs.len()
            invariant
                i <= fs@.len(),
                fv == views(fs@),
                fv == split_ws(s@),
                ipset_quick(s@) == ipset_fields(ipset_default(), fv),
                ipset_fields(ipset_default(), fv.take(i as int)) == Ok::<IpSetArgsView, ErrView>(args.view()),
            decreases fs.len() - i,
        {
            proof {
                assert(fv.take(i + 1).drop_last() =~= fv.take(i as int));
                assert(fv.take(i + 1).last() == fs@[i as int]@);
            }
            match Self::apply_field(args, &fs[i]) {
                Ok(a) => {
                    args = a;
                },
                Err(e) => {
                    proof {
                        assert(ipset_fields(ipset_default(), fv.take(i + 1)) == Err::<IpSetArgsView, ErrView>(e.view()));
                        lemma_ipset_err_sticks(fv, i + 1);
                        assert(fv.take(fv.len() as int) =~= fv);
                    }
                    return Err(e);
                },
            }
            i = i + 1;
        }
        assert(fv.take(fv.len() as int) =~= fv);
        Ok(IpSetPlugin::new(args))
    }

    fn apply_field(a: IpSetArgs, f: &Vec<char>) -> (r: Result<IpSetArgs, PluginError>)
        ensures
            match ipset_field(a.view(), f@) {
                Ok(v) => r is Ok && r->Ok_0.view() == v,
                Err(e) => r is Err && r->Err_0.view() == e,
            },
    {
        let ss = split_char(f, ',');
        let ghost sv = views(ss@);
        if ss.len() != 3 {
            return Err(PluginError::Other(count_text("invalid args, expect 3 fields, got ", ss.len())));
        }
        assert(sv[2] == ss@[2]@ && sv[1] == ss@[1]@ && sv[0] == ss@[0]@);
        let m = match parse_i32_chars(&ss[2]) {
            Ok(m) => m,
            Err(e) => {
                let et = int_error_string(e);
                let ec = chars_of(et.as_str());
                return Err(PluginError::Other(text("invalid mask, ", &ec)));
            },
        };
        if is_lit(&ss[1], "inet") {
            Ok(IpSetArgs {
                set_name4: Some(string_from_chars(&ss[0])),
                set_name6: a.set_name6,
                mask4: Some(m as u8),
                mask6: a.mask6,
            })
        } else if is_lit(&ss[1], "inet6") {
            Ok(IpSetArgs {
                set_name4: a.set_name4,
                set_name6: Some(string_from_chars(&ss[0])),
                mask4: a.mask4,
                mask6: Some(m as u8),
            })
        } else {
            Err(PluginError::Other(text("invalid set family, ", &ss[1])))
        }
    }

    /// Sets the plugin up from its exec form: the prefix must be `ipset`, the
    /// values come three per set, separated by commas.
    pub fn exec_quick_setup(prefix: &str, exec_str: &str) -> (r: Result<IpSetPlugin, PluginError>)
        ensures
            match ipset_exec(prefix@, exec_str@) {
                Ok(a) => r is Ok && r->Ok_0.args.view() == a,
                Err(e) => r is Err && r->Err_0.view() == e,
            },
    {
        let p = chars_of(prefix);
        if !is_lit(&p, "ipset") {
            return Err(unsupported_prefix(prefix, "ipset"));
        }
        let e = chars_of(exec_str);
        let parts = split_char(&e, ',');
        if parts.len() % 3 != 0 {
            let msg = count_text(
                "Invalid ipset arguments: expected multiples of 3 comma-separated values, got ",
                parts.len(),
            );
            return Err(PluginError::Config(msg));
        }
        let joined = regroup(&parts, 3);
        let js = string_from_chars(&joined);
        IpSetPlugin::quick_setup(js.as_str())
    }

    /// The `(set, cidr)` entries for the A and AAAA answers, appended after
    /// the entries already recorded for the query.
    pub fn collect(&self, existing: Vec<(String, String)>, answers: &Vec<Record>) -> (r: Vec<(String, String)>)
        ensures
            entry_views(r@) == entry_views(existing@) + ipset_all(self.args.view(), answers@),
    {
        let ghost a = self.args.view();
        let mut out = existing;
        let ghost start = entry_views(out@);
        let mut i: usize = 0;
        assert(answers@.take(0) =~= Seq::<Record>::empty());
        assert(start + Seq::<(Seq<char>, Seq<char>)>::empty() =~= start);
        while i < answers.len()
            invariant
                i <= answers@.len(),
                a == self.args.view(),
                entry_views(out@) == start + ipset_all(a, answers@.take(i as int)),
            decreases answers.len() - i,
        {
            proof {
                assert(answers@.take(i + 1).drop_last() =~= answers@.take(i as int));
            }
            let ghost before = entry_views(out@);
            match &answers[i].rdata {
                RData::A(ip) => match &self.args.set_name4 {
                    Some(name) => {
                        let mask = match self.args.mask4 {
                            Some(m) => m,
                            None => 24,
                        };
                        let p = make_v4_prefix(*ip, mask);
                        out.push((name.clone(), p));
                        assert(entry_views(out@) =~= before + seq![(name@, p@)]);
                    },
                    None => {},
                },
                RData::AAAA(ip) => match &self.args.set_name6 {
                    Some(name) => {
                        let mask = match self.args.mask6 {
                            Some(m) => m,
                            None => 32,
                        };
                        let p = make_v6_prefix(*ip, mask);
                        out.push((name.clone(), p));
                        assert(entry_views(out@) =~= before + seq![(name@, p@)]);
                    },
                    None => {},
                },
                _ => {},
            }
            i = i + 1;
            proof {
                assert(before + Seq::<(Seq<char>, Seq<char>)>::empty() =~= before);
                assert(start + ipset_all(a, answers@.take(i as int)) =~= start + ipset_all(a, answers@.take(i - 1)) + ipset_entries(a, answers@[i - 1].rdata));
            }
        }
        assert(answers@.take(answers@.len() as int) =~= answers@);
        out
    }
    /// Adds the entries of the response's answers to those recorded for the
    /// query under `ipset_added`, stores the result there when it is not
    /// empty, and returns it (every entry is to be added to the ipsets).
    /// Without a response nothing is recorded and there are no entries.
    pub fn execute(&self, ctx: &mut Context) -> (r: Vec<(String, String)>)
        ensures
            final(ctx).request == old(ctx).request,
            final(ctx).response == old(ctx).response,
            final(ctx).client_ip == old(ctx).client_ip,
            final(ctx).returned == old(ctx).returned,
            final(ctx).tag == old(ctx).tag,
            match old(ctx).response {
                None => r@.len() == 0 && final(ctx).set_entries@ == old(ctx).set_entries@,
                Some(m) => {
                    &&& entry_views(r@) == (match recorded(old(ctx).set_entries@, "ipset_added"@) {
                        Some(e) => e,
                        None => Seq::empty(),
                    }) + ipset_all(self.args.view(), m.answers@)
                    &&& recorded(final(ctx).set_entries@, "ipset_added"@) == (if r@.len() > 0 {
                        Some(entry_views(r@))
                    } else {
                        recorded(old(ctx).set_entries@, "ipset_added"@)
                    })
                    &&& forall|k: Seq<char>|
                        k != "ipset_added"@ ==> #[trigger] recorded(final(ctx).set_entries@, k) == recorded(
                            old(ctx).set_entries@,
                            k,
                        )
                },
            },
    {
        let all = match &ctx.response {
            Some(m) => {
                let existing = recorded_entries(&ctx.set_entries, "ipset_added");
                Some(self.collect(existing, &m.answers))
            },
            None => None,
        };
        match all {
            None => Vec::new(),
            Some(v) => {
                if v.len() > 0 {
                    let c = copy_entries(&v);
                    store_entries(&mut ctx.set_entries, "ipset_added", c);
                }
                v
            },
        }
    }
}

proof fn lemma_ipset_err_sticks(fv: Seq<Seq<char>>, k: int)
    requires
        0 <= k <= fv.len(),
        ipset_fields(ipset_default(), fv.take(k)) is Err,
    ensures
        ipset_fields(ipset_default(), fv.take(fv.len() as int)) == ipset_fields(ipset_default(), fv.take(k)),
    decreases fv.len() - k,
{
    if k < fv.len() {
        assert(fv.take(k + 1).drop_last() =~= fv.take(k));
        lemma_ipset_err_sticks(fv, k + 1);
    }
}

} // verus!
