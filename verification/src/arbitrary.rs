//! Fixed answers for names, given as zone-file style record lines
//! (`name [IN] type data`, types A, AAAA and CNAME).

use vstd::prelude::*;
use crate::dns::{copy_question, copy_records, records_same, Context, Message, Question, RData, Record, CLASS_IN, TYPE_A, TYPE_AAAA, TYPE_CNAME};
use crate::error::{ErrView, PluginError};
use crate::ip::{ipv4_parse, ipv6_parse, parse_ipv4, parse_ipv6};
use crate::text::{
    ascii_lower, ascii_lower_chars, append_chars, chars_eq, chars_of, dec, dec_chars, lines, lines_of,
    split_whitespace, split_ws, string_from_chars, to_uppercase, trim, trim_chars, trim_end_char,
    trim_end_char_exec, unicode_upper, views,
};

verus! {

/// Where the records come from: inline rules and files.
#[derive(Debug, Clone)]
pub struct ArbitraryArgs {
    pub rules: Option<Vec<String>>,
    pub files: Option<Vec<String>>,
}

/// The record a line describes, if it is well formed: at least three
/// tokens, the name (without trailing dots), an optional class `IN` (when
/// there are four or more tokens), a type and its data; TTL 300, class IN.
pub open spec fn rr_line(line: Seq<char>) -> Option<(Seq<char>, u16, RDataView)> {
    let parts = split_ws(line);
    if parts.len() < 3 {
        None
    } else {
        let name = trim_end_char(parts[0], '.');
        let with_class = ascii_lower(parts[1]) == "in"@ && parts.len() >= 4;
        let typ = if with_class { parts[2] } else { parts[1] };
        let data = if with_class { parts[3] } else { parts[2] };
        let t = unicode_upper(typ);
        if t == "A"@ {
            match ipv4_parse(data) {
                Some(a) => Some((name, TYPE_A, RDataView::A(a))),
                None => None,
            }
        } else if t == "AAAA"@ {
            match ipv6_parse(data) {
                Some(a) => Some((name, TYPE_AAAA, RDataView::AAAA(a))),
                None => None,
            }
        } else if t == "CNAME"@ {
            Some((name, TYPE_CNAME, RDataView::Name(data)))
        } else {
            None
        }
    }
}

/// Record data as values.
pub enum RDataView {
    A(u32),
    AAAA(u128),
    Name(Seq<char>),
    Opt(u16),
    Other(Seq<u8>),
}

/// Whether a record is the one a parsed line describes (class IN, TTL 300).
pub open spec fn is_rr(r: Record, p: (Seq<char>, u16, RDataView)) -> bool {
    &&& rr_spec(r) == p
    &&& r.class == CLASS_IN
    &&& r.ttl == 300
}

/// Parses one record line (see [`rr_line`]).
pub fn parse_rr_line(line: &str) -> (r: Option<Record>)
    ensures
        match rr_line(line@) {
            Some(p) => r matches Some(x) && is_rr(x, p),
            None => r is None,
        },
{
    let l = chars_of(line);
    let parts = split_whitespace(&l);
    if parts.len() < 3 {
        return None;
    }
    let name = string_from_chars(&trim_end_char_exec(&parts[0], '.'));
    let inw = chars_of("in");
    let with_class = chars_eq(&ascii_lower_chars(&parts[1]), &inw) && parts.len() >= 4;
    let (ti, ri): (usize, usize) = if with_class {
        (2, 3)
    } else {
        (1, 2)
    };
    let typ = to_uppercase(string_from_chars(&parts[ti]).as_str());
    let data = string_from_chars(&parts[ri]);
    let t = chars_of(typ.as_str());
    if chars_eq(&t, &chars_of("A")) {
        match parse_ipv4(data.as_str()) {
            Some(a) => Some(Record { name, rtype: TYPE_A, class: CLASS_IN, ttl: 300, rdata: RData::A(a) }),
            None => None,
        }
    } else if chars_eq(&t, &chars_of("AAAA")) {
        match parse_ipv6(data.as_str()) {
            Some(a) => Some(Record { name, rtype: TYPE_AAAA, class: CLASS_IN, ttl: 300, rdata: RData::AAAA(a) }),
            None => None,
        }
    } else if chars_eq(&t, &chars_of("CNAME")) {
        Some(Record { name, rtype: TYPE_CNAME, class: CLASS_IN, ttl: 300, rdata: RData::Name(data) })
    } else {
        None
    }
}

/// A record as values: name, type, data.
pub type RRSpec = (Seq<char>, u16, RDataView);

/// The values of a record produced from a line.
pub open spec fn rr_spec(r: Record) -> RRSpec {
    (r.name@, r.rtype, match r.rdata {
        RData::A(a) => RDataView::A(a),
        RData::AAAA(a) => RDataView::AAAA(a),
        RData::Name(n) => RDataView::Name(n@),
        RData::Opt { flags } => RDataView::Opt(flags),
        RData::Other(v) => RDataView::Other(v@),
    })
}

/// Records by name, in the order names were first given.
pub open spec fn rr_entries(v: Seq<(String, Vec<Record>)>) -> Seq<(Seq<char>, Seq<RRSpec>)> {
    v.map_values(|e: (String, Vec<Record>)| (e.0@, e.1@.map_values(|r: Record| rr_spec(r))))
}

/// The position of `key` among the entries, or -1.
pub open spec fn rr_index(m: Seq<(Seq<char>, Seq<RRSpec>)>, key: Seq<char>) -> int
    decreases m.len(),
{
    if m.len() == 0 {
        -1
    } else if m.last().0 == key {
        m.len() - 1
    } else {
        rr_index(m.drop_last(), key)
    }
}

/// Whether no name occurs twice.
pub open spec fn rr_keys_distinct(m: Seq<(Seq<char>, Seq<RRSpec>)>) -> bool {
    forall|i: int, j: int| 0 <= i < j < m.len() ==> m[i].0 != m[j].0
}

/// The entries with record `p` added after the others of its name.
pub open spec fn add_rr(m: Seq<(Seq<char>, Seq<RRSpec>)>, p: RRSpec) -> Seq<(Seq<char>, Seq<RRSpec>)> {
    let i = rr_index(m, p.0);
    if i < 0 {
        m.push((p.0, seq![p]))
    } else {
        m.update(i, (p.0, m[i].1.push(p)))
    }
}

proof fn lemma_rr_index(m: Seq<(Seq<char>, Seq<RRSpec>)>, key: Seq<char>)
    requires
        rr_keys_distinct(m),
    ensures
        -1 <= rr_index(m, key) < m.len(),
        rr_index(m, key) >= 0 ==> m[rr_index(m, key)].0 == key,
        rr_index(m, key) < 0 ==> forall|j: int| 0 <= j < m.len() ==> m[j].0 != key,
        forall|j: int| 0 <= j < m.len() && m[j].0 == key ==> rr_index(m, key) == j,
    decreases m.len(),
{
    if m.len() > 0 {
        let d = m.drop_last();
        assert(rr_keys_distinct(d)) by {
            assert forall|i: int, j: int| 0 <= i < j < d.len() implies d[i].0 != d[j].0 by {
                assert(d[i] == m[i] && d[j] == m[j]);
            }
        }
        lemma_rr_index(d, key);
        assert forall|j: int| 0 <= j < d.len() implies d[j] == m[j] by {}
        if m.last().0 == key {
            assert forall|j: int| 0 <= j < m.len() && m[j].0 == key implies rr_index(m, key) == j by {
                if j < m.len() - 1 {
                    assert(m[j].0 != m[m.len() - 1].0);
                }
            }
        } else {
            assert forall|j: int| 0 <= j < m.len() && m[j].0 == key implies rr_index(m, key) == j by {
                if j < m.len() - 1 {
                    assert(d[j].0 == key);
                }
            }
        }
    }
}

fn find_name(v: &Vec<(String, Vec<Record>)>, key: &Vec<char>) -> (r: Option<usize>)
    requires
        rr_keys_distinct(rr_entries(v@)),
    ensures
        match r {
            Some(i) => i as int == rr_index(rr_entries(v@), key@) && i < v@.len(),
            None => rr_index(rr_entries(v@), key@) < 0,
        },
{
    let ghost m = rr_entries(v@);
    proof {
        lemma_rr_index(m, key@);
    }
    let mut i: usize = 0;
    while i < v.len()
        invariant
            m == rr_entries(v@),
            i <= v@.len(),
            forall|j: int| 0 <= j < i ==> m[j].0 != key@,
            -1 <= rr_index(m, key@) < m.len(),
            forall|j: int| 0 <= j < m.len() && m[j].0 == key@ ==> rr_index(m, key@) == j,
            rr_index(m, key@) < 0 ==> forall|j: int| 0 <= j < m.len() ==> m[j].0 != key@,
        decreases v.len() - i,
    {
        let k = chars_of(v[i].0.as_str());
        if chars_eq(&k, key) {
            assert(m[i as int].0 == key@);
            return Some(i);
        }
        i = i + 1;
    }
    None
}

/// Whether every record is class IN with TTL 300, filed under its own name.
pub open spec fn rr_wf(v: Seq<(String, Vec<Record>)>) -> bool {
    &&& rr_keys_distinct(rr_entries(v))
    &&& forall|i: int, j: int| 0 <= i < v.len() && 0 <= j < v[i].1@.len() ==> (#[trigger] v[i].1@[j]).class == CLASS_IN
        && v[i].1@[j].ttl == 300
}

fn insert_rr(v: &mut Vec<(String, Vec<Record>)>, r: Record)
    requires
        rr_wf(old(v)@),
        r.class == CLASS_IN,
        r.ttl == 300,
    ensures
        rr_entries(final(v)@) == add_rr(rr_entries(old(v)@), rr_spec(r)),
        rr_wf(final(v)@),
{
    let ghost m = rr_entries(v@);
    let ghost p = rr_spec(r);
    let ghost v0 = v@;
    proof {
        lemma_rr_index(m, r.name@);
    }
    let key = chars_of(r.name.as_str());
    match find_name(v, &key) {
        Some(i) => {
            let (k, mut list) = v.remove(i);
            let ghost before = list@;
            list.push(r);
            v.insert(i, (k, list));
            proof {
                assert(list@.map_values(|x: Record| rr_spec(x)) =~= before.map_values(|x: Record| rr_spec(x)).push(p));
                assert(rr_entries(v@) =~= m.update(i as int, (p.0, m[i as int].1.push(p))));
                assert forall|a: int, b: int| 0 <= a < v@.len() && 0 <= b < v@[a].1@.len() implies (#[trigger] v@[a].1@[b]).class
                    == CLASS_IN && v@[a].1@[b].ttl == 300 by {
                    if a != i {
                        assert(v@[a] == v0[a]);
                    } else if b < before.len() {
                        assert(v@[a].1@[b] == v0[a].1@[b]);
                    }
                }
                lemma_rr_distinct_update(m, i as int, (p.0, m[i as int].1.push(p)));
            }
        },
        None => {
            let name = r.name.clone();
            let mut list: Vec<Record> = Vec::new();
            let ghost rg = r;
            list.push(r);
            v.push((name, list));
            proof {
                assert(list@ =~= seq![rg]);
                assert(list@.map_values(|x: Record| rr_spec(x)) =~= seq![p]);
                assert(rr_entries(v@) =~= m.push((p.0, seq![p])));
                assert forall|a: int, b: int| 0 <= a < v@.len() && 0 <= b < v@[a].1@.len() implies (#[trigger] v@[a].1@[b]).class
                    == CLASS_IN && v@[a].1@[b].ttl == 300 by {
                    if a < v0.len() {
                        assert(v@[a] == v0[a]);
                    }
                }
            }
        },
    }
}

proof fn lemma_rr_distinct_update(m: Seq<(Seq<char>, Seq<RRSpec>)>, i: int, e: (Seq<char>, Seq<RRSpec>))
    requires
        rr_keys_distinct(m),
        0 <= i < m.len(),
        e.0 == m[i].0,
    ensures
        rr_keys_distinct(m.update(i, e)),
{
    let n = m.update(i, e);
    assert forall|a: int, b: int| 0 <= a < b < n.len() implies n[a].0 != n[b].0 by {
        assert(n[a].0 == m[a].0 && n[b].0 == m[b].0);
    }
}

/// The entries after the inline rules in order, or the error of the first
/// rule that is not a record line.
pub open spec fn load_rules(m: Seq<(Seq<char>, Seq<RRSpec>)>, rules: Seq<Seq<char>>) -> Result<Seq<(Seq<char>, Seq<RRSpec>)>, ErrView>
    decreases rules.len(),
{
    if rules.len() == 0 {
        Ok(m)
    } else {
        match load_rules(m, rules.drop_last()) {
            Err(e) => Err(e),
            Ok(m2) => {
                let line = rules.last();
                match rr_line(line) {
                    Some(p) => Ok(add_rr(m2, p)),
                    None => Err(
                        ErrView::FileParse {
                            path: "inline rule #"@ + dec((rules.len() - 1) as nat),
                            reason: "failed to parse: "@ + line,
                        },
                    ),
                }
            },
        }
    }
}

/// Whether a file line is skipped: blank, or a `;` or `#` comment.
pub open spec fn skipped_line(l: Seq<char>) -> bool {
    let t = trim(l);
    t.len() == 0 || t[0] == ';' || t[0] == '#'
}

/// The entries after a file's lines in order (numbered from 1 in errors).
pub open spec fn load_lines(m: Seq<(Seq<char>, Seq<RRSpec>)>, path: Seq<char>, ls: Seq<Seq<char>>) -> Result<Seq<(Seq<char>, Seq<RRSpec>)>, ErrView>
    decreases ls.len(),
{
    if ls.len() == 0 {
        Ok(m)
    } else {
        match load_lines(m, path, ls.drop_last()) {
            Err(e) => Err(e),
            Ok(m2) => {
                let l = ls.last();
                if skipped_line(l) {
                    Ok(m2)
                } else {
                    match rr_line(trim(l)) {
                        Some(p) => Ok(add_rr(m2, p)),
                        None => Err(ErrView::FileParse { path, reason: "failed to parse line "@ + dec(ls.len())}),
                    }
                }
            },
        }
    }
}

/// The entries after the files in order, each given with its text or the
/// error reading it.
pub open spec fn load_files(m: Seq<(Seq<char>, Seq<RRSpec>)>, files: Seq<(Seq<char>, Result<Seq<char>, Seq<char>>)>) -> Result<Seq<(Seq<char>, Seq<RRSpec>)>, ErrView>
    decreases files.len(),
{
    if files.len() == 0 {
        Ok(m)
    } else {
        match load_files(m, files.drop_last()) {
            Err(e) => Err(e),
            Ok(m2) => {
                let (path, text) = files.last();
                match text {
                    Err(e) => Err(ErrView::FileParse { path, reason: "failed to read: "@ + e }),
                    Ok(t) => load_lines(m2, path, lines_of(t)),
                }
            },
        }
    }
}

/// The files with their contents as values.
pub open spec fn file_views(paths: Seq<String>, texts: Seq<Result<String, String>>) -> Seq<(Seq<char>, Result<Seq<char>, Seq<char>>)> {
    Seq::new(
        paths.len(),
        |i: int| (paths[i]@, match texts[i] {
            Ok(t) => Ok(t@),
            Err(e) => Err(e@),
        }),
    )
}

/// The texts of the inline rules.
pub open spec fn rules_view(rules: Option<Vec<String>>) -> Seq<Seq<char>> {
    match rules {
        Some(r) => r@.map_values(|s: String| s@),
        None => Seq::empty(),
    }
}

/// The records of the rules, then of the files (each given with its text or
/// read error, in the order of `args.files`).
pub open spec fn arbitrary_entries(args: ArbitraryArgs, texts: Seq<Result<String, String>>) -> Result<Seq<(Seq<char>, Seq<RRSpec>)>, ErrView> {
    match load_rules(Seq::empty(), rules_view(args.rules)) {
        Err(e) => Err(e),
        Ok(m) => match args.files {
            Some(f) => load_files(m, file_views(f@, texts)),
            None => Ok(m),
        },
    }
}

/// Serves fixed records for configured names.
#[derive(Debug)]
pub struct ArbitraryPlugin {
    pub map: Vec<(String, Vec<Record>)>,
}

proof fn lemma_rules_err_sticks(m: Seq<(Seq<char>, Seq<RRSpec>)>, rules: Seq<Seq<char>>, k: int)
    requires
        0 <= k <= rules.len(),
        load_rules(m, rules.take(k)) is Err,
    ensures
        load_rules(m, rules) == load_rules(m, rules.take(k)),
    decreases rules.len() - k,
{
    if k < rules.len() {
        assert(rules.take(k + 1).drop_last() =~= rules.take(k));
        lemma_rules_err_sticks(m, rules, k + 1);
    } else {
        assert(rules.take(k) =~= rules);
    }
}

proof fn lemma_lines_err_sticks(m: Seq<(Seq<char>, Seq<RRSpec>)>, path: Seq<char>, ls: Seq<Seq<char>>, k: int)
    requires
        0 <= k <= ls.len(),
        load_lines(m, path, ls.take(k)) is Err,
    ensures
        load_lines(m, path, ls) == load_lines(m, path, ls.take(k)),
    decreases ls.len() - k,
{
    if k < ls.len() {
        assert(ls.take(k + 1).drop_last() =~= ls.take(k));
        lemma_lines_err_sticks(m, path, ls, k + 1);
    } else {
        assert(ls.take(k) =~= ls);
    }
}

proof fn lemma_files_err_sticks(m: Seq<(Seq<char>, Seq<RRSpec>)>, files: Seq<(Seq<char>, Result<Seq<char>, Seq<char>>)>, k: int)
    requires
        0 <= k <= files.len(),
        load_files(m, files.take(k)) is Err,
    ensures
        load_files(m, files) == load_files(m, files.take(k)),
    decreases files.len() - k,
{
    if k < files.len() {
        assert(files.take(k + 1).drop_last() =~= files.take(k));
        lemma_files_err_sticks(m, files, k + 1);
    } else {
        assert(files.take(k) =~= files);
    }
}

fn file_error(path: &String, reason: Vec<char>) -> (e: PluginError)
    ensures
        e.view() == (ErrView::FileParse { path: path@, reason: reason@ }),
{
    PluginError::FileParse { path: path.clone(), reason: string_from_chars(&reason) }
}

/// Loads one file's text into the entries (see [`load_lines`]).
fn load_text(map: &mut Vec<(String, Vec<Record>)>, path: &String, text: &String) -> (r: Result<(), PluginError>)
    requires
        rr_wf(old(map)@),
    ensures
        rr_wf(final(map)@),
        match load_lines(rr_entries(old(map)@), path@, lines_of(text@)) {
            Ok(m) => r is Ok && rr_entries(final(map)@) == m,
            Err(e) => r matches Err(x) && x.view() == e,
        },
{
    let ls = lines(text.as_str());
    let ghost lv = views(ls@);
    let ghost m0 = rr_entries(map@);
    let mut i: usize = 0;
    assert(lv.take(0) =~= Seq::<Seq<char>>::empty());
    while i < ls.len()
        invariant
            lv == views(ls@),
            lv == lines_of(text@),
            m0 == rr_entries(old(map)@),
            i <= ls@.len(),
            rr_wf(map@),
            load_lines(m0, path@, lv.take(i as int)) == Ok::<Seq<(Seq<char>, Seq<RRSpec>)>, ErrView>(rr_entries(map@)),
        decreases ls.len() - i,
    {
        proof {
            assert(lv.take(i + 1).drop_last() =~= lv.take(i as int));
            assert(lv.take(i + 1).last() == ls@[i as int]@);
        }
        let line = trim_chars(&ls[i]);
        if line.len() == 0 || line[0] == ';' || line[0] == '#' {
            i = i + 1;
            continue;
        }
        match parse_rr_line(string_from_chars(&line).as_str()) {
            Some(rr) => {
                insert_rr(map, rr);
            },
            None => {
                proof {
                    assert(lv.take(i + 1).len() == i + 1);
                    assert(load_lines(m0, path@, lv.take(i + 1)) == Err::<Seq<(Seq<char>, Seq<RRSpec>)>, ErrView>(
                        ErrView::FileParse { path: path@, reason: "failed to parse line "@ + dec((i + 1) as nat) },
                    ));
                    lemma_lines_err_sticks(m0, path@, lv, i + 1);
                }
                let mut reason = chars_of("failed to parse line ");
                let d = dec_chars((i + 1) as u64);
                append_chars(&mut reason, &d);
                return Err(file_error(path, reason));
            },
        }
        i = i + 1;
    }
    assert(lv.take(lv.len() as int) =~= lv);
    Ok(())
}

impl ArbitraryPlugin {
    /// The records by name, as values.
    pub open spec fn view(&self) -> Seq<(Seq<char>, Seq<RRSpec>)> {
        rr_entries(self.map@)
    }

    /// Builds the records from the inline rules, then from the files, whose
    /// texts (or read errors) are given in the order of `args.files` (see
    /// [`arbitrary_entries`]).
    pub fn new(args: ArbitraryArgs, texts: Vec<Result<String, String>>) -> (r: Result<ArbitraryPlugin, PluginError>)
        requires
            match args.files {
                Some(f) => texts@.len() == f@.len(),
                None => true,
            },
        ensures
            match arbitrary_entries(args, texts@) {
                Ok(m) => r matches Ok(p) && p.view() == m && rr_wf(p.map@),
                Err(e) => r matches Err(x) && x.view() == e,
            },
    {
        let mut map: Vec<(String, Vec<Record>)> = Vec::new();
        assert(rr_entries(map@) =~= Seq::<(Seq<char>, Seq<RRSpec>)>::empty());
        let ghost rules_v = rules_view(args.rules);
        match &args.rules {
            Some(rules) => {
                let mut i: usize = 0;
                assert(rules_v.take(0) =~= Seq::<Seq<char>>::empty());
                while i < rules.len()
                    invariant
                        rules_v == rules@.map_values(|s: String| s@),
                        rules_v == rules_view(args.rules),
                        i <= rules@.len(),
                        rr_wf(map@),
                        load_rules(Seq::empty(), rules_v.take(i as int)) == Ok::<Seq<(Seq<char>, Seq<RRSpec>)>, ErrView>(rr_entries(map@)),
                    decreases rules.len() - i,
                {
                    proof {
                        assert(rules_v.take(i + 1).drop_last() =~= rules_v.take(i as int));
                        assert(rules_v.take(i + 1).last() == rules@[i as int]@);
                        assert(rules_v.take(i + 1).len() - 1 == i);
                    }
                    match parse_rr_line(rules[i].as_str()) {
                        Some(rr) => {
                            insert_rr(&mut map, rr);
                        },
                        None => {
                            proof {
                                lemma_rules_err_sticks(Seq::empty(), rules_v, i + 1);
                            }
                            let mut path = chars_of("inline rule #");
                            let d = dec_chars(i as u64);
                            append_chars(&mut path, &d);
                            let mut reason = chars_of("failed to parse: ");
                            let l = chars_of(rules[i].as_str());
                            append_chars(&mut reason, &l);
                            return Err(
                                PluginError::FileParse {
                                    path: string_from_chars(&path),
                                    reason: string_from_chars(&reason),
                                },
                            );
                        },
                    }
                    i = i + 1;
                }
                assert(rules_v.take(rules_v.len() as int) =~= rules_v);
            },
            None => {},
        }
        let ghost m1 = rr_entries(map@);
        assert(load_rules(Seq::empty(), rules_view(args.rules)) == Ok::<Seq<(Seq<char>, Seq<RRSpec>)>, ErrView>(m1));
        match &args.files {
            Some(files) => {
                let ghost fv = file_views(files@, texts@);
                let mut i: usize = 0;
                assert(fv.take(0) =~= Seq::<(Seq<char>, Result<Seq<char>, Seq<char>>)>::empty());
                while i < files.len()
                    invariant
                        fv == file_views(files@, texts@),
                        args.files == Some(*files),
                        load_rules(Seq::empty(), rules_view(args.rules)) == Ok::<Seq<(Seq<char>, Seq<RRSpec>)>, ErrView>(m1),
                        texts@.len() == files@.len(),
                        i <= files@.len(),
                        rr_wf(map@),
                        load_files(m1, fv.take(i as int)) == Ok::<Seq<(Seq<char>, Seq<RRSpec>)>, ErrView>(rr_entries(map@)),
                    decreases files.len() - i,
                {
                    proof {
                        assert(fv.take(i + 1).drop_last() =~= fv.take(i as int));
                        assert(fv.take(i + 1).last() == fv[i as int]);
                    }
                    match &texts[i] {
                        Err(e) => {
                            proof {
                                lemma_files_err_sticks(m1, fv, i + 1);
                            }
                            let mut reason = chars_of("failed to read: ");
                            let ec = chars_of(e.as_str());
                            append_chars(&mut reason, &ec);
                            return Err(file_error(&files[i], reason));
                        },
                        Ok(t) => {
                            match load_text(&mut map, &files[i], t) {
                                Ok(()) => {},
                                Err(e) => {
                                    proof {
                                        lemma_files_err_sticks(m1, fv, i + 1);
                                    }
                                    return Err(e);
                                },
                            }
                        },
                    }
                    i = i + 1;
                }
                assert(fv.take(fv.len() as int) =~= fv);
            },
            None => {},
        }
        Ok(ArbitraryPlugin { map })
    }

    /// The plugin's registered name.
    pub fn name(&self) -> (s: &'static str)
        ensures
            s@ == "arbitrary"@,
    {
        "arbitrary"
    }

    /// The number of names with records.
    pub fn len(&self) -> (n: usize)
        ensures
            n == self.view().len(),
    {
        self.map.len()
    }

    /// Whether no name has records.
    pub fn is_empty(&self) -> (b: bool)
        ensures
            b == (self.view().len() == 0),
    {
        self.map.len() == 0
    }

    /// The records of a name, as given (no trailing dots).
    pub fn get_records(&self, name: &str) -> (r: Option<Vec<Record>>)
        requires
            rr_wf(self.map@),
        ensures
            ({
                let i = rr_index(self.view(), name@);
                &&& i < 0 ==> r is None
                &&& i >= 0 ==> (r matches Some(v) && records_same(v@, self.map@[i].1@))
            }),
    {
        let key = chars_of(name);
        match find_name(&self.map, &key) {
            Some(i) => Some(copy_records(&self.map[i].1)),
            None => None,
        }
    }

    /// Answers a query whose first question's name (without trailing dots)
    /// has records: the response has the request's id, that question and
    /// those records. Returns whether it answered.
    pub fn execute(&self, ctx: &mut Context) -> (answered: bool)
        requires
            rr_wf(self.map@),
        ensures
            final(ctx).request == old(ctx).request,
            final(ctx).client_ip == old(ctx).client_ip,
            final(ctx).set_entries == old(ctx).set_entries,
            final(ctx).returned == old(ctx).returned,
            final(ctx).tag == old(ctx).tag,
            answered == (old(ctx).request.questions@.len() > 0 && rr_index(
                self.view(),
                trim_end_char(old(ctx).request.questions@[0].qname@, '.'),
            ) >= 0),
            !answered ==> final(ctx).response == old(ctx).response,
            answered ==> (final(ctx).response matches Some(m) && m.id == old(ctx).request.id && m.is_response
                && m.questions@ == seq![old(ctx).request.questions@[0]] && records_same(
                m.answers@,
                self.map@[rr_index(self.view(), trim_end_char(old(ctx).request.questions@[0].qname@, '.'))].1@,
            ) && m.authority@.len() == 0 && m.additional@.len() == 0),
    {
        if ctx.request.questions.len() == 0 {
            return false;
        }
        let key = trim_end_char_exec(&chars_of(ctx.request.questions[0].qname.as_str()), '.');
        match find_name(&self.map, &key) {
            Some(i) => {
                let mut msg = Message::new();
                msg.id = ctx.request.id;
                msg.is_response = true;
                let q = copy_question(&ctx.request.questions[0]);
                let ghost gq = q;
                msg.questions.push(q);
                assert(msg.questions@ =~= seq![gq]);
                msg.answers = copy_records(&self.map[i].1);
                ctx.response = Some(msg);
                true
            },
            None => false,
        }
    }
}

} // verus!
