//! Plugins that rewrite or filter the records of a response: TTL rewriting,
//! IPv4/IPv6 selection, dropping the response and stopping a sequence.

use vstd::prelude::*;
use vstd::std_specs::iter::IteratorSpec;
use crate::dns::{Context, Message, Record, TYPE_A, TYPE_AAAA};
use crate::error::PluginError;
use crate::error::ErrView;
use crate::text::{chars_eq, chars_of, contains_chars, contains_seq, find_char, first_of, parse_unsigned, parse_unsigned_chars, slice_chars, split_on, trim, trim_chars};

verus! {

/// `records` with every TTL replaced by `f` of it, other fields unchanged.
pub open spec fn map_ttl(records: Seq<Record>, f: spec_fn(u32) -> u32) -> Seq<Record> {
    records.map_values(|r: Record| Record { ttl: f(r.ttl), ..r })
}

/// The records of `records` whose type is not `t`, in order.
pub open spec fn without_type(records: Seq<Record>, t: u16) -> Seq<Record> {
    records.filter(|r: Record| r.rtype != t)
}

/// Whether some record of `records` has type `t`.
pub open spec fn has_type(records: Seq<Record>, t: u16) -> bool {
    exists|i: int| 0 <= i < records.len() && (#[trigger] records[i]).rtype == t
}

/// Removes the records of type `t`, keeping the others in order.
pub fn remove_type(v: &mut Vec<Record>, t: u16)
    ensures
        final(v)@ == without_type(old(v)@, t),
{
    let mut all: Vec<Record> = Vec::new();
        std::mem::swap(&mut all, v);
    let ghost src = all@;
    let mut out: Vec<Record> = Vec::new();
    for r in it: all
        invariant
            it.seq() == src,
            out@ == src.take(it.index() as int).filter(|r: Record| r.rtype != t),
    {
        proof {
            let k = it.index() as int;
            assert(src.take(k + 1).drop_last() =~= src.take(k));
            reveal_with_fuel(Seq::<Record>::filter, 1);
        }
        if r.rtype != t {
            out.push(r);
        }
    }
    proof {
        assert(src.take(src.len() as int) =~= src);
    }
    *v = out;
}

/// Whether some record has type `t`.
pub fn any_type(v: &Vec<Record>, t: u16) -> (b: bool)
    ensures
        b == has_type(v@, t),
{
    let mut i: usize = 0;
    while i < v.len()
        invariant
            i <= v@.len(),
            forall|j: int| 0 <= j < i ==> v@[j].rtype != t,
        decreases v.len() - i,
    {
        if v[i].rtype == t {
            return true;
        }
        i = i + 1;
    }
    false
}

/// The TTL a record gets: the fixed TTL when set, else the TTL raised to the
/// minimum and lowered to the maximum (a zero bound is not applied).
pub open spec fn ttl_rule(fix: u32, min: u32, max: u32, t: u32) -> u32 {
    if fix > 0 {
        fix
    } else {
        let t1 = if min > 0 && t < min {
            min
        } else {
            t
        };
        if max > 0 && t1 > max {
            max
        } else {
            t1
        }
    }
}

/// The TTL rule keeps TTLs within the configured bounds: a fixed TTL wins;
/// otherwise a non-zero minimum is never undercut (when it does not exceed
/// a non-zero maximum) and a non-zero maximum is never exceeded.
pub proof fn lemma_ttl_within_bounds(fix: u32, min: u32, max: u32, t: u32)
    ensures
        fix > 0 ==> ttl_rule(fix, min, max, t) == fix,
        fix == 0 && max > 0 ==> ttl_rule(fix, min, max, t) <= max,
        fix == 0 && min > 0 && (max == 0 || min <= max) ==> ttl_rule(fix, min, max, t) >= min,
        fix == 0 && (min == 0 || t >= min) && (max == 0 || t <= max) ==> ttl_rule(fix, min, max, t) == t,
{
}

/// Rewrites or clamps record TTLs.
#[derive(Debug)]
pub struct TtlPlugin {
    pub fix: u32,
    pub min: u32,
    pub max: u32,
}

impl TtlPlugin {
    /// A plugin with a fixed TTL (0 = none) and TTL bounds (0 = none).
    pub fn new(fix: u32, min: u32, max: u32) -> (p: TtlPlugin)
        ensures
            p.fix == fix,
            p.min == min,
            p.max == max,
    {
        TtlPlugin { fix, min, max }
    }

    /// The plugin's registered name.
    pub fn name(&self) -> (s: &'static str)
        ensures
            s@ == "ttl"@,
    {
        "ttl"
    }

    fn new_ttl(&self, t: u32) -> (r: u32)
        ensures
            r == ttl_rule(self.fix, self.min, self.max, t),
    {
        if self.fix > 0 {
            self.fix
        } else {
            let t1 = if self.min > 0 && t < self.min {
                self.min
            } else {
                t
            };
            if self.max > 0 && t1 > self.max {
                self.max
            } else {
                t1
            }
        }
    }

    fn apply_records(&self, v: &mut Vec<Record>)
        ensures
            final(v)@ == map_ttl(old(v)@, |t: u32| ttl_rule(self.fix, self.min, self.max, t)),
    {
        let mut all: Vec<Record> = Vec::new();
        std::mem::swap(&mut all, v);
        let ghost src = all@;
        let ghost f = |t: u32| ttl_rule(self.fix, self.min, self.max, t);
        let mut out: Vec<Record> = Vec::new();
        for r in it: all
            invariant
                it.seq() == src,
                f == (|t: u32| ttl_rule(self.fix, self.min, self.max, t)),
                out@ == map_ttl(src.take(it.index() as int), f),
        {
            let mut r = r;
            let ghost k = it.index() as int;
            r.ttl = self.new_ttl(r.ttl);
            out.push(r);
            proof {
                assert(map_ttl(src.take(k + 1), f) =~= map_ttl(src.take(k), f).push(
                    Record { ttl: f(src[k].ttl), ..src[k] },
                ));
            }
        }
        proof {
            assert(src.take(src.len() as int) =~= src);
        }
        *v = out;
    }

    /// Applies the TTL rule to every answer, authority and additional record.
    pub fn apply(&self, resp: &mut Message)
        ensures
            final(resp).answers@ == map_ttl(old(resp).answers@, |t: u32| ttl_rule(self.fix, self.min, self.max, t)),
            final(resp).authority@ == map_ttl(old(resp).authority@, |t: u32| ttl_rule(self.fix, self.min, self.max, t)),
            final(resp).additional@ == map_ttl(old(resp).additional@, |t: u32| ttl_rule(self.fix, self.min, self.max, t)),
            final(resp).questions == old(resp).questions,
            final(resp).id == old(resp).id,
            final(resp).rcode == old(resp).rcode,
            final(resp).is_response == old(resp).is_response,
            final(resp).authentic_data == old(resp).authentic_data,
            final(resp).checking_disabled == old(resp).checking_disabled,
    {
        self.apply_records(&mut resp.answers);
        self.apply_records(&mut resp.authority);
        self.apply_records(&mut resp.additional);
    }

    /// Applies the TTL rule to the response, when there is one.
    pub fn execute(&self, ctx: &mut Context)
        ensures
            final(ctx).request == old(ctx).request,
            final(ctx).client_ip == old(ctx).client_ip,
            final(ctx).set_entries == old(ctx).set_entries,
            final(ctx).returned == old(ctx).returned,
            final(ctx).tag == old(ctx).tag,
            old(ctx).response is None ==> final(ctx).response is None,
            old(ctx).response matches Some(o) ==> final(ctx).response matches Some(n) && n.answers@
                == map_ttl(o.answers@, |t: u32| ttl_rule(self.fix, self.min, self.max, t))
                && n.authority@ == map_ttl(o.authority@, |t: u32| ttl_rule(self.fix, self.min, self.max, t))
                && n.additional@ == map_ttl(o.additional@, |t: u32| ttl_rule(self.fix, self.min, self.max, t))
                && n.id == o.id && n.rcode == o.rcode && n.questions == o.questions,
    {
        match ctx.response.take() {
            Some(mut resp) => {
                self.apply(&mut resp);
                ctx.response = Some(resp);
            },
            None => {},
        }
    }

    /// Sets the plugin up from its exec form `ttl <n>` (fixed TTL) or
    /// `ttl <min>-<max>`; an unreadable number counts as 0.
    pub fn quick_setup(prefix: &str, exec_str: &str) -> (r: Result<TtlPlugin, PluginError>)
        ensures
            match ttl_exec(prefix@, exec_str@) {
                Ok((f, l, u)) => r is Ok && r->Ok_0.fix == f && r->Ok_0.min == l && r->Ok_0.max == u,
                Err(e) => r is Err && r->Err_0.view() == e,
            },
    {
        let p = chars_of(prefix);
        let ttl = chars_of("ttl");
        if !chars_eq(&p, &ttl) {
            return Err(crate::sets::unsupported_prefix(prefix, "ttl"));
        }
        let e = chars_of(exec_str);
        let dash = chars_of("-");
        proof {
            reveal_strlit("-");
        }
        if contains_chars(&e, &dash) {
            let k = find_char(&e, '-');
            proof {
                if k >= e@.len() {
                    let w = choose|i: int| crate::text::occurs_at(e@, "-"@, i);
                    assert(e@.subrange(w, w + 1)[0] == e@[w]);
                }
            }
            let first = slice_chars(&e, 0, k);
            let second = slice_chars(&e, k + 1, e.len());
            let l = match parse_unsigned_chars(&first, 0xffff_ffff) {
                Some(v) => v as u32,
                None => 0,
            };
            let u = match parse_unsigned_chars(&second, 0xffff_ffff) {
                Some(v) => v as u32,
                None => 0,
            };
            Ok(TtlPlugin::new(0, l, u))
        } else {
            let f = match parse_unsigned_chars(&e, 0xffff_ffff) {
                Some(v) => v as u32,
                None => 0,
            };
            Ok(TtlPlugin::new(f, 0, 0))
        }
    }

    /// Settings from configuration values `ttl`, `min`, `max` (absent = 0,
    /// truncated to 32 bits); when all three are 0 the TTL is fixed at 300.
    pub fn from_args(ttl: Option<i64>, min: Option<i64>, max: Option<i64>) -> (p: TtlPlugin)
        ensures
            ({
                let t = (match ttl { Some(v) => v, None => 0 }) as u32;
                let l = (match min { Some(v) => v, None => 0 }) as u32;
                let u = (match max { Some(v) => v, None => 0 }) as u32;
                if t == 0 && l == 0 && u == 0 {
                    p.fix == 300 && p.min == 0 && p.max == 0
                } else {
                    p.fix == t && p.min == l && p.max == u
                }
            }),
    {
        let t = (match ttl {
            Some(v) => v,
            None => 0,
        }) as u32;
        let l = (match min {
            Some(v) => v,
            None => 0,
        }) as u32;
        let u = (match max {
            Some(v) => v,
            None => 0,
        }) as u32;
        if t == 0 && l == 0 && u == 0 {
            TtlPlugin::new(300, 0, 0)
        } else {
            TtlPlugin::new(t, l, u)
        }
    }
}

/// A parsed `u32`, or 0 when the text is not one.
pub open spec fn u32_or_zero(s: Seq<char>) -> u32 {
    match parse_unsigned(s, 0xffff_ffff) {
        Some(v) => v as u32,
        None => 0,
    }
}

/// What `ttl <exec_str>` yields: `(fix, min, max)`.
pub open spec fn ttl_exec(prefix: Seq<char>, exec_str: Seq<char>) -> Result<(u32, u32, u32), ErrView> {
    if prefix != "ttl"@ {
        Err(
            ErrView::Config(
                "ExecPlugin quick_setup: unsupported prefix '"@ + prefix + "', expected '"@ + "ttl"@ + "'"@,
            ),
        )
    } else if contains_seq(exec_str, "-"@) {
        let k = first_of(exec_str, '-');
        Ok((0, u32_or_zero(exec_str.take(k)), u32_or_zero(exec_str.skip(k + 1))))
    } else {
        Ok((u32_or_zero(exec_str), 0, 0))
    }
}

/// IP version preference for the dual selector.
#[derive(Debug, Clone, Copy, PartialEq, Eq)]
pub enum IpPreference {
    /// Prefer IPv4 (A records)
    IPv4,
    /// Prefer IPv6 (AAAA records)
    IPv6,
    /// Prefer IPv4, but allow IPv6 if no IPv4
    IPv4PreferIPv6Fallback,
    /// Prefer IPv6, but allow IPv4 if no IPv6
    IPv6PreferIPv4Fallback,
    /// Keep both IPv4 and IPv6
    Both,
}

/// The answers the dual selector keeps.
pub open spec fn select_answers(pref: IpPreference, answers: Seq<Record>) -> Seq<Record> {
    match pref {
        IpPreference::IPv4 => without_type(answers, TYPE_AAAA),
        IpPreference::IPv6 => without_type(answers, TYPE_A),
        IpPreference::IPv4PreferIPv6Fallback => if has_type(answers, TYPE_A) {
            without_type(answers, TYPE_AAAA)
        } else {
            answers
        },
        IpPreference::IPv6PreferIPv4Fallback => if has_type(answers, TYPE_AAAA) {
            without_type(answers, TYPE_A)
        } else {
            answers
        },
        IpPreference::Both => answers,
    }
}

/// What a selector with preference `pref` does to a context `o`, giving
/// `n`: the response's answers are filtered as [`select_answers`] says, and
/// nothing else changes.
pub open spec fn dual_selected(pref: IpPreference, o: Context, n: Context) -> bool {
    &&& n.request == o.request
    &&& n.client_ip == o.client_ip
    &&& n.returned == o.returned
    &&& n.tag == o.tag
    &&& n.set_entries == o.set_entries
    &&& match o.response {
        None => n.response is None,
        Some(om) => n.response matches Some(nm) && nm == (Message { answers: nm.answers, ..om })
            && nm.answers@ == select_answers(pref, om.answers@),
    }
}

/// Whether two contexts hold the same values: equal fields, and responses
/// that are both absent or differ at most in how their answer lists (with
/// equal contents) are held.
pub open spec fn contexts_agree(a: Context, b: Context) -> bool {
    &&& a.request == b.request
    &&& a.client_ip == b.client_ip
    &&& a.returned == b.returned
    &&& a.tag == b.tag
    &&& a.set_entries == b.set_entries
    &&& match (a.response, b.response) {
        (None, None) => true,
        (Some(x), Some(y)) => x.answers@ == y.answers@ && y == (Message { answers: y.answers, ..x }),
        _ => false,
    }
}

/// A selector's run depends on its preference alone, so `prefer_ipv4()`
/// acts on every context as `new(IpPreference::IPv4)` does, and
/// `prefer_ipv6()` as `new(IpPreference::IPv6)`: two runs with the same
/// preference on the same context leave contexts that agree.
pub proof fn lemma_same_preference_same_outcome(pref: IpPreference, o: Context, n1: Context, n2: Context)
    requires
        dual_selected(pref, o, n1),
        dual_selected(pref, o, n2),
    ensures
        contexts_agree(n1, n2),
{
}

/// Filters response answers by IP version preference.
#[derive(Debug)]
pub struct DualSelectorPlugin {
    pub preference: IpPreference,
}

impl DualSelectorPlugin {
    /// A selector with this preference.
    pub fn new(preference: IpPreference) -> (p: DualSelectorPlugin)
        ensures
            p.preference == preference,
    {
        DualSelectorPlugin { preference }
    }

    /// A selector keeping only IPv4 answers.
    pub fn prefer_ipv4() -> (p: DualSelectorPlugin)
        ensures
            p.preference == IpPreference::IPv4,
    {
        DualSelectorPlugin { preference: IpPreference::IPv4 }
    }

    /// A selector keeping only IPv6 answers.
    pub fn prefer_ipv6() -> (p: DualSelectorPlugin)
        ensures
            p.preference == IpPreference::IPv6,
    {
        DualSelectorPlugin { preference: IpPreference::IPv6 }
    }

    /// The plugin's registered name.
    pub fn name(&self) -> (s: &'static str)
        ensures
            s@ == "dual_selector"@,
    {
        "dual_selector"
    }

    /// Filters the answers of the response (when there is one); other
    /// sections and the rest of the context are unchanged.
    pub fn execute(&self, ctx: &mut Context)
        ensures
            dual_selected(self.preference, *old(ctx), *final(ctx)),
    {
        match ctx.response.take() {
            Some(mut resp) => {
                let has4 = any_type(&resp.answers, TYPE_A);
                let has6 = any_type(&resp.answers, TYPE_AAAA);
                match self.preference {
                    IpPreference::IPv4 => remove_type(&mut resp.answers, TYPE_AAAA),
                    IpPreference::IPv6 => remove_type(&mut resp.answers, TYPE_A),
                    IpPreference::IPv4PreferIPv6Fallback => {
                        if has4 {
                            remove_type(&mut resp.answers, TYPE_AAAA);
                        }
                    },
                    IpPreference::IPv6PreferIPv4Fallback => {
                        if has6 {
                            remove_type(&mut resp.answers, TYPE_A);
                        }
                    },
                    IpPreference::Both => {},
                }
                ctx.response = Some(resp);
            },
            None => {},
        }
    }
}

/// Drops AAAA records from the answers and additional records of responses
/// to A queries.
#[derive(Debug, Default, Clone, Copy)]
pub struct PreferIpv4Plugin;

impl PreferIpv4Plugin {
    pub fn new() -> (p: PreferIpv4Plugin) {
        PreferIpv4Plugin
    }

    /// The plugin's registered name.
    pub fn name(&self) -> (s: &'static str)
        ensures
            s@ == "prefer_ipv4"@,
    {
        "prefer_ipv4"
    }

    /// When the first question asks for A records and there is a response,
    /// its AAAA answers and AAAA additional records are removed.
    pub fn execute(&self, ctx: &mut Context)
        ensures
            final(ctx).request == old(ctx).request,
            final(ctx).client_ip == old(ctx).client_ip,
            final(ctx).set_entries == old(ctx).set_entries,
            final(ctx).returned == old(ctx).returned,
            final(ctx).tag == old(ctx).tag,
            ({
                let filter = old(ctx).request.questions@.len() > 0
                    && old(ctx).request.questions@[0].qtype == TYPE_A;
                match old(ctx).response {
                    None => final(ctx).response is None,
                    Some(o) => final(ctx).response matches Some(n)
                        && n.questions == o.questions && n.authority == o.authority
                        && n.id == o.id && n.rcode == o.rcode
                        && (filter ==> n.answers@ == without_type(o.answers@, TYPE_AAAA)
                            && n.additional@ == without_type(o.additional@, TYPE_AAAA))
                        && (!filter ==> n.answers == o.answers && n.additional == o.additional),
                }
            }),
    {
        let filter = ctx.request.questions.len() > 0 && ctx.request.questions[0].qtype == TYPE_A;
        if filter {
            match ctx.response.take() {
                Some(mut resp) => {
                    remove_type(&mut resp.answers, TYPE_AAAA);
                    remove_type(&mut resp.additional, TYPE_AAAA);
                    ctx.response = Some(resp);
                },
                None => {},
            }
        }
    }

    /// Sets the plugin up from its exec form; the prefix must be `prefer_ipv4`.
    pub fn quick_setup(prefix: &str, exec_str: &str) -> (r: Result<PreferIpv4Plugin, PluginError>)
        ensures
            r is Ok <==> prefix@ == "prefer_ipv4"@,
            r matches Err(e) ==> e.view() == crate::sets::prefix_error_view(prefix@, "prefer_ipv4"@),
    {
        let p = chars_of(prefix);
        let want = chars_of("prefer_ipv4");
        if !chars_eq(&p, &want) {
            return Err(crate::sets::unsupported_prefix(prefix, "prefer_ipv4"));
        }
        Ok(PreferIpv4Plugin)
    }
}

/// Clears any response already set, so later plugins see none.
#[derive(Debug, Default)]
pub struct DropRespPlugin;

impl DropRespPlugin {
    pub fn new() -> (p: DropRespPlugin) {
        DropRespPlugin
    }

    /// The plugin's registered name.
    pub fn name(&self) -> (s: &'static str)
        ensures
            s@ == "drop_resp"@,
    {
        "drop_resp"
    }

    /// Removes the response; nothing else changes.
    pub fn execute(&self, ctx: &mut Context)
        ensures
            final(ctx).response is None,
            final(ctx).request == old(ctx).request,
            final(ctx).client_ip == old(ctx).client_ip,
            final(ctx).set_entries == old(ctx).set_entries,
            final(ctx).returned == old(ctx).returned,
            final(ctx).tag == old(ctx).tag,
    {
        ctx.response = None;
    }

    /// Sets the plugin up from its exec form; the prefix must be `drop_resp`
    /// and the rest is ignored.
    pub fn quick_setup(prefix: &str, exec_str: &str) -> (r: Result<DropRespPlugin, PluginError>)
        ensures
            r is Ok <==> prefix@ == "drop_resp"@,
            r matches Err(e) ==> e.view() == crate::sets::prefix_error_view(prefix@, "drop_resp"@),
    {
        let p = chars_of(prefix);
        let want = chars_of("drop_resp");
        if !chars_eq(&p, &want) {
            return Err(crate::sets::unsupported_prefix(prefix, "drop_resp"));
        }
        Ok(DropRespPlugin)
    }
}

/// Stops the current sequence by setting the return flag.
#[derive(Debug, Default, Clone, Copy)]
pub struct ReturnPlugin;

impl ReturnPlugin {
    pub fn new() -> (p: ReturnPlugin) {
        ReturnPlugin
    }

    /// The plugin's registered name.
    pub fn name(&self) -> (s: &'static str)
        ensures
            s@ == "return"@,
    {
        "return"
    }

    /// Sets the return flag; nothing else changes.
    pub fn execute(&self, ctx: &mut Context)
        ensures
            final(ctx).returned,
            final(ctx).response == old(ctx).response,
            final(ctx).request == old(ctx).request,
            final(ctx).client_ip == old(ctx).client_ip,
            final(ctx).set_entries == old(ctx).set_entries,
            final(ctx).tag == old(ctx).tag,
    {
        ctx.returned = true;
    }

    /// Sets the plugin up from its exec form `return`, which takes no
    /// arguments.
    pub fn quick_setup(prefix: &str, exec_str: &str) -> (r: Result<ReturnPlugin, PluginError>)
        ensures
            prefix@ != "return"@ ==> (r matches Err(e) && e.view() == crate::sets::prefix_error_view(prefix@, "return"@)),
            prefix@ == "return"@ && trim(exec_str@).len() != 0 ==> (r matches Err(e) && e.view()
                == ErrView::Config("return exec does not take any arguments"@)),
            r is Ok <==> prefix@ == "return"@ && trim(exec_str@).len() == 0,
    {
        let p = chars_of(prefix);
        let want = chars_of("return");
        if !chars_eq(&p, &want) {
            return Err(crate::sets::unsupported_prefix(prefix, "return"));
        }
        let e = chars_of(exec_str);
        let t = trim_chars(&e);
        if t.len() != 0 {
            return Err(PluginError::Config(crate::text::owned("return exec does not take any arguments")));
        }
        Ok(ReturnPlugin)
    }
}

} // verus!
