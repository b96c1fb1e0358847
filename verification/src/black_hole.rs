//! Answering A and AAAA queries with fixed sinkhole addresses.

use vstd::prelude::*;
use crate::config::{arg_get, get_arg, ConfigValue};
use crate::dns::{copy_question, Context, Message, Question, RData, Record, CLASS_IN, TYPE_A, TYPE_AAAA};
use crate::error::{ErrView, PluginError};
use crate::hosts::{string_items, strings_of, views_of_strings};
use crate::ip::{ipv4_parse, ipv6_parse, parse_ipv4, parse_ipv6};
use crate::text::{append_chars, chars_eq, chars_of, owned, split_char, split_on, string_from_chars, trim, trim_chars, views};

verus! {

/// The addresses a list of texts gives, `(IPv4, IPv6)` in order, or the
/// first text that is neither.
pub open spec fn sinkhole_addrs(ips: Seq<Seq<char>>) -> Result<(Seq<u32>, Seq<u128>), Seq<char>>
    decreases ips.len(),
{
    if ips.len() == 0 {
        Ok((Seq::empty(), Seq::empty()))
    } else {
        match sinkhole_addrs(ips.drop_last()) {
            Err(e) => Err(e),
            Ok((v4, v6)) => {
                let s = ips.last();
                match ipv4_parse(s) {
                    Some(a) => Ok((v4.push(a), v6)),
                    None => match ipv6_parse(s) {
                        Some(a) => Ok((v4, v6.push(a))),
                        None => Err(s),
                    },
                }
            },
        }
    }
}

/// The answers of a sinkhole for a question: one record per address (the
/// question's name, class IN, TTL 300).
pub open spec fn sink_answers_v4(q: Question, addrs: Seq<u32>) -> Seq<Record> {
    addrs.map_values(|a: u32| Record { name: q.qname, rtype: TYPE_A, class: CLASS_IN, ttl: 300, rdata: RData::A(a) })
}

/// The answers of a sinkhole for an AAAA question.
pub open spec fn sink_answers_v6(q: Question, addrs: Seq<u128>) -> Seq<Record> {
    addrs.map_values(|a: u128| Record { name: q.qname, rtype: TYPE_AAAA, class: CLASS_IN, ttl: 300, rdata: RData::AAAA(a) })
}

/// The response a sinkhole gives a request, if any: for a request with one
/// question of type A (or AAAA) and configured IPv4 (or IPv6) addresses, a
/// response with its id, the question, and one record per address.
pub open spec fn sink_response(v4: Seq<u32>, v6: Seq<u128>, req: Message, r: Message) -> bool {
    let q = req.questions@[0];
    &&& r.id == req.id
    &&& r.is_response
    &&& r.questions@ == seq![q]
    &&& r.answers@ == if q.qtype == TYPE_A { sink_answers_v4(q, v4) } else { sink_answers_v6(q, v6) }
    &&& r.authority@.len() == 0
    &&& r.additional@.len() == 0
}

/// Whether the sinkhole answers a request.
pub open spec fn sink_answers(v4: Seq<u32>, v6: Seq<u128>, req: Message) -> bool {
    req.questions@.len() == 1 && ((req.questions@[0].qtype == TYPE_A && v4.len() > 0) || (
    req.questions@[0].qtype == TYPE_AAAA && v6.len() > 0))
}

/// Answers A and AAAA queries with fixed addresses.
#[derive(Debug)]
pub struct BlackholePlugin {
    pub ipv4: Vec<u32>,
    pub ipv6: Vec<u128>,
}

/// The prefixes other than `blackhole` that name the plugin.
pub open spec fn alias_names() -> Seq<Seq<char>> {
    seq!["sinkhole"@, "black_hole"@, "null_dns"@]
}

/// The error for an exec-form prefix that does not name the plugin.
pub open spec fn blackhole_prefix_error(prefix: Seq<char>) -> ErrView {
    ErrView::Config(
        "ExecPlugin quick_setup: unsupported prefix '"@ + prefix
            + "', expected one of [\"sinkhole\", \"black_hole\", \"null_dns\"]"@,
    )
}

/// The addresses of the exec form: the comma-separated pieces, trimmed,
/// empty pieces dropped.
pub open spec fn exec_pieces(exec_str: Seq<char>) -> Seq<Seq<char>> {
    split_on(exec_str, ',').map_values(|p: Seq<char>| trim(p)).filter(|p: Seq<char>| p.len() > 0)
}

impl BlackholePlugin {
    /// The plugin from address texts, IPv4 and IPv6 kept apart in order; a
    /// text that is neither gives an invalid-address error.
    pub fn new_from_strs(ips: &[&str]) -> (r: Result<BlackholePlugin, PluginError>)
        ensures
            match sinkhole_addrs(ips@.map_values(|s: &str| s@)) {
                Ok((v4, v6)) => r matches Ok(p) && p.ipv4@ == v4 && p.ipv6@ == v6,
                Err(s) => r matches Err(e) && e.view() == (ErrView::InvalidAddress { input: s }),
            },
    {
        let ghost iv = ips@.map_values(|s: &str| s@);
        let mut ipv4: Vec<u32> = Vec::new();
        let mut ipv6: Vec<u128> = Vec::new();
        let mut i: usize = 0;
        assert(iv.take(0) =~= Seq::<Seq<char>>::empty());
        while i < ips.len()
            invariant
                iv == ips@.map_values(|s: &str| s@),
                i <= ips@.len(),
                sinkhole_addrs(iv.take(i as int)) == Ok::<(Seq<u32>, Seq<u128>), Seq<char>>((ipv4@, ipv6@)),
            decreases ips.len() - i,
        {
            proof {
                assert(iv.take(i + 1).drop_last() =~= iv.take(i as int));
                assert(iv.take(i + 1).last() == ips@[i as int]@);
            }
            let s = ips[i];
            match parse_ipv4(s) {
                Some(a) => {
                    ipv4.push(a);
                },
                None => match parse_ipv6(s) {
                    Some(a) => {
                        ipv6.push(a);
                    },
                    None => {
                        proof {
                            lemma_sink_err_sticks(iv, i + 1);
                        }
                        return Err(PluginError::InvalidAddress { input: owned(s) });
                    },
                },
            }
            i = i + 1;
        }
        assert(iv.take(iv.len() as int) =~= iv);
        Ok(BlackholePlugin { ipv4, ipv6 })
    }

    /// The plugin's registered name.
    pub fn name(&self) -> (s: &'static str)
        ensures
            s@ == "blackhole"@,
    {
        "blackhole"
    }

    /// The other names of the plugin.
    pub fn aliases() -> (r: Vec<&'static str>)
        ensures
            r@.map_values(|s: &str| s@) == alias_names(),
    {
        let mut r: Vec<&'static str> = Vec::new();
        r.push("sinkhole");
        r.push("black_hole");
        r.push("null_dns");
        assert(r@.map_values(|s: &str| s@) =~= alias_names());
        r
    }

    /// The response for a request (see [`sink_response`]), if it answers.
    pub fn make_response(&self, req: &Message) -> (r: Option<Message>)
        ensures
            sink_answers(self.ipv4@, self.ipv6@, *req) <==> r is Some,
            r matches Some(m) ==> sink_response(self.ipv4@, self.ipv6@, *req, m),
    {
        if req.questions.len() != 1 {
            return None;
        }
        let qt = req.questions[0].qtype;
        let is_a = qt == TYPE_A && self.ipv4.len() > 0;
        let is_aaaa = qt == TYPE_AAAA && self.ipv6.len() > 0;
        if !is_a && !is_aaaa {
            return None;
        }
        let q = copy_question(&req.questions[0]);
        let mut r = Message::new();
        r.id = req.id;
        r.is_response = true;
        let ghost gq = q;
        let name = q.qname.clone();
        r.questions.push(q);
        assert(r.questions@ =~= seq![gq]);
        if is_a {
            let mut i: usize = 0;
            while i < self.ipv4.len()
                invariant
                    i <= self.ipv4@.len(),
                    name == gq.qname,
                    r.answers@ == sink_answers_v4(gq, self.ipv4@.take(i as int)),
                    r.id == req.id,
                    r.is_response,
                    r.questions@ == seq![gq],
                    r.authority@.len() == 0,
                    r.additional@.len() == 0,
                decreases self.ipv4.len() - i,
            {
                let rec = Record { name: name.clone(), rtype: TYPE_A, class: CLASS_IN, ttl: 300, rdata: RData::A(self.ipv4[i]) };
                r.answers.push(rec);
                assert(self.ipv4@.take(i + 1) =~= self.ipv4@.take(i as int).push(self.ipv4@[i as int]));
                assert(r.answers@ =~= sink_answers_v4(gq, self.ipv4@.take(i + 1)));
                i = i + 1;
            }
            assert(self.ipv4@.take(self.ipv4@.len() as int) =~= self.ipv4@);
        } else {
            let mut i: usize = 0;
            assert(r.answers@ =~= sink_answers_v6(gq, self.ipv6@.take(0)));
            while i < self.ipv6.len()
                invariant
                    i <= self.ipv6@.len(),
                    name == gq.qname,
                    r.answers@ == sink_answers_v6(gq, self.ipv6@.take(i as int)),
                    r.id == req.id,
                    r.is_response,
                    r.questions@ == seq![gq],
                    r.authority@.len() == 0,
                    r.additional@.len() == 0,
                decreases self.ipv6.len() - i,
            {
                let rec = Record { name: name.clone(), rtype: TYPE_AAAA, class: CLASS_IN, ttl: 300, rdata: RData::AAAA(self.ipv6[i]) };
                r.answers.push(rec);
                assert(self.ipv6@.take(i + 1) =~= self.ipv6@.take(i as int).push(self.ipv6@[i as int]));
                assert(r.answers@ =~= sink_answers_v6(gq, self.ipv6@.take(i + 1)));
                i = i + 1;
            }
            assert(self.ipv6@.take(self.ipv6@.len() as int) =~= self.ipv6@);
        }
        Some(r)
    }

    /// Answers the query when it can (see [`BlackholePlugin::make_response`]);
    /// returns whether it did.
    pub fn execute(&self, ctx: &mut Context) -> (answered: bool)
        ensures
            final(ctx).request == old(ctx).request,
            final(ctx).client_ip == old(ctx).client_ip,
            final(ctx).set_entries == old(ctx).set_entries,
            final(ctx).returned == old(ctx).returned,
            final(ctx).tag == old(ctx).tag,
            answered == sink_answers(self.ipv4@, self.ipv6@, old(ctx).request),
            !answered ==> final(ctx).response == old(ctx).response,
            answered ==> (final(ctx).response matches Some(m) && sink_response(self.ipv4@, self.ipv6@, old(ctx).request, m)),
    {
        match self.make_response(&ctx.request) {
            Some(m) => {
                ctx.response = Some(m);
                true
            },
            None => false,
        }
    }

    /// Sets the plugin up from `ips`, a list whose strings are the
    /// addresses (none when absent).
    pub fn init(args: &Vec<(String, ConfigValue)>) -> (r: Result<BlackholePlugin, PluginError>)
        ensures
            ({
                let texts = match arg_get(args@, "ips"@) {
                    Some(ConfigValue::List(items)) => string_items(items@),
                    _ => Seq::empty(),
                };
                match sinkhole_addrs(texts) {
                    Ok((v4, v6)) => r matches Ok(p) && p.ipv4@ == v4 && p.ipv6@ == v6,
                    Err(s) => r matches Err(e) && e.view() == (ErrView::InvalidAddress { input: s }),
                }
            }),
    {
        let texts: Vec<String> = match get_arg(args, "ips") {
            Some(ConfigValue::List(items)) => strings_of(items),
            _ => {
                let v: Vec<String> = Vec::new();
                assert(views_of_strings(v@) =~= Seq::<Seq<char>>::empty());
                v
            },
        };
        Self::from_strings(&texts)
    }

    fn from_strings(texts: &Vec<String>) -> (r: Result<BlackholePlugin, PluginError>)
        ensures
            match sinkhole_addrs(views_of_strings(texts@)) {
                Ok((v4, v6)) => r matches Ok(p) && p.ipv4@ == v4 && p.ipv6@ == v6,
                Err(s) => r matches Err(e) && e.view() == (ErrView::InvalidAddress { input: s }),
            },
    {
        let mut refs: Vec<&str> = Vec::new();
        let mut i: usize = 0;
        while i < texts.len()
            invariant
                i <= texts@.len(),
                refs@.map_values(|s: &str| s@) == views_of_strings(texts@.take(i as int)),
            decreases texts.len() - i,
        {
            let ghost before = refs@;
            let t = texts[i].as_str();
            refs.push(t);
            assert(refs@ == before.push(t));
            assert(texts@.take(i + 1) =~= texts@.take(i as int).push(texts@[i as int]));
            assert(refs@.map_values(|s: &str| s@) =~= before.map_values(|s: &str| s@).push(t@));
            assert(views_of_strings(texts@.take(i + 1)) =~= views_of_strings(texts@.take(i as int)).push(texts@[i as int]@));
            i = i + 1;
        }
        assert(texts@.take(texts@.len() as int) =~= texts@);
        Self::new_from_strs(refs.as_slice())
    }

    /// Sets the plugin up from its exec form: the prefix is `blackhole` or
    /// an alias, the rest comma-separated addresses.
    pub fn quick_setup(prefix: &str, exec_str: &str) -> (r: Result<BlackholePlugin, PluginError>)
        ensures
            !(prefix@ == "blackhole"@ || alias_names().contains(prefix@)) ==> (r matches Err(e) && e.view()
                == blackhole_prefix_error(prefix@)),
            (prefix@ == "blackhole"@ || alias_names().contains(prefix@)) ==> match sinkhole_addrs(exec_pieces(exec_str@)) {
                Ok((v4, v6)) => r matches Ok(p) && p.ipv4@ == v4 && p.ipv6@ == v6,
                Err(s) => r matches Err(e) && e.view() == (ErrView::InvalidAddress { input: s }),
            },
    {
        let p = chars_of(prefix);
        let known = chars_eq(&p, &chars_of("blackhole")) || chars_eq(&p, &chars_of("sinkhole")) || chars_eq(
            &p,
            &chars_of("black_hole"),
        ) || chars_eq(&p, &chars_of("null_dns"));
        proof {
            assert(alias_names()[0] == "sinkhole"@);
            assert(alias_names()[1] == "black_hole"@);
            assert(alias_names()[2] == "null_dns"@);
            if alias_names().contains(prefix@) {
                let k = choose|k: int| 0 <= k < alias_names().len() && alias_names()[k] == prefix@;
                assert(k == 0 || k == 1 || k == 2);
            }
        }
        if !known {
            let mut m = chars_of("ExecPlugin quick_setup: unsupported prefix '");
            append_chars(&mut m, &p);
            let tail = chars_of("', expected one of [\"sinkhole\", \"black_hole\", \"null_dns\"]");
            append_chars(&mut m, &tail);
            return Err(PluginError::Config(string_from_chars(&m)));
        }
        let e = chars_of(exec_str);
        let parts = split_char(&e, ',');
        let ghost pv = views(parts@);
        let mut texts: Vec<String> = Vec::new();
        let mut i: usize = 0;
        let ghost f = |p: Seq<char>| p.len() > 0;
        let ghost tm = pv.map_values(|p: Seq<char>| trim(p));
        assert(tm.take(0).filter(f) =~= Seq::<Seq<char>>::empty());
        while i < parts.len()
            invariant
                pv == views(parts@),
                pv == split_on(e@, ','),
                tm == pv.map_values(|p: Seq<char>| trim(p)),
                f == (|p: Seq<char>| p.len() > 0),
                i <= parts@.len(),
                views_of_strings(texts@) == tm.take(i as int).filter(f),
            decreases parts.len() - i,
        {
            let t = trim_chars(&parts[i]);
            proof {
                assert(tm.take(i + 1).drop_last() =~= tm.take(i as int));
                assert(tm.take(i + 1).last() == trim(pv[i as int]));
                reveal_with_fuel(Seq::<Seq<char>>::filter, 1);
            }
            if t.len() > 0 {
                let ghost before = texts@;
                texts.push(string_from_chars(&t));
                assert(views_of_strings(texts@) =~= views_of_strings(before).push(t@));
            }
            i = i + 1;
        }
        assert(tm.take(tm.len() as int) =~= tm);
        assert(exec_pieces(exec_str@) == tm.filter(f));
        Self::from_strings(&texts)
    }
}

proof fn lemma_sink_err_sticks(ips: Seq<Seq<char>>, k: int)
    requires
        0 <= k <= ips.len(),
        sinkhole_addrs(ips.take(k)) is Err,
    ensures
        sinkhole_addrs(ips) == sinkhole_addrs(ips.take(k)),
    decreases ips.len() - k,
{
    if k < ips.len() {
        assert(ips.take(k + 1).drop_last() =~= ips.take(k));
        lemma_sink_err_sticks(ips, k + 1);
    } else {
        assert(ips.take(k) =~= ips);
    }
}

} // verus!
