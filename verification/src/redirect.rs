//! Rewriting the name a query asks for: exact and `*.suffix` rules, the
//! first matching rule wins.

use vstd::prelude::*;
use crate::config::{arg_get, get_arg, get_key, map_get, str_of, ConfigValue};
use crate::dns::Context;
use crate::error::PluginError;
use crate::error::ErrView;
use crate::text::{
    append_chars, chars_eq, chars_of, ends_with, has_prefix, has_suffix, lowercase_chars,
    slice_chars, split_whitespace, split_ws, starts_with, string_from_chars, unicode_lower, views,
};

verus! {

/// Whether a rule written `from` applies to the name `qname`: both are
/// compared lower-cased; `*.suffix` matches the suffix itself and names
/// ending in `.suffix`; any other rule matches its exact name.
pub open spec fn rule_matches(from: Seq<char>, qname: Seq<char>) -> bool {
    let f = unicode_lower(from);
    let q = unicode_lower(qname);
    if has_prefix(f, "*."@) {
        let suffix = f.skip(2);
        q == suffix || has_suffix(q, "."@ + suffix)
    } else {
        q == f
    }
}

/// The new name a rule `from -> to` gives `qname`: when both are wildcards
/// and the (lower-cased) name ends with the `from` suffix, the name's part
/// before that suffix followed by the `to` suffix (one dot between them);
/// otherwise `to` as written.
pub open spec fn rule_apply(from: Seq<char>, to: Seq<char>, qname: Seq<char>) -> Seq<char> {
    let f = unicode_lower(from);
    let q = unicode_lower(qname);
    let t = unicode_lower(to);
    if has_prefix(f, "*."@) && has_prefix(t, "*."@) && has_suffix(q, f.skip(2)) {
        let fs = f.skip(2);
        let ts = t.skip(2);
        let p = q.take(q.len() - fs.len());
        let p2 = if has_suffix(p, "."@) && has_prefix(ts, "."@) {
            p.drop_last()
        } else {
            p
        };
        p2 + ts
    } else {
        to
    }
}

/// What a rule covers, names compared lower-cased: a wildcard rule `*.s`
/// matches `s` itself and every name ending in `.s`, and nothing else; any
/// other rule matches its own name only. A wildcard rule whose target is a
/// wildcard `*.t` rewrites `s` itself to `t`.
pub proof fn lemma_rule_coverage(from: Seq<char>, to: Seq<char>, qname: Seq<char>)
    ensures
        ({
            let f = unicode_lower(from);
            let q = unicode_lower(qname);
            &&& has_prefix(f, "*."@) ==> (rule_matches(from, qname) <==> (q == f.skip(2) || has_suffix(
                q,
                "."@ + f.skip(2),
            )))
            &&& !has_prefix(f, "*."@) ==> (rule_matches(from, qname) <==> q == f)
            &&& has_prefix(f, "*."@) && has_prefix(unicode_lower(to), "*."@) && q == f.skip(2) ==> rule_apply(
                from,
                to,
                qname,
            ) == unicode_lower(to).skip(2)
        }),
{
    let f = unicode_lower(from);
    let q = unicode_lower(qname);
    if has_prefix(f, "*."@) && has_prefix(unicode_lower(to), "*."@) && q == f.skip(2) {
        let fs = f.skip(2);
        assert(q.skip(q.len() - fs.len()) =~= fs);
        assert(has_suffix(q, fs));
        let p = q.take(q.len() - fs.len());
        assert(p.len() == 0);
        reveal_strlit(".");
        assert(!has_suffix(p, "."@));
        assert(p + unicode_lower(to).skip(2) =~= unicode_lower(to).skip(2));
    }
}

/// One redirect rule.
#[derive(Debug)]
pub struct Rule {
    pub from: String,
    pub to: String,
}

impl Rule {
    pub fn new(from: String, to: String) -> (r: Rule)
        ensures
            r.from == from,
            r.to == to,
    {
        Rule { from, to }
    }

    /// Whether the rule applies to `qname`.
    pub fn matches(&self, qname: &str) -> (b: bool)
        ensures
            b == rule_matches(self.from@, qname@),
    {
        let f = lowercase_chars(&chars_of(self.from.as_str()));
        let q = lowercase_chars(&chars_of(qname));
        let star = chars_of("*.");
        proof {
            reveal_strlit("*.");
        }
        if starts_with(&f, &star) {
            let suffix = slice_chars(&f, 2, f.len());
            if chars_eq(&q, &suffix) {
                return true;
            }
            let mut dotted = chars_of(".");
            append_chars(&mut dotted, &suffix);
            ends_with(&q, &dotted)
        } else {
            chars_eq(&q, &f)
        }
    }

    /// The name the rule rewrites `qname` to.
    pub fn apply(&self, qname: &str) -> (r: String)
        ensures
            r@ == rule_apply(self.from@, self.to@, qname@),
    {
        let f = lowercase_chars(&chars_of(self.from.as_str()));
        let q = lowercase_chars(&chars_of(qname));
        let t = lowercase_chars(&chars_of(self.to.as_str()));
        let star = chars_of("*.");
        proof {
            reveal_strlit("*.");
        }
        if starts_with(&f, &star) && starts_with(&t, &star) {
            let fs = slice_chars(&f, 2, f.len());
            if ends_with(&q, &fs) {
                let ts = slice_chars(&t, 2, t.len());
                let mut p = slice_chars(&q, 0, q.len() - fs.len());
                let dot = chars_of(".");
                proof {
                    reveal_strlit(".");
                }
                if ends_with(&p, &dot) && starts_with(&ts, &dot) {
                    p = slice_chars(&p, 0, p.len() - 1);
                    assert(p@ =~= q@.take(q@.len() - fs@.len()).drop_last());
                }
                append_chars(&mut p, &ts);
                return string_from_chars(&p);
            }
        }
        chars_of_string(&self.to)
    }
}

/// A copy of a string.
fn chars_of_string(s: &String) -> (r: String)
    ensures
        r@ == s@,
{
    s.clone()
}

/// The index of the first rule (of `rules`) matching `qname`, if any.
pub open spec fn first_rule(rules: Seq<Rule>, qname: Seq<char>) -> Option<int>
    decreases rules.len(),
{
    if rules.len() == 0 {
        None
    } else if rule_matches(rules[0].from@, qname) {
        Some(0)
    } else {
        match first_rule(rules.drop_first(), qname) {
            Some(i) => Some(i + 1),
            None => None,
        }
    }
}

proof fn lemma_first_rule(rules: Seq<Rule>, qname: Seq<char>, k: int)
    requires
        0 <= k <= rules.len(),
        forall|j: int| 0 <= j < k ==> !rule_matches(#[trigger] rules[j].from@, qname),
    ensures
        k < rules.len() && rule_matches(rules[k].from@, qname) ==> first_rule(rules, qname) == Some(k),
        k == rules.len() ==> first_rule(rules, qname) is None,
    decreases k,
{
    if k > 0 {
        assert forall|j: int| 0 <= j < k - 1 implies !rule_matches(#[trigger] rules.drop_first()[j].from@, qname) by {
            assert(rules.drop_first()[j] == rules[j + 1]);
        }
        lemma_first_rule(rules.drop_first(), qname, k - 1);
    }
}

/// The name a query for `qname` asks for after the rules: the first
/// matching rule rewrites it; without one it is unchanged.
pub open spec fn redirected(rules: Seq<Rule>, qname: Seq<char>) -> Seq<char> {
    match first_rule(rules, qname) {
        Some(i) => rule_apply(rules[i].from@, rules[i].to@, qname),
        None => qname,
    }
}

proof fn lemma_first_rule_push(rules: Seq<Rule>, r: Rule, qname: Seq<char>)
    ensures
        first_rule(rules.push(r), qname) == match first_rule(rules, qname) {
            Some(i) => Some(i),
            None => if rule_matches(r.from@, qname) {
                Some(rules.len() as int)
            } else {
                None
            },
        },
    decreases rules.len(),
{
    let pushed = rules.push(r);
    if rules.len() == 0 {
        assert(pushed[0] == r);
        assert(pushed.drop_first() =~= Seq::<Rule>::empty());
    } else {
        assert(pushed[0] == rules[0]);
        assert(pushed.drop_first() =~= rules.drop_first().push(r));
        lemma_first_rule_push(rules.drop_first(), r, qname);
        if !rule_matches(rules[0].from@, qname) {
            assert(first_rule(pushed, qname) == match first_rule(pushed.drop_first(), qname) {
                Some(i) => Some(i + 1),
                None => None::<int>,
            });
            assert(first_rule(rules, qname) == match first_rule(rules.drop_first(), qname) {
                Some(i) => Some(i + 1),
                None => None::<int>,
            });
            assert(rules.drop_first().len() + 1 == rules.len());
        }
    }
}

/// Rules are tried in the order they were added: a rule added later never
/// changes the name of a query that an earlier rule already rewrites, and
/// rewrites exactly the names that no earlier rule matches and it matches.
pub proof fn lemma_later_rule_applies_last(rules: Seq<Rule>, r: Rule, qname: Seq<char>)
    ensures
        first_rule(rules, qname) is Some ==> redirected(rules.push(r), qname) == redirected(rules, qname),
        first_rule(rules, qname) is None && rule_matches(r.from@, qname) ==> redirected(rules.push(r), qname)
            == rule_apply(r.from@, r.to@, qname),
        first_rule(rules, qname) is None && !rule_matches(r.from@, qname) ==> redirected(rules.push(r), qname)
            == qname,
{
    lemma_first_rule_push(rules, r, qname);
    if let Some(i) = first_rule(rules, qname) {
        lemma_first_rule_bounds(rules, qname);
        assert(rules.push(r)[i] == rules[i]);
    } else if rule_matches(r.from@, qname) {
        assert(rules.push(r)[rules.len() as int] == r);
    }
}

proof fn lemma_first_rule_bounds(rules: Seq<Rule>, qname: Seq<char>)
    ensures
        first_rule(rules, qname) matches Some(i) ==> 0 <= i < rules.len(),
    decreases rules.len(),
{
    if rules.len() > 0 {
        lemma_first_rule_bounds(rules.drop_first(), qname);
    }
}

/// Rewrites query names by its rules.
#[derive(Debug)]
pub struct RedirectPlugin {
    pub rules: Vec<Rule>,
}

impl RedirectPlugin {
    /// A plugin with one rule.
    pub fn new(from_domain: &str, to_domain: &str) -> (p: RedirectPlugin)
        ensures
            p.rules@.len() == 1,
            p.rules@[0].from@ == from_domain@,
            p.rules@[0].to@ == to_domain@,
    {
        let mut rules: Vec<Rule> = Vec::new();
        rules.push(Rule::new(crate::text::owned(from_domain), crate::text::owned(to_domain)));
        RedirectPlugin { rules }
    }

    /// Adds a rule after the others.
    pub fn add_rule(&mut self, from: String, to: String)
        ensures
            final(self).rules@ == old(self).rules@.push(Rule { from, to }),
    {
        self.rules.push(Rule::new(from, to));
    }

    /// The plugin's registered name.
    pub fn name(&self) -> (s: &'static str)
        ensures
            s@ == "redirect"@,
    {
        "redirect"
    }

    /// The name `qname` is rewritten to.
    pub fn redirect_name(&self, qname: &str) -> (r: String)
        ensures
            r@ == redirected(self.rules@, qname@),
    {
        let mut i: usize = 0;
        while i < self.rules.len()
            invariant
                i <= self.rules@.len(),
                forall|j: int| 0 <= j < i ==> !rule_matches(#[trigger] self.rules@[j].from@, qname@),
            decreases self.rules.len() - i,
        {
            if self.rules[i].matches(qname) {
                proof {
                    lemma_first_rule(self.rules@, qname@, i as int);
                }
                return self.rules[i].apply(qname);
            }
            i = i + 1;
        }
        proof {
            lemma_first_rule(self.rules@, qname@, i as int);
        }
        crate::text::owned(qname)
    }

    /// Rewrites the name of the request's first question; the rest of the
    /// context is unchanged.
    pub fn execute(&self, ctx: &mut Context)
        ensures
            final(ctx).response == old(ctx).response,
            final(ctx).client_ip == old(ctx).client_ip,
            final(ctx).set_entries == old(ctx).set_entries,
            final(ctx).returned == old(ctx).returned,
            final(ctx).tag == old(ctx).tag,
            final(ctx).request.id == old(ctx).request.id,
            final(ctx).request.answers == old(ctx).request.answers,
            final(ctx).request.questions@.len() == old(ctx).request.questions@.len(),
            forall|j: int| 1 <= j < old(ctx).request.questions@.len() ==>
                #[trigger] final(ctx).request.questions@[j] == old(ctx).request.questions@[j],
            old(ctx).request.questions@.len() > 0 ==> ({
                let o = old(ctx).request.questions@[0];
                let n = final(ctx).request.questions@[0];
                n.qname@ == redirected(self.rules@, o.qname@) && n.qtype == o.qtype && n.qclass == o.qclass
            }),
    {
        if ctx.request.questions.len() == 0 {
            return;
        }
        let mut q = ctx.request.questions.remove(0);
        let new_name = self.redirect_name(q.qname.as_str());
        q.qname = new_name;
        ctx.request.questions.insert(0, q);
        proof {
            assert forall|j: int| 1 <= j < old(ctx).request.questions@.len() implies
                #[trigger] ctx.request.questions@[j] == old(ctx).request.questions@[j] by {}
        }
    }

    /// One rule from its configuration entry: `"from to"`, or a mapping
    /// with `from` and `to`.
    fn rule_from_item(item: &ConfigValue) -> (r: Result<Rule, PluginError>)
        ensures
            match redirect_item(*item) {
                Ok((f, t)) => r matches Ok(x) && x.from@ == f && x.to@ == t,
                Err(Some(e)) => r matches Err(x) && x.view() == e,
                Err(None) => r matches Err(x) && x.view() is Config && has_prefix(
                    x.view()->Config_0,
                    "unsupported redirect rule format: "@,
                ),
            },
    {
        match item {
            ConfigValue::Str(s) => {
                let c = chars_of(s.as_str());
                let parts = split_whitespace(&c);
                if parts.len() != 2 {
                    let mut m = chars_of("redirect rule must be 'from to', got: ");
                    append_chars(&mut m, &c);
                    return Err(PluginError::Config(string_from_chars(&m)));
                }
                Ok(Rule::new(string_from_chars(&parts[0]), string_from_chars(&parts[1])))
            },
            ConfigValue::Mapping(m) => {
                let from = match get_key(m, "from") {
                    Some(ConfigValue::Str(f)) => f.clone(),
                    _ => {
                        return Err(
                            PluginError::Config(crate::text::owned("redirect rule missing 'from'")),
                        );
                    },
                };
                let to = match get_key(m, "to") {
                    Some(ConfigValue::Str(t)) => t.clone(),
                    _ => {
                        return Err(
                            PluginError::Config(crate::text::owned("redirect rule missing 'to'")),
                        );
                    },
                };
                Ok(Rule::new(from, to))
            },
            _ => {
                let m = crate::text::owned("unsupported redirect rule format: ");
                proof {
                    reveal_strlit("unsupported redirect rule format: ");
                    assert(m@.take(m@.len() as int) =~= m@);
                }
                Err(PluginError::Config(m))
            },
        }
    }

    /// Sets the plugin up from its `rules` argument, a non-empty list of
    /// rules kept in order.
    pub fn init(args: &Vec<(String, ConfigValue)>) -> (r: Result<RedirectPlugin, PluginError>)
        ensures
            match redirect_settings(args@) {
                Ok(rs) => r matches Ok(p) && p.rules@.len() == rs.len() && forall|i: int|
                    0 <= i < rs.len() ==> #[trigger] p.rules@[i].from@ == rs[i].0 && p.rules@[i].to@ == rs[i].1,
                Err(Some(e)) => r matches Err(x) && x.view() == e,
                Err(None) => r matches Err(x) && x.view() is Config && has_prefix(
                    x.view()->Config_0,
                    "unsupported redirect rule format: "@,
                ),
            },
    {
        let items = match get_arg(args, "rules") {
            Some(ConfigValue::List(items)) => items,
            _ => {
                return Err(
                    PluginError::Config(crate::text::owned("redirect plugin requires 'rules' array")),
                );
            },
        };
        if items.len() == 0 {
            return Err(PluginError::Config(crate::text::owned("redirect requires at least one rule")));
        }
        let mut plugin = RedirectPlugin { rules: Vec::new() };
        let mut i: usize = 0;
        while i < items.len()
            invariant
                arg_get(args@, "rules"@) == Some(ConfigValue::List(*items)),
                items@.len() > 0,
                i <= items@.len(),
                redirect_items(items@.take(i as int)) matches Ok(rs) && plugin.rules@.len() == rs.len()
                    && forall|j: int| 0 <= j < rs.len() ==> #[trigger] plugin.rules@[j].from@ == rs[j].0
                    && plugin.rules@[j].to@ == rs[j].1,
            decreases items.len() - i,
        {
            assert(items@.take(i + 1).drop_last() =~= items@.take(i as int));
            assert(items@.take(i + 1).last() == items@[i as int]);
            match Self::rule_from_item(&items[i]) {
                Ok(rule) => {
                    plugin.rules.push(rule);
                },
                Err(e) => {
                    proof {
                        lemma_redirect_err_sticks(items@, i as int + 1);
                    }
                    return Err(e);
                },
            }
            i = i + 1;
        }
        assert(items@.take(items@.len() as int) =~= items@);
        Ok(plugin)
    }
}

/// The `(from, to)` pair of one configured rule; `Err(None)` for an entry of
/// an unsupported kind (whose message names the entry).
pub open spec fn redirect_item(item: ConfigValue) -> Result<(Seq<char>, Seq<char>), Option<ErrView>> {
    match item {
        ConfigValue::Str(s) => {
            let parts = split_ws(s@);
            if parts.len() != 2 {
                Err(Some(ErrView::Config("redirect rule must be 'from to', got: "@ + s@)))
            } else {
                Ok((parts[0], parts[1]))
            }
        },
        ConfigValue::Mapping(m) => match map_get(m@, "from"@) {
            Some(ConfigValue::Str(f)) => match map_get(m@, "to"@) {
                Some(ConfigValue::Str(t)) => Ok((f@, t@)),
                _ => Err(Some(ErrView::Config("redirect rule missing 'to'"@))),
            },
            _ => Err(Some(ErrView::Config("redirect rule missing 'from'"@))),
        },
        _ => Err(None),
    }
}

/// The rules of a list of entries, or the first entry's error.
pub open spec fn redirect_items(items: Seq<ConfigValue>) -> Result<Seq<(Seq<char>, Seq<char>)>, Option<ErrView>>
    decreases items.len(),
{
    if items.len() == 0 {
        Ok(Seq::empty())
    } else {
        match redirect_items(items.drop_last()) {
            Err(e) => Err(e),
            Ok(v) => match redirect_item(items.last()) {
                Err(e) => Err(e),
                Ok(p) => Ok(v.push(p)),
            },
        }
    }
}

/// The rules the `rules` argument configures, or the error.
pub open spec fn redirect_settings(args: Seq<(String, ConfigValue)>) -> Result<Seq<(Seq<char>, Seq<char>)>, Option<ErrView>> {
    match arg_get(args, "rules"@) {
        Some(ConfigValue::List(items)) => if items@.len() == 0 {
            Err(Some(ErrView::Config("redirect requires at least one rule"@)))
        } else {
            redirect_items(items@)
        },
        _ => Err(Some(ErrView::Config("redirect plugin requires 'rules' array"@))),
    }
}

proof fn lemma_redirect_err_sticks(items: Seq<ConfigValue>, k: int)
    requires
        0 <= k <= items.len(),
        redirect_items(items.take(k)) is Err,
    ensures
        redirect_items(items) == redirect_items(items.take(k)),
    decreases items.len() - k,
{
    if k < items.len() {
        assert(items.take(k + 1).drop_last() =~= items.take(k));
        lemma_redirect_err_sticks(items, k + 1);
    } else {
        assert(items.take(k) =~= items);
    }
}

} // verus!
