//! Query access control: an ordered list of network rules with a default.

use vstd::prelude::*;
use crate::dns::{Context, Message, RCODE_REFUSED};
use crate::config::{arg_get, get_arg, get_key, map_get, str_is, ConfigValue};
use crate::error::{ErrView, PluginError};
use crate::ip::{ipnet_parse, net_contains, net_valid, parse_net, IpAddr, IpNet};
use crate::text::{owned, to_lowercase, unicode_lower};

verus! {

/// ACL action to take when a rule matches.
#[derive(Debug, Clone, Copy, PartialEq, Eq)]
pub enum AclAction {
    /// Allow the query to proceed
    Allow,
    /// Deny the query (answer REFUSED)
    Deny,
}

/// An ACL rule: a network and the action for addresses in it.
#[derive(Debug, Clone, Copy)]
pub struct AclRule {
    network: IpNet,
    action: AclAction,
}

/// The localhost address used when a query carries no client address.
pub open spec fn localhost() -> IpAddr {
    IpAddr::V4(0x7f000001)
}

impl AclRule {
    pub closed spec fn network_view(&self) -> IpNet {
        self.network
    }

    pub closed spec fn action_view(&self) -> AclAction {
        self.action
    }

    /// A rule applying `action` to the addresses of `network`.
    pub fn new(network: IpNet, action: AclAction) -> (r: AclRule)
        requires
            net_valid(network),
        ensures
            r.network_view() == network,
            r.action_view() == action,
    {
        AclRule { network, action }
    }

    /// Whether `ip` is in the rule's network.
    pub fn matches(&self, ip: &IpAddr) -> (b: bool)
        requires
            net_valid(self.network_view()),
        ensures
            b == net_contains(self.network_view(), *ip),
    {
        self.network.contains(ip)
    }
}

/// The action of the first rule whose network holds `ip`, else `default`.
pub open spec fn acl_eval(rules: Seq<(IpNet, AclAction)>, default: AclAction, ip: IpAddr) -> AclAction
    decreases rules.len(),
{
    if rules.len() == 0 {
        default
    } else if net_contains(rules[0].0, ip) {
        rules[0].1
    } else {
        acl_eval(rules.drop_first(), default, ip)
    }
}

/// The action a configuration word names, compared after Unicode
/// lower-casing: `allow` or `deny`.
pub open spec fn action_of(s: Seq<char>) -> Option<AclAction> {
    let l = unicode_lower(s);
    if l == "allow"@ {
        Some(AclAction::Allow)
    } else if l == "deny"@ {
        Some(AclAction::Deny)
    } else {
        None
    }
}

/// The default action from the `default` argument (deny when absent).
pub open spec fn default_setting(v: Option<ConfigValue>) -> Result<AclAction, ErrView> {
    match v {
        None => Ok(AclAction::Deny),
        Some(ConfigValue::Str(s)) => match action_of(s@) {
            Some(a) => Ok(a),
            None => Err(
                ErrView::InvalidConfigValue {
                    field: "default"@,
                    value: s@,
                    reason: "expected 'allow' or 'deny'"@,
                },
            ),
        },
        Some(_) => Err(
            ErrView::InvalidConfigValue { field: "default"@, value: "(non-string)"@, reason: "must be a string"@ },
        ),
    }
}

/// The string bound to `field` in a rule mapping.
pub open spec fn rule_text(m: Seq<(ConfigValue, ConfigValue)>, field: Seq<char>) -> Result<Seq<char>, ErrView> {
    match map_get(m, field) {
        Some(ConfigValue::Str(s)) => Ok(s@),
        Some(_) => Err(ErrView::InvalidConfigValue { field, value: "(non-string)"@, reason: "must be a string"@ }),
        None => Err(ErrView::MissingConfigField { field, context: "acl rule"@ }),
    }
}

/// One entry of `rules`: a mapping with a `network` in CIDR form and an
/// `action`. A network that does not parse is reported with the text that
/// `ipnet`'s parse error displays.
pub open spec fn rule_setting(v: ConfigValue) -> Result<(IpNet, AclAction), ErrView> {
    match v {
        ConfigValue::Mapping(m) => match rule_text(m@, "network"@) {
            Err(e) => Err(e),
            Ok(ns) => match ipnet_parse(ns) {
                None => Err(
                    ErrView::InvalidConfigValue {
                        field: "network"@,
                        value: ns,
                        reason: "invalid IP address syntax"@,
                    },
                ),
                Some(net) => match rule_text(m@, "action"@) {
                    Err(e) => Err(e),
                    Ok(a) => match action_of(a) {
                        None => Err(
                            ErrView::InvalidConfigValue {
                                field: "action"@,
                                value: a,
                                reason: "expected 'allow' or 'deny'"@,
                            },
                        ),
                        Some(act) => Ok((net, act)),
                    },
                },
            },
        },
        _ => Err(ErrView::Config("each rule must be a mapping"@)),
    }
}

/// The rules of a `rules` sequence in order, or the first entry's error.
pub open spec fn rules_setting(items: Seq<ConfigValue>) -> Result<Seq<(IpNet, AclAction)>, ErrView>
    decreases items.len(),
{
    if items.len() == 0 {
        Ok(Seq::empty())
    } else {
        match rules_setting(items.drop_last()) {
            Err(e) => Err(e),
            Ok(rs) => match rule_setting(items.last()) {
                Err(e) => Err(e),
                Ok(r) => Ok(rs.push(r)),
            },
        }
    }
}

/// The default action and rules that the arguments configure. A `rules`
/// value that is not a sequence is ignored.
pub open spec fn acl_settings(args: Seq<(String, ConfigValue)>) -> Result<(AclAction, Seq<(IpNet, AclAction)>), ErrView> {
    match default_setting(arg_get(args, "default"@)) {
        Err(e) => Err(e),
        Ok(d) => match arg_get(args, "rules"@) {
            Some(ConfigValue::List(items)) => match rules_setting(items@) {
                Err(e) => Err(e),
                Ok(rs) => Ok((d, rs)),
            },
            _ => Ok((d, Seq::empty())),
        },
    }
}

proof fn lemma_rules_err_sticks(items: Seq<ConfigValue>, k: int)
    requires
        0 <= k <= items.len(),
        rules_setting(items.take(k)) is Err,
    ensures
        rules_setting(items) == rules_setting(items.take(k)),
    decreases items.len() - k,
{
    if k < items.len() {
        assert(items.take(k + 1).drop_last() =~= items.take(k));
        lemma_rules_err_sticks(items, k + 1);
    } else {
        assert(items.take(k) =~= items);
    }
}

fn action_from(s: &String) -> (r: Option<AclAction>)
    ensures
        r == action_of(s@),
{
    let l = to_lowercase(s.as_str());
    if str_is(&l, "allow") {
        Some(AclAction::Allow)
    } else if str_is(&l, "deny") {
        Some(AclAction::Deny)
    } else {
        None
    }
}

fn invalid_value(field: &str, value: String, reason: &str) -> (e: PluginError)
    ensures
        e.view() == (ErrView::InvalidConfigValue { field: field@, value: value@, reason: reason@ }),
{
    PluginError::InvalidConfigValue { field: owned(field), value, reason: owned(reason) }
}

fn rule_field(m: &Vec<(ConfigValue, ConfigValue)>, field: &str) -> (r: Result<String, PluginError>)
    ensures
        match rule_text(m@, field@) {
            Ok(t) => r matches Ok(x) && x@ == t,
            Err(e) => r matches Err(x) && x.view() == e,
        },
{
    match get_key(m, field) {
        Some(ConfigValue::Str(s)) => Ok(s.clone()),
        Some(_) => Err(invalid_value(field, owned("(non-string)"), "must be a string")),
        None => Err(PluginError::MissingConfigField { field: owned(field), context: owned("acl rule") }),
    }
}

fn parse_rule(v: &ConfigValue) -> (r: Result<(IpNet, AclAction), PluginError>)
    ensures
        match rule_setting(*v) {
            Ok(x) => r == Ok::<(IpNet, AclAction), PluginError>(x) && net_valid(x.0),
            Err(e) => r matches Err(x) && x.view() == e,
        },
{
    match v {
        ConfigValue::Mapping(m) => {
            let ns = match rule_field(m, "network") {
                Ok(t) => t,
                Err(e) => {
                    return Err(e);
                },
            };
            let net = match parse_net(ns.as_str()) {
                Some(n) => n,
                None => {
                    return Err(invalid_value("network", ns, "invalid IP address syntax"));
                },
            };
            let a = match rule_field(m, "action") {
                Ok(t) => t,
                Err(e) => {
                    return Err(e);
                },
            };
            match action_from(&a) {
                Some(act) => Ok((net, act)),
                None => Err(invalid_value("action", a, "expected 'allow' or 'deny'")),
            }
        },
        _ => Err(PluginError::Config(owned("each rule must be a mapping"))),
    }
}

/// Query access control list plugin.
#[derive(Debug)]
pub struct QueryAclPlugin {
    rules: Vec<AclRule>,
    default_action: AclAction,
}

impl QueryAclPlugin {
    /// The rules in evaluation order.
    pub closed spec fn rules_view(&self) -> Seq<(IpNet, AclAction)> {
        self.rules@.map_values(|r: AclRule| (r.network, r.action))
    }

    pub closed spec fn default_view(&self) -> AclAction {
        self.default_action
    }

    /// Every rule's prefix length fits its family.
    pub closed spec fn wf(&self) -> bool {
        forall|i: int| 0 <= i < self.rules@.len() ==> net_valid(#[trigger] self.rules@[i].network)
    }

    /// An ACL with no rules and the given default action.
    pub fn new(default_action: AclAction) -> (acl: QueryAclPlugin)
        ensures
            acl.wf(),
            acl.rules_view().len() == 0,
            acl.default_view() == default_action,
    {
        QueryAclPlugin { rules: Vec::new(), default_action }
    }

    /// Appends a rule; rules are evaluated in the order they were added.
    pub fn add_rule(&mut self, network: IpNet, action: AclAction)
        requires
            old(self).wf(),
            net_valid(network),
        ensures
            final(self).wf(),
            final(self).rules_view() == old(self).rules_view().push((network, action)),
            final(self).default_view() == old(self).default_view(),
    {
        let ghost before = self.rules_view();
        self.rules.push(AclRule::new(network, action));
        assert(self.rules_view() =~= before.push((network, action)));
    }

    /// Denies by default and allows the given networks.
    pub fn allow_list(networks: Vec<IpNet>) -> (acl: QueryAclPlugin)
        requires
            forall|i: int| 0 <= i < networks@.len() ==> net_valid(#[trigger] networks@[i]),
        ensures
            acl.wf(),
            acl.default_view() == AclAction::Deny,
            acl.rules_view() == networks@.map_values(|n: IpNet| (n, AclAction::Allow)),
    {
        Self::with_networks(networks, AclAction::Deny, AclAction::Allow)
    }

    /// Allows by default and denies the given networks.
    pub fn deny_list(networks: Vec<IpNet>) -> (acl: QueryAclPlugin)
        requires
            forall|i: int| 0 <= i < networks@.len() ==> net_valid(#[trigger] networks@[i]),
        ensures
            acl.wf(),
            acl.default_view() == AclAction::Allow,
            acl.rules_view() == networks@.map_values(|n: IpNet| (n, AclAction::Deny)),
    {
        Self::with_networks(networks, AclAction::Allow, AclAction::Deny)
    }

    fn with_networks(networks: Vec<IpNet>, default: AclAction, each: AclAction) -> (acl: QueryAclPlugin)
        requires
            forall|i: int| 0 <= i < networks@.len() ==> net_valid(#[trigger] networks@[i]),
        ensures
            acl.wf(),
            acl.default_view() == default,
            acl.rules_view() == networks@.map_values(|n: IpNet| (n, each)),
    {
        let mut acl = Self::new(default);
        let mut i: usize = 0;
        while i < networks.len()
            invariant
                i <= networks@.len(),
                forall|k: int| 0 <= k < networks@.len() ==> net_valid(#[trigger] networks@[k]),
                acl.wf(),
                acl.default_view() == default,
                acl.rules_view() == networks@.take(i as int).map_values(|n: IpNet| (n, each)),
            decreases networks.len() - i,
        {
            acl.add_rule(networks[i], each);
            i = i + 1;
            proof {
                assert(networks@.take(i as int).map_values(|n: IpNet| (n, each)) =~= networks@.take(
                    i - 1,
                ).map_values(|n: IpNet| (n, each)).push((networks@[i - 1], each)));
            }
        }
        assert(networks@.take(networks@.len() as int) =~= networks@);
        acl
    }

    /// The action for `ip`: that of the first rule holding it, else the default.
    pub fn evaluate(&self, ip: &IpAddr) -> (a: AclAction)
        requires
            self.wf(),
        ensures
            a == acl_eval(self.rules_view(), self.default_view(), *ip),
    {
        let ghost rv = self.rules_view();
        let mut i: usize = 0;
        assert(rv.skip(0) =~= rv);
        while i < self.rules.len()
            invariant
                i <= self.rules@.len(),
                rv == self.rules_view(),
                self.wf(),
                acl_eval(rv, self.default_view(), *ip) == acl_eval(
                    rv.skip(i as int),
                    self.default_view(),
                    *ip,
                ),
            decreases self.rules.len() - i,
        {
            proof {
                assert(rv.skip(i as int)[0] == rv[i as int]);
                assert(rv.skip(i as int).drop_first() =~= rv.skip(i + 1));
            }
            if self.rules[i].matches(ip) {
                return self.rules[i].action;
            }
            i = i + 1;
        }
        assert(rv.skip(i as int).len() == 0);
        self.default_action
    }

    /// Applies the ACL to a query: the client address (localhost when the
    /// query carries none) is evaluated; a denied query gets a REFUSED
    /// response with the request's id.
    pub fn execute(&self, ctx: &mut Context)
        requires
            self.wf(),
        ensures
            ({
                let ip = match old(ctx).client_ip {
                    Some(a) => a,
                    None => localhost(),
                };
                match acl_eval(self.rules_view(), self.default_view(), ip) {
                    AclAction::Allow => *final(ctx) == *old(ctx),
                    AclAction::Deny => {
                        &&& final(ctx).request == old(ctx).request
                        &&& final(ctx).client_ip == old(ctx).client_ip
                        &&& final(ctx).set_entries == old(ctx).set_entries
                        &&& final(ctx).returned == old(ctx).returned
                        &&& final(ctx).tag == old(ctx).tag
                        &&& final(ctx).response matches Some(r)
                        &&& r.id == old(ctx).request.id
                        &&& r.is_response
                        &&& r.rcode == RCODE_REFUSED
                        &&& r.questions@.len() == 0
                        &&& r.answers@.len() == 0
                        &&& r.authority@.len() == 0
                        &&& r.additional@.len() == 0
                    },
                }
            }),
    {
        let ip = match ctx.client_ip {
            Some(a) => a,
            None => IpAddr::V4(0x7f000001),
        };
        match self.evaluate(&ip) {
            AclAction::Allow => {},
            AclAction::Deny => {
                let mut response = Message::new();
                response.id = ctx.request.id;
                response.is_response = true;
                response.rcode = RCODE_REFUSED;
                ctx.response = Some(response);
            },
        }
    }

    /// Sets the ACL up from its arguments: `default` (`allow` or `deny`,
    /// deny when absent) and `rules`, a sequence of `{network, action}`
    /// mappings kept in order.
    pub fn init(args: &Vec<(String, ConfigValue)>) -> (r: Result<QueryAclPlugin, PluginError>)
        ensures
            match acl_settings(args@) {
                Ok((d, rs)) => r matches Ok(acl) && acl.wf() && acl.default_view() == d && acl.rules_view() == rs,
                Err(e) => r matches Err(x) && x.view() == e,
            },
    {
        let default_action = match get_arg(args, "default") {
            None => AclAction::Deny,
            Some(ConfigValue::Str(s)) => match action_from(s) {
                Some(a) => a,
                None => {
                    return Err(invalid_value("default", s.clone(), "expected 'allow' or 'deny'"));
                },
            },
            Some(_) => {
                return Err(invalid_value("default", owned("(non-string)"), "must be a string"));
            },
        };
        let mut acl = QueryAclPlugin::new(default_action);
        if let Some(ConfigValue::List(items)) = get_arg(args, "rules") {
            let mut i: usize = 0;
            assert(items@.take(0) =~= Seq::<ConfigValue>::empty());
            assert(acl.rules_view() =~= Seq::<(IpNet, AclAction)>::empty());
            while i < items.len()
                invariant
                    i <= items@.len(),
                    arg_get(args@, "rules"@) == Some(ConfigValue::List(*items)),
                    default_setting(arg_get(args@, "default"@)) == Ok::<AclAction, ErrView>(default_action),
                    acl.wf(),
                    acl.default_view() == default_action,
                    rules_setting(items@.take(i as int)) == Ok::<Seq<(IpNet, AclAction)>, ErrView>(acl.rules_view()),
                decreases items.len() - i,
            {
                proof {
                    assert(items@.take(i + 1).drop_last() =~= items@.take(i as int));
                    assert(items@.take(i + 1).last() == items@[i as int]);
                }
                match parse_rule(&items[i]) {
                    Ok((net, act)) => {
                        acl.add_rule(net, act);
                    },
                    Err(e) => {
                        proof {
                            lemma_rules_err_sticks(items@, i + 1);
                        }
                        return Err(e);
                    },
                }
                i = i + 1;
            }
            assert(items@.take(items@.len() as int) =~= items@);
        }
        Ok(acl)
    }

    /// The plugin's registered name.
    pub fn name(&self) -> (s: &'static str)
        ensures
            s@ == "query_acl"@,
    {
        "query_acl"
    }
}

/// With an allow list, an address is allowed exactly when one of the listed
/// networks holds it.
pub proof fn lemma_allow_list(nets: Seq<IpNet>, ip: IpAddr)
    ensures
        (acl_eval(nets.map_values(|n: IpNet| (n, AclAction::Allow)), AclAction::Deny, ip)
            == AclAction::Allow) <==> (exists|i: int| 0 <= i < nets.len() && net_contains(#[trigger] nets[i], ip)),
    decreases nets.len(),
{
    lemma_list(nets, AclAction::Deny, AclAction::Allow, ip);
}

/// With a deny list, an address is denied exactly when one of the listed
/// networks holds it.
pub proof fn lemma_deny_list(nets: Seq<IpNet>, ip: IpAddr)
    ensures
        (acl_eval(nets.map_values(|n: IpNet| (n, AclAction::Deny)), AclAction::Allow, ip)
            == AclAction::Deny) <==> (exists|i: int| 0 <= i < nets.len() && net_contains(#[trigger] nets[i], ip)),
{
    lemma_list(nets, AclAction::Allow, AclAction::Deny, ip);
}

proof fn lemma_list(nets: Seq<IpNet>, default: AclAction, each: AclAction, ip: IpAddr)
    requires
        default != each,
    ensures
        (acl_eval(nets.map_values(|n: IpNet| (n, each)), default, ip) == each) <==> (exists|i: int|
            0 <= i < nets.len() && net_contains(#[trigger] nets[i], ip)),
    decreases nets.len(),
{
    let m = nets.map_values(|n: IpNet| (n, each));
    if nets.len() > 0 {
        assert(m.drop_first() =~= nets.drop_first().map_values(|n: IpNet| (n, each)));
        lemma_list(nets.drop_first(), default, each, ip);
        if exists|i: int| 0 <= i < nets.drop_first().len() && net_contains(#[trigger] nets.drop_first()[i], ip) {
            let i = choose|i: int| 0 <= i < nets.drop_first().len() && net_contains(#[trigger] nets.drop_first()[i], ip);
            assert(net_contains(nets[i + 1], ip));
        }
        if exists|i: int| 0 <= i < nets.len() && net_contains(#[trigger] nets[i], ip) {
            let i = choose|i: int| 0 <= i < nets.len() && net_contains(#[trigger] nets[i], ip);
            if i > 0 {
                assert(net_contains(nets.drop_first()[i - 1], ip));
            }
        }
    }
}

/// The first rule holding an address decides it: rules after it are not
/// consulted.
pub proof fn lemma_first_match_wins(
    rules: Seq<(IpNet, AclAction)>,
    default: AclAction,
    ip: IpAddr,
    k: int,
)
    requires
        0 <= k < rules.len(),
        net_contains(rules[k].0, ip),
        forall|j: int| 0 <= j < k ==> !net_contains(#[trigger] rules[j].0, ip),
    ensures
        acl_eval(rules, default, ip) == rules[k].1,
    decreases k,
{
    if k > 0 {
        assert(!net_contains(rules[0].0, ip));
        let r = rules.drop_first();
        assert forall|j: int| 0 <= j < k - 1 implies !net_contains(#[trigger] r[j].0, ip) by {
            assert(r[j] == rules[j + 1]);
        }
        lemma_first_match_wins(r, default, ip, k - 1);
    }
}

} // verus!
