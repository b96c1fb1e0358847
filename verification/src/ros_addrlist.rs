//! Adding the addresses of answers to a RouterOS address list through its
//! REST interface: which addresses, which requests, and how replies are
//! judged. Sending the requests is done by the caller.

use vstd::prelude::*;
use crate::config::{arg_get, as_i64, get_arg, int_of, str_of, ConfigValue};
use crate::dns::{Context, RData, Record};
use crate::ip::{ip_text, ip_to_chars, IpAddr};
use crate::text::{append_chars, chars_of, owned, string_from_chars, trim_end_char, trim_end_char_exec};

verus! {

/// Adds response addresses to a RouterOS address list.
#[derive(Debug)]
pub struct RosAddrlistPlugin {
    /// Address list name in RouterOS
    pub list_name: String,
    /// Whether to add IPs from query responses
    pub track_responses: bool,
    /// Optional HTTP endpoint to call for adding IPs
    pub server: Option<String>,
    /// Optional basic auth user
    pub user: Option<String>,
    /// Optional basic auth password
    pub passwd: Option<String>,
    /// IPv4 mask to apply when adding
    pub mask4: Option<u8>,
    /// IPv6 mask to apply when adding
    pub mask6: Option<u8>,
}

/// The view of an optional string.
pub open spec fn opt_text(o: Option<String>) -> Option<Seq<char>> {
    match o {
        Some(s) => Some(s@),
        None => None,
    }
}

/// The address an answer's data holds, if it is an A or AAAA record.
pub open spec fn rdata_ip(r: RData) -> Option<IpAddr> {
    match r {
        RData::A(a) => Some(IpAddr::V4(a)),
        RData::AAAA(a) => Some(IpAddr::V6(a)),
        _ => None,
    }
}

/// The addresses of the A and AAAA answers, in order.
pub open spec fn answer_ips(answers: Seq<Record>) -> Seq<IpAddr>
    decreases answers.len(),
{
    if answers.len() == 0 {
        Seq::empty()
    } else {
        let rest = answer_ips(answers.drop_last());
        match rdata_ip(answers.last().rdata) {
            Some(ip) => rest.push(ip),
            None => rest,
        }
    }
}

/// The REST endpoint that adds an address of this kind.
pub open spec fn router_url(server: Seq<char>, ip: IpAddr) -> Seq<char> {
    trim_end_char(server, '/') + "/rest/"@ + (if ip is V6 {
        "ipv6"@
    } else {
        "ip"@
    }) + "/firewall/address-list/add"@
}

/// One request to the router: where it goes, the fields of its JSON body,
/// and the credentials for basic authentication.
#[derive(Debug)]
pub struct AddressRequest {
    pub url: String,
    pub address: String,
    pub list: String,
    pub comment: String,
    pub auth: Option<(String, String)>,
}

/// What the router's reply status means for one address.
#[derive(Debug)]
pub enum ReplyOutcome {
    /// Added (200) or already present (400): go on with the next address.
    Continue,
    /// Stop with this error message.
    Fail(String),
}

impl RosAddrlistPlugin {
    /// A plugin for this list that tracks responses, with no server,
    /// credentials or masks.
    pub fn new(list_name: &str) -> (p: RosAddrlistPlugin)
        ensures
            p.list_name@ == list_name@,
            p.track_responses,
            p.server is None,
            p.user is None,
            p.passwd is None,
            p.mask4 is None,
            p.mask6 is None,
    {
        RosAddrlistPlugin {
            list_name: owned(list_name),
            track_responses: true,
            server: None,
            user: None,
            passwd: None,
            mask4: None,
            mask6: None,
        }
    }

    /// Sets whether response addresses are tracked.
    pub fn track_responses(self, enabled: bool) -> (p: RosAddrlistPlugin)
        ensures
            p == (RosAddrlistPlugin { track_responses: enabled, ..self }),
    {
        RosAddrlistPlugin { track_responses: enabled, ..self }
    }

    /// Sets the helper server to notify.
    pub fn with_server(self, server: &str) -> (p: RosAddrlistPlugin)
        ensures
            opt_text(p.server) == Some(server@),
            p.list_name == self.list_name,
            p.track_responses == self.track_responses,
            p.user == self.user,
            p.passwd == self.passwd,
            p.mask4 == self.mask4,
            p.mask6 == self.mask6,
    {
        RosAddrlistPlugin { server: Some(owned(server)), ..self }
    }

    /// Sets the basic-auth credentials.
    pub fn with_auth(self, user: &str, passwd: &str) -> (p: RosAddrlistPlugin)
        ensures
            opt_text(p.user) == Some(user@),
            opt_text(p.passwd) == Some(passwd@),
            p.list_name == self.list_name,
            p.track_responses == self.track_responses,
            p.server == self.server,
            p.mask4 == self.mask4,
            p.mask6 == self.mask6,
    {
        RosAddrlistPlugin { user: Some(owned(user)), passwd: Some(owned(passwd)), ..self }
    }

    /// Sets both masks.
    pub fn with_masks(self, mask4: Option<u8>, mask6: Option<u8>) -> (p: RosAddrlistPlugin)
        ensures
            p == (RosAddrlistPlugin { mask4, mask6, ..self }),
    {
        RosAddrlistPlugin { mask4, mask6, ..self }
    }

    /// Sets the IPv4 mask.
    pub fn with_mask4(self, mask4: u8) -> (p: RosAddrlistPlugin)
        ensures
            p == (RosAddrlistPlugin { mask4: Some(mask4), ..self }),
    {
        RosAddrlistPlugin { mask4: Some(mask4), ..self }
    }

    /// Sets the IPv6 mask.
    pub fn with_mask6(self, mask6: u8) -> (p: RosAddrlistPlugin)
        ensures
            p == (RosAddrlistPlugin { mask6: Some(mask6), ..self }),
    {
        RosAddrlistPlugin { mask6: Some(mask6), ..self }
    }

    /// The plugin's registered name.
    pub fn name(&self) -> (s: &'static str)
        ensures
            s@ == "ros_addrlist"@,
    {
        "ros_addrlist"
    }

    /// The addresses of the response's A and AAAA answers, in order (none
    /// without a response).
    pub fn extract_ips(&self, ctx: &Context) -> (r: Vec<IpAddr>)
        ensures
            r@ == match ctx.response {
                Some(m) => answer_ips(m.answers@),
                None => Seq::empty(),
            },
    {
        let mut ips: Vec<IpAddr> = Vec::new();
        match &ctx.response {
            Some(resp) => {
                let mut i: usize = 0;
                while i < resp.answers.len()
                    invariant
                        i <= resp.answers@.len(),
                        ips@ == answer_ips(resp.answers@.take(i as int)),
                    decreases resp.answers.len() - i,
                {
                    assert(resp.answers@.take(i + 1).drop_last() =~= resp.answers@.take(i as int));
                    match &resp.answers[i].rdata {
                        RData::A(a) => ips.push(IpAddr::V4(*a)),
                        RData::AAAA(a) => ips.push(IpAddr::V6(*a)),
                        _ => {},
                    }
                    i = i + 1;
                }
                assert(resp.answers@.take(resp.answers@.len() as int) =~= resp.answers@);
            },
            None => {},
        }
        ips
    }

    /// The addresses to add for this query: none when tracking is off,
    /// else those of the response's answers.
    pub fn addresses_to_add(&self, ctx: &Context) -> (r: Vec<IpAddr>)
        ensures
            !self.track_responses ==> r@.len() == 0,
            self.track_responses ==> r@ == match ctx.response {
                Some(m) => answer_ips(m.answers@),
                None => Seq::empty(),
            },
    {
        if !self.track_responses {
            return Vec::new();
        }
        self.extract_ips(ctx)
    }

    /// The domain named in the comment: the first question's name without
    /// trailing dots (empty without a question).
    pub fn query_domain(ctx: &Context) -> (r: String)
        ensures
            r@ == if ctx.request.questions@.len() > 0 {
                trim_end_char(ctx.request.questions@[0].qname@, '.')
            } else {
                Seq::empty()
            },
    {
        if ctx.request.questions.len() > 0 {
            let q = chars_of(ctx.request.questions[0].qname.as_str());
            string_from_chars(&trim_end_char_exec(&q, '.'))
        } else {
            let e: Vec<char> = Vec::new();
            string_from_chars(&e)
        }
    }

    /// The request that adds `ip` for `domain`; `None` without a server.
    pub fn address_request(&self, ip: &IpAddr, domain: &str) -> (r: Option<AddressRequest>)
        ensures
            self.server is None <==> r is None,
            self.server matches Some(srv) ==> (r matches Some(q) && q.url@ == router_url(srv@, *ip)
                && q.address@ == ip_text(*ip) && q.list@ == self.list_name@
                && q.comment@ == "[lazydns] domain: "@ + domain@
                && match (self.user, self.passwd) {
                    (Some(u), Some(p)) => q.auth matches Some(a) && a.0@ == u@ && a.1@ == p@,
                    _ => q.auth is None,
                }),
    {
        let srv = match &self.server {
            Some(s) => s,
            None => {
                return None;
            },
        };
        let mut url = trim_end_char_exec(&chars_of(srv.as_str()), '/');
        let rest = chars_of("/rest/");
        append_chars(&mut url, &rest);
        let kind = match ip {
            IpAddr::V6(_) => chars_of("ipv6"),
            IpAddr::V4(_) => chars_of("ip"),
        };
        append_chars(&mut url, &kind);
        let tail = chars_of("/firewall/address-list/add");
        append_chars(&mut url, &tail);
        let mut comment = chars_of("[lazydns] domain: ");
        let d = chars_of(domain);
        append_chars(&mut comment, &d);
        let auth = match (&self.user, &self.passwd) {
            (Some(u), Some(p)) => Some((u.clone(), p.clone())),
            _ => None,
        };
        Some(
            AddressRequest {
                url: string_from_chars(&url),
                address: string_from_chars(&ip_to_chars(ip)),
                list: self.list_name.clone(),
                comment: string_from_chars(&comment),
                auth,
            },
        )
    }

    /// What a reply with HTTP status `status` (shown as `status_text`) means
    /// for `ip`.
    pub fn reply_outcome(status: u16, status_text: &str, ip: &IpAddr) -> (r: ReplyOutcome)
        ensures
            status == 200 || status == 400 ==> r is Continue,
            status == 401 ==> (r matches ReplyOutcome::Fail(m) && m@ == "unauthorized when adding "@ + ip_text(*ip)),
            status == 500 ==> (r matches ReplyOutcome::Fail(m) && m@ == "internal server error when adding "@ + ip_text(*ip)),
            status != 200 && status != 400 && status != 401 && status != 500 ==> (r matches ReplyOutcome::Fail(m)
                && m@ == "unexpected status code "@ + status_text@ + " when adding "@ + ip_text(*ip)),
    {
        if status == 200 || status == 400 {
            return ReplyOutcome::Continue;
        }
        let mut m = if status == 401 {
            chars_of("unauthorized when adding ")
        } else if status == 500 {
            chars_of("internal server error when adding ")
        } else {
            let mut m = chars_of("unexpected status code ");
            let t = chars_of(status_text);
            append_chars(&mut m, &t);
            let w = chars_of(" when adding ");
            append_chars(&mut m, &w);
            m
        };
        let a = ip_to_chars(ip);
        append_chars(&mut m, &a);
        ReplyOutcome::Fail(string_from_chars(&m))
    }

    /// Sets the plugin up from its arguments: `addrlist` (default
    /// `default`), `server`, `user` with `passwd`, `mask4` and `mask6`
    /// (integers, truncated to 8 bits).
    pub fn init(args: &Vec<(String, ConfigValue)>) -> (p: RosAddrlistPlugin)
        ensures
            p.list_name@ == match arg_get(args@, "addrlist"@) {
                Some(v) => match str_of(v) {
                    Some(s) => s,
                    None => "default"@,
                },
                None => "default"@,
            },
            p.track_responses,
            opt_text(p.server) == match arg_get(args@, "server"@) {
                Some(v) => str_of(v),
                None => None,
            },
            ({
                let u = match arg_get(args@, "user"@) {
                    Some(v) => str_of(v),
                    None => None,
                };
                let w = match arg_get(args@, "passwd"@) {
                    Some(v) => str_of(v),
                    None => None,
                };
                if u is Some && w is Some {
                    opt_text(p.user) == u && opt_text(p.passwd) == w
                } else {
                    p.user is None && p.passwd is None
                }
            }),
            p.mask4 == match arg_get(args@, "mask4"@) {
                Some(v) => match int_of(v) {
                    Some(m) => Some(m as u8),
                    None => None,
                },
                None => None,
            },
            p.mask6 == match arg_get(args@, "mask6"@) {
                Some(v) => match int_of(v) {
                    Some(m) => Some(m as u8),
                    None => None,
                },
                None => None,
            },
    {
        let mut plugin = match get_arg(args, "addrlist") {
            Some(ConfigValue::Str(s)) => RosAddrlistPlugin::new(s.as_str()),
            _ => RosAddrlistPlugin::new("default"),
        };
        match get_arg(args, "server") {
            Some(ConfigValue::Str(s)) => {
                plugin = plugin.with_server(s.as_str());
            },
            _ => {},
        }
        match (get_arg(args, "user"), get_arg(args, "passwd")) {
            (Some(ConfigValue::Str(u)), Some(ConfigValue::Str(w))) => {
                plugin = plugin.with_auth(u.as_str(), w.as_str());
            },
            _ => {},
        }
        match get_arg(args, "mask4") {
            Some(v) => match as_i64(v) {
                Some(m) => {
                    plugin = plugin.with_mask4(m as u8);
                },
                None => {},
            },
            None => {},
        }
        match get_arg(args, "mask6") {
            Some(v) => match as_i64(v) {
                Some(m) => {
                    plugin = plugin.with_mask6(m as u8);
                },
                None => {},
            },
            None => {},
        }
        plugin
    }
}

} // verus!
