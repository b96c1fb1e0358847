//! EDNS Client Subnet (RFC 7871): the option that tells upstream servers
//! which client network a query comes from.

use vstd::prelude::*;
use crate::error::{ErrView, PluginError};
use crate::ip::{ip_parse, IpAddr};
use crate::sets::{prefix_error_view, unsupported_prefix};
use crate::text::{
    append_chars, chars_eq, chars_of, find_char, first_of, owned, parse_unsigned, parse_unsigned_chars,
    slice_chars, split_char, split_on, string_from_chars, trim, trim_chars, views,
};

verus! {

/// Settings of the client subnet plugin.
#[derive(Debug, Clone)]
pub struct EcsArgs {
    /// Whether to forward client-provided EDNS0 options
    pub forward: Option<bool>,
    /// Whether to derive and send ECS from client address
    pub send: Option<bool>,
    /// Optional preset IP address to use as ECS
    pub preset: Option<String>,
    /// IPv4 source prefix length (default: 24)
    pub mask4: Option<u8>,
    /// IPv6 source prefix length (default: 48)
    pub mask6: Option<u8>,
}

/// The text of the error a failed address parse reports
/// (`AddrParseError`'s `Display`).
pub uninterp spec fn addr_error_text(s: Seq<char>) -> Seq<char>;

/// Parses an address; a failure gives the parser's error text.
#[verifier::external_body]
fn parse_addr(s: &str) -> (r: Result<IpAddr, String>)
    ensures
        match ip_parse(s@) {
            Some(ip) => r == Ok::<IpAddr, String>(ip),
            None => r matches Err(m) && m@ == addr_error_text(s@),
        },
{
    match s.parse::<core::net::IpAddr>() {
        Ok(core::net::IpAddr::V4(a)) => Ok(IpAddr::V4(u32::from(a))),
        Ok(core::net::IpAddr::V6(a)) => Ok(IpAddr::V6(u128::from(a))),
        Err(e) => Err(e.to_string()),
    }
}

/// Prepares client subnet options for forwarded queries.
#[derive(Debug, Clone)]
pub struct EcsPlugin {
    pub forward: bool,
    pub send: bool,
    pub preset: Option<IpAddr>,
    pub mask4: u8,
    pub mask6: u8,
}

/// Settings as given: `(forward, send, preset, mask4, mask6)`.
pub type EcsGiven = (Option<bool>, Option<bool>, Option<Seq<char>>, Option<u8>, Option<u8>);

/// The settings as given in the arguments.
pub open spec fn ecs_given(args: EcsArgs) -> EcsGiven {
    (args.forward, args.send, match args.preset {
        Some(p) => Some(p@),
        None => None,
    }, args.mask4, args.mask6)
}

/// The settings of a plugin, `(forward, send, preset, mask4, mask6)`, or
/// the error: masks at most 32 and 128, a preset that is an address.
pub open spec fn ecs_settings_of(g: EcsGiven) -> Result<(bool, bool, Option<IpAddr>, u8, u8), ErrView> {
    let forward = match g.0 { Some(b) => b, None => false };
    let send = match g.1 { Some(b) => b, None => false };
    let mask4 = match g.3 { Some(m) => m, None => 24u8 };
    let mask6 = match g.4 { Some(m) => m, None => 48u8 };
    if mask4 > 32 || mask6 > 128 {
        Err(ErrView::Other("invalid mask"@))
    } else {
        match g.2 {
            Some(p) => match ip_parse(p) {
                Some(ip) => Ok((forward, send, Some(ip), mask4, mask6)),
                None => Err(ErrView::Other("invalid preset addr: "@ + addr_error_text(p))),
            },
            None => Ok((forward, send, None, mask4, mask6)),
        }
    }
}

/// The settings of a plugin made from `args`.
pub open spec fn ecs_settings(args: EcsArgs) -> Result<(bool, bool, Option<IpAddr>, u8, u8), ErrView> {
    ecs_settings_of(ecs_given(args))
}

/// The big-endian bytes of an address.
pub open spec fn ip_octets(ip: IpAddr) -> Seq<u8> {
    match ip {
        IpAddr::V4(a) => Seq::new(4, |i: int| ((a >> ((24 - 8 * i) as u32)) & 0xff) as u8),
        IpAddr::V6(a) => Seq::new(16, |i: int| ((a >> ((120 - 8 * i) as u128)) & 0xff) as u8),
    }
}

/// Byte `j` of an address truncated to its first `src` bits: bytes wholly
/// inside the prefix are kept, and in the byte the prefix ends in, the bits
/// past the prefix are zero.
pub open spec fn masked_octet(o: u8, j: int, src: int) -> u8 {
    if (j + 1) * 8 <= src {
        o
    } else {
        o & (0xffu8 << ((8 - (src - 8 * j)) as u8))
    }
}

/// The client subnet option for an address (RFC 7871): code 8 and data
/// `FAMILY(2) | SOURCE PREFIX | SCOPE PREFIX 0 | ADDRESS`, the prefix being
/// the family's mask, at most the address width, and the address its first
/// ceil(prefix / 8) bytes with every bit past the prefix zero.
pub open spec fn ecs_option(ip: IpAddr, mask4: u8, mask6: u8) -> (u16, Seq<u8>) {
    let (family, src): (u8, u8) = match ip {
        IpAddr::V4(_) => (1, if mask4 < 32 { mask4 } else { 32 }),
        IpAddr::V6(_) => (2, if mask6 < 128 { mask6 } else { 128 }),
    };
    let n = (src as int + 7) / 8;
    (8, seq![0u8, family, src, 0u8] + Seq::new(n as nat, |j: int| masked_octet(ip_octets(ip)[j], j, src as int)))
}

fn octets_of(ip: &IpAddr) -> (r: Vec<u8>)
    ensures
        r@ == ip_octets(*ip),
{
    let mut r: Vec<u8> = Vec::new();
    match ip {
        IpAddr::V4(a) => {
            let mut i: u32 = 0;
            while i < 4
                invariant
                    i <= 4,
                    r@.len() == i,
                    forall|j: int| 0 <= j < i ==> r@[j] == ((*a >> ((24 - 8 * j) as u32)) & 0xff) as u8,
                decreases 4 - i,
            {
                let sh: u32 = 24 - 8 * i;
                r.push(((*a >> sh) & 0xff) as u8);
                i = i + 1;
            }
            assert(r@ =~= ip_octets(*ip));
        },
        IpAddr::V6(a) => {
            let mut i: u32 = 0;
            while i < 16
                invariant
                    i <= 16,
                    r@.len() == i,
                    forall|j: int| 0 <= j < i ==> r@[j] == ((*a >> ((120 - 8 * j) as u128)) & 0xff) as u8,
                decreases 16 - i,
            {
                let sh: u128 = (120 - 8 * i) as u128;
                r.push(((*a >> sh) & 0xff) as u8);
                i = i + 1;
            }
            assert(r@ =~= ip_octets(*ip));
        },
    }
    r
}

impl EcsPlugin {
    /// The plugin from its settings (see [`ecs_settings`]).
    pub fn new(args: EcsArgs) -> (r: Result<EcsPlugin, PluginError>)
        ensures
            match ecs_settings(args) {
                Ok((f, s, p, m4, m6)) => r matches Ok(x) && x.forward == f && x.send == s && x.preset == p
                    && x.mask4 == m4 && x.mask6 == m6,
                Err(e) => r matches Err(x) && x.view() == e,
            },
    {
        let forward = match args.forward {
            Some(b) => b,
            None => false,
        };
        let send = match args.send {
            Some(b) => b,
            None => false,
        };
        let mask4 = match args.mask4 {
            Some(m) => m,
            None => 24,
        };
        let mask6 = match args.mask6 {
            Some(m) => m,
            None => 48,
        };
        if mask4 > 32 || mask6 > 128 {
            return Err(PluginError::Other(owned("invalid mask")));
        }
        let preset = match &args.preset {
            Some(p) => match parse_addr(p.as_str()) {
                Ok(ip) => Some(ip),
                Err(e) => {
                    let mut m = chars_of("invalid preset addr: ");
                    let ec = chars_of(e.as_str());
                    append_chars(&mut m, &ec);
                    return Err(PluginError::Other(string_from_chars(&m)));
                },
            },
            None => None,
        };
        Ok(EcsPlugin { forward, send, preset, mask4, mask6 })
    }

    /// The plugin's registered name.
    pub fn name(&self) -> (s: &'static str)
        ensures
            s@ == "ecs"@,
    {
        "ecs"
    }

    /// The client subnet option for an address (see [`ecs_option`]).
    pub fn make_ecs_option(ip: IpAddr, mask4: u8, mask6: u8) -> (r: (u16, Vec<u8>))
        ensures
            (r.0, r.1@) == ecs_option(ip, mask4, mask6),
    {
        let (family, src): (u8, u8) = match ip {
            IpAddr::V4(_) => (1, if mask4 < 32 {
                mask4
            } else {
                32
            }),
            IpAddr::V6(_) => (2, if mask6 < 128 {
                mask6
            } else {
                128
            }),
        };
        let n: usize = ((src as usize) + 7) / 8;
        let octets = octets_of(&ip);
        let mut data: Vec<u8> = Vec::new();
        data.push(0u8);
        data.push(family);
        data.push(src);
        data.push(0u8);
        let mut i: usize = 0;
        while i < n
            invariant
                n <= octets@.len(),
                n == (src as int + 7) / 8,
                i <= n,
                data@ == seq![0u8, family, src, 0u8] + Seq::new(i as nat, |j: int| masked_octet(octets@[j], j, src as int)),
            decreases n - i,
        {
            let o = octets[i];
            let b: u8 = if (i + 1) * 8 <= src as usize {
                o
            } else {
                let keep: u8 = (src as usize - 8 * i) as u8;
                o & (0xffu8 << (8 - keep))
            };
            assert(b == masked_octet(octets@[i as int], i as int, src as int));
            let ghost before = data@;
            data.push(b);
            assert(data@ =~= seq![0u8, family, src, 0u8] + Seq::new((i + 1) as nat, |j: int| masked_octet(octets@[j], j, src as int))) by {
                assert(data@ == before.push(b));
            }
            i = i + 1;
        }
        (8, data)
    }

    /// The options to attach to the forwarded query, if any: the client's
    /// own options when forwarding and it sent some; else the preset
    /// address's option; else, when sending, the option of the client
    /// address (given as text) if it is an address. Attached options are to
    /// be kept along with existing ones.
    pub fn options_for(&self, client_options: Option<Vec<(u16, Vec<u8>)>>, client_addr: Option<String>) -> (r: Option<Vec<(u16, Vec<u8>)>>)
        ensures
            self.forward && client_options is Some ==> r == client_options,
            !(self.forward && client_options is Some) && self.preset is Some ==> (r matches Some(v)
                && v@.len() == 1 && (v@[0].0, v@[0].1@) == ecs_option(self.preset->Some_0, self.mask4, self.mask6)),
            !(self.forward && client_options is Some) && self.preset is None ==> match client_addr {
                Some(a) => if self.send && ip_parse(a@) is Some {
                    r matches Some(v) && v@.len() == 1 && (v@[0].0, v@[0].1@) == ecs_option(
                        ip_parse(a@)->Some_0,
                        self.mask4,
                        self.mask6,
                    )
                } else {
                    r is None
                },
                None => r is None,
            },
    {
        if self.forward && client_options.is_some() {
            return client_options;
        }
        match self.preset {
            Some(ip) => {
                let opt = EcsPlugin::make_ecs_option(ip, self.mask4, self.mask6);
                let mut v: Vec<(u16, Vec<u8>)> = Vec::new();
                v.push(opt);
                return Some(v);
            },
            None => {},
        }
        if !self.send {
            return None;
        }
        match client_addr {
            Some(a) => match crate::ip::parse_ip(a.as_str()) {
                Some(ip) => {
                    let opt = EcsPlugin::make_ecs_option(ip, self.mask4, self.mask6);
                    let mut v: Vec<(u16, Vec<u8>)> = Vec::new();
                    v.push(opt);
                    Some(v)
                },
                None => None,
            },
            None => None,
        }
    }
}

/// One `key=value` option of the exec form applied to the settings so far.
pub open spec fn ecs_option_step(g: EcsGiven, part: Seq<char>) -> Result<EcsGiven, ErrView> {
    let p = trim(part);
    if p.len() == 0 {
        Ok(g)
    } else {
        let k = first_of(p, '=');
        if k >= p.len() {
            Err(ErrView::Config("Invalid key=value pair: '"@ + p + "'"@))
        } else {
            let key = trim(p.take(k));
            let value = trim(p.skip(k + 1));
            if key == "forward"@ || key == "send"@ {
                let b = if value == "true"@ {
                    Some(true)
                } else if value == "false"@ {
                    Some(false)
                } else {
                    None
                };
                match b {
                    None => Err(ErrView::Config("Invalid boolean for "@ + key + ": '"@ + value + "'"@)),
                    Some(x) => if key == "forward"@ {
                        Ok((Some(x), g.1, g.2, g.3, g.4))
                    } else {
                        Ok((g.0, Some(x), g.2, g.3, g.4))
                    },
                }
            } else if key == "preset"@ {
                Ok((g.0, g.1, Some(value), g.3, g.4))
            } else if key == "mask4"@ || key == "mask6"@ {
                match parse_unsigned(value, 255) {
                    None => Err(ErrView::Config("Invalid u8 for "@ + key + ": '"@ + value + "'"@)),
                    Some(n) => if key == "mask4"@ {
                        Ok((g.0, g.1, g.2, Some(n as u8), g.4))
                    } else {
                        Ok((g.0, g.1, g.2, g.3, Some(n as u8)))
                    },
                }
            } else {
                Err(ErrView::Config("Unknown option: '"@ + key + "'"@))
            }
        }
    }
}

/// The options of the exec form applied in order, or the first error.
pub open spec fn ecs_options(parts: Seq<Seq<char>>) -> Result<EcsGiven, ErrView>
    decreases parts.len(),
{
    if parts.len() == 0 {
        Ok((None, None, None, None, None))
    } else {
        match ecs_options(parts.drop_last()) {
            Err(e) => Err(e),
            Ok(g) => ecs_option_step(g, parts.last()),
        }
    }
}

/// What the exec form `ecs <exec_str>` sets up: comma-separated
/// `key=value` options (`forward`, `send`, `preset`, `mask4`, `mask6`).
pub open spec fn ecs_exec(prefix: Seq<char>, exec_str: Seq<char>) -> Result<(bool, bool, Option<IpAddr>, u8, u8), ErrView> {
    if prefix != "ecs"@ {
        Err(prefix_error_view(prefix, "ecs"@))
    } else {
        match ecs_options(split_on(exec_str, ',')) {
            Err(e) => Err(e),
            Ok(g) => ecs_settings_of(g),
        }
    }
}

proof fn lemma_options_err_sticks(parts: Seq<Seq<char>>, k: int)
    requires
        0 <= k <= parts.len(),
        ecs_options(parts.take(k)) is Err,
    ensures
        ecs_options(parts) == ecs_options(parts.take(k)),
    decreases parts.len() - k,
{
    if k < parts.len() {
        assert(parts.take(k + 1).drop_last() =~= parts.take(k));
        lemma_options_err_sticks(parts, k + 1);
    } else {
        assert(parts.take(k) =~= parts);
    }
}

fn quoted_error(prefix: &str, body: &Vec<char>, mid: &str, value: &Vec<char>) -> (e: PluginError)
    ensures
        e.view() == ErrView::Config(prefix@ + body@ + mid@ + value@ + "'"@),
{
    let mut m = chars_of(prefix);
    append_chars(&mut m, body);
    let mc = chars_of(mid);
    append_chars(&mut m, &mc);
    append_chars(&mut m, value);
    let q = chars_of("'");
    append_chars(&mut m, &q);
    PluginError::Config(string_from_chars(&m))
}

/// Applies one option (see [`ecs_option_step`]).
fn apply_option(args: &mut EcsArgs, part: &Vec<char>) -> (r: Result<(), PluginError>)
    ensures
        match ecs_option_step(ecs_given(*old(args)), part@) {
            Ok(g) => r is Ok && ecs_given(*final(args)) == g,
            Err(e) => r matches Err(x) && x.view() == e,
        },
{
    let p = trim_chars(part);
    if p.len() == 0 {
        return Ok(());
    }
    let k = find_char(&p, '=');
    if k >= p.len() {
        let empty: Vec<char> = Vec::new();
        let r = quoted_error("Invalid key=value pair: '", &p, "", &empty);
        assert(""@ + Seq::<char>::empty() =~= Seq::<char>::empty()) by {
            reveal_strlit("");
        }
        assert(("Invalid key=value pair: '"@ + p@ + ""@ + Seq::<char>::empty() + "'"@) =~= ("Invalid key=value pair: '"@ + p@ + "'"@)) by {
            reveal_strlit("");
        }
        return Err(r);
    }
    let key = trim_chars(&slice_chars(&p, 0, k));
    let value = trim_chars(&slice_chars(&p, k + 1, p.len()));
    let is_forward = chars_eq(&key, &chars_of("forward"));
    let is_send = chars_eq(&key, &chars_of("send"));
    if is_forward || is_send {
        let b = if chars_eq(&value, &chars_of("true")) {
            Some(true)
        } else if chars_eq(&value, &chars_of("false")) {
            Some(false)
        } else {
            None
        };
        match b {
            None => {
                return Err(quoted_error("Invalid boolean for ", &key, ": '", &value));
            },
            Some(x) => {
                if is_forward {
                    args.forward = Some(x);
                } else {
                    args.send = Some(x);
                }
                return Ok(());
            },
        }
    }
    if chars_eq(&key, &chars_of("preset")) {
        args.preset = Some(string_from_chars(&value));
        return Ok(());
    }
    let is_m4 = chars_eq(&key, &chars_of("mask4"));
    let is_m6 = chars_eq(&key, &chars_of("mask6"));
    if is_m4 || is_m6 {
        match parse_unsigned_chars(&value, 255) {
            None => {
                return Err(quoted_error("Invalid u8 for ", &key, ": '", &value));
            },
            Some(n) => {
                if is_m4 {
                    args.mask4 = Some(n as u8);
                } else {
                    args.mask6 = Some(n as u8);
                }
                return Ok(());
            },
        }
    }
    let empty: Vec<char> = Vec::new();
    let r = quoted_error("Unknown option: '", &key, "", &empty);
    assert(("Unknown option: '"@ + key@ + ""@ + Seq::<char>::empty() + "'"@) =~= ("Unknown option: '"@ + key@ + "'"@)) by {
        reveal_strlit("");
    }
    Err(r)
}

impl EcsPlugin {
    /// Sets the plugin up from its exec form (see [`ecs_exec`]).
    pub fn quick_setup(prefix: &str, exec_str: &str) -> (r: Result<EcsPlugin, PluginError>)
        ensures
            match ecs_exec(prefix@, exec_str@) {
                Ok((f, s, p, m4, m6)) => r matches Ok(x) && x.forward == f && x.send == s && x.preset == p
                    && x.mask4 == m4 && x.mask6 == m6,
                Err(e) => r matches Err(x) && x.view() == e,
            },
    {
        let pc = chars_of(prefix);
        if !chars_eq(&pc, &chars_of("ecs")) {
            return Err(unsupported_prefix(prefix, "ecs"));
        }
        let e = chars_of(exec_str);
        let parts = split_char(&e, ',');
        let ghost pv = views(parts@);
        let mut args = EcsArgs { forward: None, send: None, preset: None, mask4: None, mask6: None };
        let mut i: usize = 0;
        assert(pv.take(0) =~= Seq::<Seq<char>>::empty());
        while i < parts.len()
            invariant
                pv == views(parts@),
                pv == split_on(exec_str@, ','),
                prefix@ == "ecs"@,
                i <= parts@.len(),
                ecs_options(pv.take(i as int)) == Ok::<EcsGiven, ErrView>(ecs_given(args)),
            decreases parts.len() - i,
        {
            proof {
                assert(pv.take(i + 1).drop_last() =~= pv.take(i as int));
                assert(pv.take(i + 1).last() == parts@[i as int]@);
            }
            match apply_option(&mut args, &parts[i]) {
                Ok(()) => {},
                Err(err) => {
                    proof {
                        lemma_options_err_sticks(pv, i + 1);
                    }
                    return Err(err);
                },
            }
            i = i + 1;
        }
        assert(pv.take(pv.len() as int) =~= pv);
        EcsPlugin::new(args)
    }
}

} // verus!
