use lazydns::dns::{Context, Message, Question, RData, Record};
use lazydns::ip::IpAddr;
use lazydns::reverse_lookup::{parse_ptr, ReverseLookupArgs, ReverseLookupPlugin};
use lazydns::ros_addrlist::RosAddrlistPlugin;

fn ip4(a: u8, b: u8, c: u8, d: u8) -> u32 {
    ((a as u32) << 24) | ((b as u32) << 16) | ((c as u32) << 8) | (d as u32)
}

fn rec(name: &str, rtype: u16, rdata: RData) -> Record {
    Record { name: name.to_string(), rtype, class: 1, ttl: 300, rdata }
}

fn msg_with_question(name: &str, qtype: u16) -> Message {
    let mut m = Message::new();
    m.questions.push(Question { qname: name.to_string(), qtype, qclass: 1 });
    m
}

#[test]
fn test_ros_addrlist_new() {
    let plugin = RosAddrlistPlugin::new("test_list");
    assert_eq!(plugin.list_name, "test_list");
    assert!(plugin.track_responses);
    assert!(plugin.server.is_none());
    assert!(plugin.user.is_none());
    assert!(plugin.passwd.is_none());
    assert!(plugin.mask4.is_none());
    assert!(plugin.mask6.is_none());
}

#[test]
fn test_ros_addrlist_builder_pattern() {
    let plugin = RosAddrlistPlugin::new("blocked")
        .track_responses(false)
        .with_server("http://localhost:8080")
        .with_auth("admin", "password")
        .with_masks(Some(24), Some(64))
        .with_mask4(16)
        .with_mask6(48);

    assert_eq!(plugin.list_name, "blocked");
    assert!(!plugin.track_responses);
    assert_eq!(plugin.server.as_deref(), Some("http://localhost:8080"));
    assert_eq!(plugin.user.as_deref(), Some("admin"));
    assert_eq!(plugin.passwd.as_deref(), Some("password"));
    assert_eq!(plugin.mask4, Some(16));
    assert_eq!(plugin.mask6, Some(48));
}

#[test]
fn test_ros_addrlist_extract_ips() {
    let plugin = RosAddrlistPlugin::new("test_list");
    let mut ctx = Context::new(Message::new());
    let mut response = Message::new();
    response.answers.push(rec("example.com", 1, RData::A(ip4(192, 0, 2, 1))));
    response.answers.push(rec("example.com", 28, RData::AAAA(0x2001_0db8_0000_0000_0000_0000_0000_0001)));
    ctx.response = Some(response);
    let ips = plugin.extract_ips(&ctx);
    assert_eq!(ips, vec![IpAddr::V4(ip4(192, 0, 2, 1)), IpAddr::V6(0x2001_0db8_0000_0000_0000_0000_0000_0001)]);
    assert_eq!(plugin.addresses_to_add(&ctx).len(), 2);
}

#[test]
fn test_ros_addrlist_disabled() {
    let plugin = RosAddrlistPlugin::new("test_list").track_responses(false);
    let mut ctx = Context::new(Message::new());
    let mut response = Message::new();
    response.answers.push(rec("example.com", 1, RData::A(ip4(192, 0, 2, 1))));
    ctx.response = Some(response);
    assert!(plugin.addresses_to_add(&ctx).is_empty());
}

#[test]
fn test_ros_addrlist_no_ips() {
    let plugin = RosAddrlistPlugin::new("test_list");
    let mut ctx = Context::new(Message::new());
    let mut response = Message::new();
    response.answers.push(rec("example.com", 5, RData::Name("target.example.com".to_string())));
    ctx.response = Some(response);
    assert!(plugin.addresses_to_add(&ctx).is_empty());
}

#[test]
fn test_ros_addrlist_no_response() {
    let plugin = RosAddrlistPlugin::new("test_list");
    let ctx = Context::new(Message::new());
    assert!(plugin.addresses_to_add(&ctx).is_empty());
}

#[test]
fn test_ros_addrlist_empty_response() {
    let plugin = RosAddrlistPlugin::new("test_list");
    let mut ctx = Context::new(Message::new());
    ctx.response = Some(Message::new());
    assert!(plugin.addresses_to_add(&ctx).is_empty());
}

#[test]
fn test_ros_addrlist_with_masks() {
    let plugin = RosAddrlistPlugin::new("test_list").with_mask4(24).with_mask6(64);
    let mut ctx = Context::new(Message::new());
    let mut response = Message::new();
    response.answers.push(rec("example.com", 1, RData::A(ip4(192, 0, 2, 100))));
    ctx.response = Some(response);
    assert_eq!(plugin.addresses_to_add(&ctx), vec![IpAddr::V4(ip4(192, 0, 2, 100))]);
}

#[test]
fn test_reverse_lookup_args_default() {
    let args = ReverseLookupArgs::default();
    assert!(args.handle_ptr);
    assert_eq!(args.ttl, 7200);
}

#[test]
fn test_reverse_lookup_new() {
    let plugin = ReverseLookupPlugin::new(ReverseLookupArgs::default());
    assert_eq!(plugin.name(), "reverse_lookup");
}

#[test]
fn test_reverse_lookup_quick_setup_default() {
    let plugin = ReverseLookupPlugin::quick_setup("");
    assert_eq!(plugin.name(), "reverse_lookup");
}

#[test]
fn test_parse_ipv4_ptr() {
    let ip = parse_ptr("1.2.3.4.in-addr.arpa.").unwrap();
    assert_eq!(ip, IpAddr::V4(ip4(4, 3, 2, 1)));
}

#[test]
fn test_parse_ipv4_ptr_no_trailing_dot() {
    let ip = parse_ptr("1.0.0.127.in-addr.arpa").unwrap();
    assert_eq!(ip, IpAddr::V4(ip4(127, 0, 0, 1)));
}

#[test]
fn test_parse_ipv4_ptr_invalid() {
    assert!(parse_ptr("1.2.3.in-addr.arpa").is_none());
}

#[test]
fn test_parse_ipv6_ptr() {
    let s = "1.0.0.0.0.0.0.0.0.0.0.0.0.0.0.0.0.0.0.0.0.0.0.0.0.0.0.0.0.0.0.0.ip6.arpa";
    assert_eq!(parse_ptr(s), Some(IpAddr::V6(1)));
}

#[test]
fn test_parse_unknown_suffix() {
    assert!(parse_ptr("example.com").is_none());
}

#[test]
fn test_save_ips_after_and_lookup_cached() {
    let req = msg_with_question("example.com", 1);
    let mut resp = Message::new();
    resp.answers.push(rec("example.com", 1, RData::A(ip4(1, 2, 3, 4))));
    let mut rl = ReverseLookupPlugin::new(ReverseLookupArgs::default());
    let ip = IpAddr::V4(ip4(1, 2, 3, 4));
    assert!(rl.lookup_cached(&ip, 1_000).is_none());
    rl.save_ips_after(&req, &resp, 1_000);
    let got = rl.lookup_cached(&ip, 2_000).expect("expected cached name");
    assert_eq!(got, "example.com");
    // the saved name lasts the answer's TTL (300 s)
    assert!(rl.lookup_cached(&ip, 1_000 + 300_000).is_none());
}

#[test]
fn test_save_ips_after_ipv6() {
    let req = msg_with_question("example.com", 28);
    let mut resp = Message::new();
    resp.answers.push(rec("example.com", 28, RData::AAAA(0x2001_0db8_0000_0000_0000_0000_0000_0001)));
    let mut rl = ReverseLookupPlugin::new(ReverseLookupArgs::default());
    rl.save_ips_after(&req, &resp, 0);
    let ip = IpAddr::V6(0x2001_0db8_0000_0000_0000_0000_0000_0001);
    assert!(rl.lookup_cached(&ip, 10).is_some());
}

#[test]
fn test_reverse_lookup_answers_ptr() {
    let mut plugin = ReverseLookupPlugin::new(ReverseLookupArgs::default());
    let req = msg_with_question("example.com", 1);
    let mut resp = Message::new();
    resp.answers.push(rec("example.com", 1, RData::A(ip4(10, 0, 0, 1))));
    plugin.save_ips_after(&req, &resp, 0);

    let mut ctx = Context::new(msg_with_question("1.0.0.10.in-addr.arpa", 12));
    assert!(plugin.execute(&mut ctx, 1_000));
    let r = ctx.response.as_ref().unwrap();
    assert_eq!(r.answers.len(), 1);
    match &r.answers[0].rdata {
        RData::Name(n) => assert_eq!(n, "example.com"),
        _ => panic!("expected PTR"),
    }
}

#[test]
fn test_reverse_lookup_ptr_not_found() {
    let mut plugin = ReverseLookupPlugin::new(ReverseLookupArgs::default());
    let mut ctx = Context::new(msg_with_question("1.0.0.10.in-addr.arpa", 12));
    plugin.execute(&mut ctx, 0);
    assert!(ctx.response.is_none());
}

#[test]
fn test_reverse_lookup_ptr_disabled() {
    let mut plugin = ReverseLookupPlugin::new(ReverseLookupArgs { handle_ptr: false, ttl: 7200 });
    let req = msg_with_question("example.com", 1);
    let mut resp = Message::new();
    resp.answers.push(rec("example.com", 1, RData::A(ip4(10, 0, 0, 1))));
    plugin.save_ips_after(&req, &resp, 0);
    let mut ctx = Context::new(msg_with_question("1.0.0.10.in-addr.arpa", 12));
    plugin.execute(&mut ctx, 1_000);
    assert!(ctx.response.is_none());
}

#[test]
fn test_reverse_lookup_non_ptr_query() {
    let mut plugin = ReverseLookupPlugin::new(ReverseLookupArgs::default());
    let mut ctx = Context::new(msg_with_question("example.com", 1));
    plugin.execute(&mut ctx, 0);
    assert!(ctx.response.is_none());
}
