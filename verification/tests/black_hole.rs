use lazydns::black_hole::BlackholePlugin;
use lazydns::dns::{Context, Message, Question, RData};

fn query(qtype: u16) -> Context {
    let mut req = Message::new();
    req.questions.push(Question { qname: "example.com".to_string(), qtype, qclass: 1 });
    Context::new(req)
}

#[test]
fn test_black_hole_new_ipv4_only() {
    let plugin = BlackholePlugin::new_from_strs(&["192.0.2.1", "192.0.2.2"]).unwrap();
    assert_eq!(plugin.ipv4.len(), 2);
    assert_eq!(plugin.ipv6.len(), 0);
}

#[test]
fn test_black_hole_new_ipv6_only() {
    let plugin = BlackholePlugin::new_from_strs(&["2001:db8::1", "2001:db8::2"]).unwrap();
    assert_eq!(plugin.ipv4.len(), 0);
    assert_eq!(plugin.ipv6.len(), 2);
}

#[test]
fn test_black_hole_new_mixed() {
    let plugin = BlackholePlugin::new_from_strs(&["192.0.2.1", "2001:db8::1"]).unwrap();
    assert_eq!(plugin.ipv4.len(), 1);
    assert_eq!(plugin.ipv6.len(), 1);
}

#[test]
fn test_black_hole_new_empty() {
    let empty: Vec<&str> = Vec::new();
    let plugin = BlackholePlugin::new_from_strs(&empty).unwrap();
    assert_eq!(plugin.ipv4.len(), 0);
    assert_eq!(plugin.ipv6.len(), 0);
}

#[test]
fn test_black_hole_new_invalid_ip() {
    assert!(BlackholePlugin::new_from_strs(&["not-an-ip"]).is_err());
}

#[test]
fn test_black_hole_name() {
    let plugin = BlackholePlugin::new_from_strs(&["0.0.0.0"]).unwrap();
    assert_eq!(plugin.name(), "blackhole");
}

#[test]
fn test_black_hole_aliases() {
    let aliases = BlackholePlugin::aliases();
    assert!(aliases.contains(&"sinkhole"));
    assert!(aliases.contains(&"black_hole"));
    assert!(aliases.contains(&"null_dns"));
}

#[test]
fn test_black_hole_a() {
    let plugin = BlackholePlugin::new_from_strs(&["192.0.2.1"]).unwrap();
    let mut ctx = query(1);
    plugin.execute(&mut ctx);
    let resp = ctx.response.as_ref().unwrap();
    assert_eq!(resp.answers.len(), 1);
    match &resp.answers[0].rdata {
        RData::A(ip) => assert_eq!(*ip, (192u32 << 24) | (2 << 8) | 1),
        _ => panic!("expected A"),
    }
}

#[test]
fn test_black_hole_aaaa() {
    let plugin = BlackholePlugin::new_from_strs(&["2001:db8::1"]).unwrap();
    let mut ctx = query(28);
    plugin.execute(&mut ctx);
    let resp = ctx.response.as_ref().unwrap();
    assert_eq!(resp.answers.len(), 1);
    match &resp.answers[0].rdata {
        RData::AAAA(_) => {}
        _ => panic!("expected AAAA"),
    }
}

#[test]
fn test_black_hole_multiple_answers() {
    let plugin = BlackholePlugin::new_from_strs(&["192.0.2.1", "192.0.2.2", "192.0.2.3"]).unwrap();
    let mut ctx = query(1);
    plugin.execute(&mut ctx);
    assert_eq!(ctx.response.as_ref().unwrap().answers.len(), 3);
}

#[test]
fn test_black_hole_no_matching_type() {
    let plugin = BlackholePlugin::new_from_strs(&["192.0.2.1"]).unwrap();
    let mut ctx = query(28);
    plugin.execute(&mut ctx);
    assert!(ctx.response.is_none());
}

#[test]
fn test_black_hole_no_questions() {
    let plugin = BlackholePlugin::new_from_strs(&["192.0.2.1"]).unwrap();
    let mut ctx = Context::new(Message::new());
    plugin.execute(&mut ctx);
    assert!(ctx.response.is_none());
}

#[test]
fn test_black_hole_empty_config() {
    let empty: Vec<&str> = Vec::new();
    let plugin = BlackholePlugin::new_from_strs(&empty).unwrap();
    let mut ctx = query(1);
    plugin.execute(&mut ctx);
    assert!(ctx.response.is_none());
}

#[test]
fn black_hole_test_exec_plugin_quick_setup() {
    let plugin = BlackholePlugin::quick_setup("blackhole", "192.0.2.1").unwrap();
    assert_eq!(plugin.name(), "blackhole");

    assert!(BlackholePlugin::quick_setup("invalid", "192.0.2.1").is_err());

    let plugin = BlackholePlugin::quick_setup("blackhole", "192.0.2.1,2001:db8::1").unwrap();
    assert_eq!(plugin.name(), "blackhole");
}

#[test]
fn test_exec_plugin_quick_setup_aliases() {
    for prefix in ["sinkhole", "black_hole", "null_dns"] {
        let plugin = BlackholePlugin::quick_setup(prefix, "0.0.0.0").unwrap();
        assert_eq!(plugin.name(), "blackhole");
    }
}

#[test]
fn test_exec_plugin_quick_setup_empty_ips() {
    let plugin = BlackholePlugin::quick_setup("blackhole", "").unwrap();
    assert_eq!(plugin.name(), "blackhole");
}

#[test]
fn test_exec_plugin_quick_setup_invalid_ip() {
    assert!(BlackholePlugin::quick_setup("blackhole", "not-an-ip").is_err());
}
