use lazydns::acl::{AclAction, AclRule, QueryAclPlugin};
use lazydns::config::ConfigValue;
use lazydns::dns::{Context, Message, RCODE_REFUSED};
use lazydns::ip::{parse_ip, parse_net, IpAddr, IpNet};

fn net(s: &str) -> IpNet {
    parse_net(s).unwrap()
}

fn ip(s: &str) -> IpAddr {
    parse_ip(s).unwrap()
}

fn text(s: &str) -> ConfigValue {
    ConfigValue::Str(s.to_string())
}

fn rule(network: &str, action: &str) -> ConfigValue {
    ConfigValue::Mapping(vec![(text("network"), text(network)), (text("action"), text(action))])
}

#[test]
fn test_acl_rule_matches() {
    let rule = AclRule::new(net("192.168.0.0/16"), AclAction::Allow);
    assert!(rule.matches(&ip("192.168.1.1")));
    assert!(rule.matches(&ip("192.168.255.255")));
    assert!(!rule.matches(&ip("10.0.0.1")));
}

#[test]
fn test_acl_default_action() {
    let acl = QueryAclPlugin::new(AclAction::Deny);
    assert_eq!(acl.evaluate(&ip("1.2.3.4")), AclAction::Deny);
}

#[test]
fn test_acl_allow_list() {
    let acl = QueryAclPlugin::allow_list(vec![net("192.168.0.0/16"), net("10.0.0.0/8")]);
    assert_eq!(acl.evaluate(&ip("192.168.1.1")), AclAction::Allow);
    assert_eq!(acl.evaluate(&ip("10.0.0.1")), AclAction::Allow);
    assert_eq!(acl.evaluate(&ip("1.2.3.4")), AclAction::Deny);
}

#[test]
fn test_acl_deny_list() {
    let acl = QueryAclPlugin::deny_list(vec![net("192.168.100.0/24")]);
    assert_eq!(acl.evaluate(&ip("192.168.100.50")), AclAction::Deny);
    assert_eq!(acl.evaluate(&ip("192.168.1.1")), AclAction::Allow);
    assert_eq!(acl.evaluate(&ip("1.2.3.4")), AclAction::Allow);
}

#[test]
fn test_acl_rule_order() {
    let mut acl = QueryAclPlugin::new(AclAction::Deny);
    acl.add_rule(net("192.168.1.0/24"), AclAction::Allow);
    acl.add_rule(net("192.168.0.0/16"), AclAction::Deny);
    assert_eq!(acl.evaluate(&ip("192.168.1.50")), AclAction::Allow);
    assert_eq!(acl.evaluate(&ip("192.168.2.50")), AclAction::Deny);
}

#[test]
fn test_acl_plugin_allow() {
    let acl = QueryAclPlugin::allow_list(vec![net("192.168.0.0/16")]);
    let mut ctx = Context::new(Message::new());
    ctx.client_ip = Some(ip("192.168.1.1"));
    acl.execute(&mut ctx);
    assert!(ctx.response.is_none());
}

#[test]
fn test_acl_plugin_deny() {
    let acl = QueryAclPlugin::allow_list(vec![net("192.168.0.0/16")]);
    let mut ctx = Context::new(Message::new());
    ctx.client_ip = Some(ip("1.2.3.4"));
    acl.execute(&mut ctx);
    assert_eq!(ctx.response.as_ref().unwrap().rcode, RCODE_REFUSED);
}

#[test]
fn acl_without_client_address_uses_localhost() {
    let acl = QueryAclPlugin::allow_list(vec![net("127.0.0.0/8")]);
    let mut ctx = Context::new(Message::new());
    acl.execute(&mut ctx);
    assert!(ctx.response.is_none());
}

#[test]
fn test_acl_plugin_init_allow_list() {
    let args = vec![
        ("default".to_string(), text("deny")),
        ("rules".to_string(), ConfigValue::List(vec![rule("192.168.0.0/16", "allow"), rule("10.0.0.0/8", "allow")])),
    ];
    let acl = QueryAclPlugin::init(&args).unwrap();
    assert_eq!(acl.evaluate(&ip("192.168.1.1")), AclAction::Allow);
    assert_eq!(acl.evaluate(&ip("10.0.0.1")), AclAction::Allow);
    assert_eq!(acl.evaluate(&ip("1.2.3.4")), AclAction::Deny);
}

#[test]
fn test_acl_plugin_init_deny_list() {
    let args = vec![
        ("default".to_string(), text("allow")),
        ("rules".to_string(), ConfigValue::List(vec![rule("192.168.100.0/24", "deny")])),
    ];
    let acl = QueryAclPlugin::init(&args).unwrap();
    assert_eq!(acl.evaluate(&ip("192.168.100.50")), AclAction::Deny);
    assert_eq!(acl.evaluate(&ip("192.168.1.1")), AclAction::Allow);
    assert_eq!(acl.evaluate(&ip("1.2.3.4")), AclAction::Allow);
}

#[test]
fn acl_init_errors() {
    let bad_default = vec![("default".to_string(), text("maybe"))];
    let e = QueryAclPlugin::init(&bad_default).unwrap_err();
    assert_eq!(e.message(), "invalid value 'maybe' for 'default': expected 'allow' or 'deny'");

    let non_string = vec![("default".to_string(), ConfigValue::Int(1))];
    assert!(QueryAclPlugin::init(&non_string).is_err());

    let missing = vec![(
        "rules".to_string(),
        ConfigValue::List(vec![ConfigValue::Mapping(vec![(text("action"), text("allow"))])]),
    )];
    assert_eq!(QueryAclPlugin::init(&missing).unwrap_err().message(), "missing field 'network' in acl rule");

    let bad_net = vec![("rules".to_string(), ConfigValue::List(vec![rule("not-a-net", "allow")]))];
    assert_eq!(
        QueryAclPlugin::init(&bad_net).unwrap_err().message(),
        "invalid value 'not-a-net' for 'network': invalid IP address syntax"
    );

    let not_mapping = vec![("rules".to_string(), ConfigValue::List(vec![text("x")]))];
    assert_eq!(QueryAclPlugin::init(&not_mapping).unwrap_err().message(), "each rule must be a mapping");

    let upper = vec![("default".to_string(), text("ALLOW"))];
    assert_eq!(QueryAclPlugin::init(&upper).unwrap().evaluate(&ip("1.1.1.1")), AclAction::Allow);
}
