use lazydns::config::ConfigValue;
use lazydns::dns::{Context, Message, RData, Record};
use lazydns::ip::{parse_ip, parse_net, IpAddr};
use lazydns::ip_set::{nets_from_content, IpSetPlugin};

fn ip(s: &str) -> IpAddr {
    parse_ip(s).unwrap()
}

#[test]
fn test_ip_set_creation() {
    let plugin = IpSetPlugin::new("test".to_string());
    assert_eq!(plugin.name, "test");
    assert!(plugin.files.is_empty());
    assert!(!plugin.auto_reload);
}

#[test]
fn test_ip_set_builder() {
    let plugin = IpSetPlugin::new("test".to_string()).with_files(vec!["file1.txt".to_string()]).with_auto_reload(true);
    assert_eq!(plugin.files.len(), 1);
    assert!(plugin.auto_reload);
}

#[test]
fn test_ip_matching() {
    let mut plugin = IpSetPlugin::new("test".to_string());
    plugin.networks.push(parse_net("192.168.0.0/16").unwrap());
    plugin.networks.push(parse_net("10.0.0.0/8").unwrap());
    assert!(plugin.matches(&ip("192.168.1.1")));
    assert!(plugin.matches(&ip("10.5.5.5")));
    assert!(!plugin.matches(&ip("8.8.8.8")));
}

#[test]
fn test_load_ip_file() {
    let networks = nets_from_content("# Comment line\n192.168.0.0/16\n10.0.0.1\n2001:db8::/32\n");
    assert_eq!(networks.len(), 3);
}

#[test]
fn load_networks_reads_files_then_entries() {
    let mut plugin = IpSetPlugin::new("test".to_string())
        .with_files(vec!["a.txt".to_string(), "gone.txt".to_string()])
        .with_ips(vec!["172.16.0.1".to_string(), "junk".to_string()]);
    plugin.load_networks(vec![Some("10.0.0.0/8\nnot-an-ip\n".to_string()), None]).unwrap();
    assert_eq!(plugin.networks.len(), 2);
    assert!(plugin.matches(&ip("10.1.2.3")));
    assert!(plugin.matches(&ip("172.16.0.1")));
    assert!(!plugin.matches(&ip("172.16.0.2")));
}

#[test]
fn test_init_with_ips() {
    let ips = ConfigValue::List(vec![
        ConfigValue::Str("1.1.1.1".to_string()),
        ConfigValue::Str("192.168.0.0/16".to_string()),
        ConfigValue::Str("2001:db8::/32".to_string()),
    ]);
    let args = vec![("ips".to_string(), ips)];
    let mut plugin = IpSetPlugin::init(&args, "test", Some("test".to_string()));
    plugin.load_networks(vec![]).unwrap();
    assert_eq!(plugin.networks.len(), 3);
    assert!(plugin.matches(&ip("1.1.1.1")));
    assert!(plugin.matches(&ip("192.168.1.1")));
    assert!(plugin.matches(&ip("2001:db8:0:0:0:0:0:1")));
    assert!(!plugin.matches(&ip("8.8.8.8")));
}

#[test]
fn test_init_with_ips_single_string() {
    let args = vec![("ips".to_string(), ConfigValue::Str("10.0.0.0/8".to_string()))];
    let mut plugin = IpSetPlugin::init(&args, "test", None);
    plugin.load_networks(vec![]).unwrap();
    assert!(plugin.matches(&ip("10.5.5.5")));
    assert!(!plugin.matches(&ip("192.168.1.1")));
}

#[test]
fn ip_set_matches_response_addresses() {
    let mut plugin = IpSetPlugin::new("test".to_string());
    plugin.networks.push(parse_net("10.0.0.0/8").unwrap());
    let mut ctx = Context::new(Message::new());
    assert!(!plugin.matches_context(&ctx));
    let mut resp = Message::new();
    resp.answers.push(Record { name: "a".to_string(), rtype: 5, class: 1, ttl: 1, rdata: RData::Name("b".to_string()) });
    resp.answers.push(Record { name: "b".to_string(), rtype: 1, class: 1, ttl: 1, rdata: RData::A(0x0a000001) });
    ctx.response = Some(resp);
    assert!(plugin.matches_context(&ctx));
}

#[test]
fn ip_set_get_networks_lists_loaded_networks() {
    let mut plugin = IpSetPlugin::new("test".to_string()).with_ips(vec!["10.0.0.0/8".to_string()]);
    plugin.load_networks(vec![]).unwrap();
    assert_eq!(plugin.get_networks().len(), 1);
    assert_eq!(plugin.get_networks()[0], parse_net("10.0.0.0/8").unwrap());
}
