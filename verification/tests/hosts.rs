use lazydns::dns::{Context, Message, Question};
use lazydns::hosts::{Hosts, HostsPlugin};
use lazydns::ip::IpAddr;

fn v4(a: u8, b: u8, c: u8, d: u8) -> IpAddr {
    IpAddr::V4(((a as u32) << 24) | ((b as u32) << 16) | ((c as u32) << 8) | (d as u32))
}

fn query(name: &str, qtype: u16) -> Context {
    let mut request = Message::new();
    request.questions.push(Question { qname: name.to_string(), qtype, qclass: 1 });
    Context::new(request)
}

#[test]
fn test_hosts_new() {
    let hosts = Hosts::new();
    assert!(hosts.is_empty());
    assert_eq!(hosts.len(), 0);
}

#[test]
fn test_hosts_default() {
    let hosts = Hosts::default();
    assert!(hosts.is_empty());
}

#[test]
fn test_add_host_ipv4() {
    let mut hosts = Hosts::new();
    hosts.add_host("localhost".to_string(), v4(127, 0, 0, 1));
    let ips = hosts.get_ips("localhost").unwrap();
    assert_eq!(ips.len(), 1);
    assert_eq!(ips[0], v4(127, 0, 0, 1));
}

#[test]
fn test_add_host_ipv6() {
    let mut hosts = Hosts::new();
    hosts.add_host("localhost".to_string(), IpAddr::V6(1));
    let ips = hosts.get_ips("localhost").unwrap();
    assert_eq!(ips.len(), 1);
    assert_eq!(ips[0], IpAddr::V6(1));
}

#[test]
fn test_add_host_multiple_ips() {
    let mut hosts = Hosts::new();
    hosts.add_host("localhost".to_string(), v4(127, 0, 0, 1));
    hosts.add_host("localhost".to_string(), IpAddr::V6(1));
    assert_eq!(hosts.get_ips("localhost").unwrap().len(), 2);
}

#[test]
fn hosts_test_case_insensitive() {
    let mut hosts = Hosts::new();
    hosts.add_host("Example.COM".to_string(), v4(93, 184, 216, 34));
    assert!(hosts.get_ips("example.com").is_some());
    assert!(hosts.get_ips("EXAMPLE.COM").is_some());
    assert!(hosts.get_ips("Example.Com").is_some());
    assert!(hosts.get_ips("Example.Com.").is_some());
}

#[test]
fn test_trailing_dot_normalized() {
    let mut hosts = Hosts::new();
    hosts.add_host("example.com.".to_string(), v4(1, 2, 3, 4));
    assert!(hosts.get_ips("example.com").is_some());
    assert!(hosts.get_ips("example.com.").is_some());
}

#[test]
fn test_remove_host() {
    let mut hosts = Hosts::new();
    hosts.add_host("example.com".to_string(), v4(1, 2, 3, 4));
    assert!(!hosts.is_empty());
    assert!(hosts.remove_host("example.com"));
    assert!(hosts.is_empty());
}

#[test]
fn test_remove_host_not_found() {
    let mut hosts = Hosts::new();
    assert!(!hosts.remove_host("nonexistent.com"));
}

#[test]
fn test_get_ips_not_found() {
    let hosts = Hosts::new();
    assert!(hosts.get_ips("nonexistent.com").is_none());
}

#[test]
fn hosts_test_clear() {
    let mut hosts = Hosts::new();
    hosts.add_host("a.com".to_string(), v4(1, 1, 1, 1));
    hosts.add_host("b.com".to_string(), v4(2, 2, 2, 2));
    assert_eq!(hosts.len(), 2);
    hosts.clear();
    assert!(hosts.is_empty());
}

#[test]
fn test_load_from_string_simple() {
    let mut hosts = Hosts::new();
    hosts.load_from_string("127.0.0.1 localhost").unwrap();
    let ips = hosts.get_ips("localhost").unwrap();
    assert_eq!(ips.len(), 1);
    assert_eq!(ips[0], v4(127, 0, 0, 1));
}

#[test]
fn test_load_from_string_multiple_hosts_per_line() {
    let mut hosts = Hosts::new();
    hosts.load_from_string("127.0.0.1 localhost loopback").unwrap();
    assert!(hosts.get_ips("localhost").is_some());
    assert!(hosts.get_ips("loopback").is_some());
}

#[test]
fn test_load_from_string_comments() {
    let mut hosts = Hosts::new();
    let content = "\n# This is a comment\n127.0.0.1 localhost\n# Another comment\n";
    hosts.load_from_string(content).unwrap();
    assert_eq!(hosts.len(), 1);
}

#[test]
fn test_load_from_string_empty_lines() {
    let mut hosts = Hosts::new();
    let content = "\n\n127.0.0.1 localhost\n\n192.168.1.1 router\n\n";
    hosts.load_from_string(content).unwrap();
    assert_eq!(hosts.len(), 2);
}

#[test]
fn test_load_from_string_ipv6() {
    let mut hosts = Hosts::new();
    hosts.load_from_string("::1 localhost").unwrap();
    let ips = hosts.get_ips("localhost").unwrap();
    assert_eq!(ips.len(), 1);
    assert!(matches!(ips[0], IpAddr::V6(_)));
}

#[test]
fn test_load_from_string_no_ip_error() {
    let mut hosts = Hosts::new();
    assert!(hosts.load_from_string("not-an-ip localhost").is_err());
}

#[test]
fn test_load_from_string_replaces_previous() {
    let mut hosts = Hosts::new();
    hosts.add_host("old.com".to_string(), v4(1, 1, 1, 1));
    hosts.load_from_string("2.2.2.2 new.com").unwrap();
    assert!(hosts.get_ips("old.com").is_none());
    assert!(hosts.get_ips("new.com").is_some());
}

#[test]
fn test_hosts_plugin_new() {
    let plugin = HostsPlugin::new();
    assert!(plugin.hosts.is_empty());
    assert!(plugin.files.is_empty());
    assert!(!plugin.auto_reload);
}

#[test]
fn test_hosts_plugin_default() {
    let plugin = HostsPlugin::default();
    assert!(plugin.hosts.is_empty());
}

#[test]
fn test_hosts_plugin_with_files() {
    let plugin = HostsPlugin::new().with_files(vec!["/etc/hosts".to_string()]);
    assert_eq!(plugin.files.len(), 1);
}

#[test]
fn test_hosts_plugin_with_auto_reload() {
    let plugin = HostsPlugin::new().with_auto_reload(true);
    assert!(plugin.auto_reload);
}

#[test]
fn test_hosts_plugin_add_host() {
    let mut plugin = HostsPlugin::new();
    plugin.hosts.add_host("example.com".to_string(), v4(1, 2, 3, 4));
    assert!(!plugin.hosts.is_empty());
}

#[test]
fn test_hosts_plugin_deref() {
    let mut plugin = HostsPlugin::new();
    plugin.hosts.add_host("test.com".to_string(), v4(1, 1, 1, 1));
    let hosts: &Hosts = &plugin.hosts;
    assert!(hosts.get_ips("test.com").is_some());
}

#[test]
fn test_hosts_plugin_start_watcher_no_files() {
    let plugin = HostsPlugin::new().with_auto_reload(true);
    assert!(!plugin.wants_watcher());
}

#[test]
fn test_hosts_plugin_start_watcher_disabled() {
    let plugin = HostsPlugin::new().with_files(vec!["/etc/hosts".to_string()]).with_auto_reload(false);
    assert!(!plugin.wants_watcher());
}

#[test]
fn test_hosts_plugin_execute_found_ipv4() {
    let mut plugin = HostsPlugin::new();
    plugin.hosts.add_host("test.local".to_string(), v4(10, 0, 0, 1));
    let mut ctx = query("test.local", 1);
    assert!(plugin.execute(&mut ctx));
    assert!(!ctx.response.as_ref().unwrap().answers.is_empty());
}

#[test]
fn test_hosts_plugin_execute_found_ipv6() {
    let mut plugin = HostsPlugin::new();
    plugin.hosts.add_host("test.local".to_string(), IpAddr::V6(1));
    let mut ctx = query("test.local", 28);
    plugin.execute(&mut ctx);
    assert!(!ctx.response.as_ref().unwrap().answers.is_empty());
}

#[test]
fn test_hosts_plugin_execute_not_found() {
    let plugin = HostsPlugin::new();
    let mut ctx = query("unknown.local", 1);
    plugin.execute(&mut ctx);
    assert!(ctx.response.is_none());
}

#[test]
fn test_hosts_plugin_execute_wrong_type() {
    let mut plugin = HostsPlugin::new();
    plugin.hosts.add_host("test.local".to_string(), v4(10, 0, 0, 1));
    let mut ctx = query("test.local", 28);
    plugin.execute(&mut ctx);
    if let Some(resp) = ctx.response.as_ref() {
        assert!(resp.answers.is_empty());
    }
}

#[test]
fn load_hosts_joins_readable_files() {
    let mut plugin = HostsPlugin::new().with_files(vec!["a".to_string(), "b".to_string(), "c".to_string()]);
    plugin
        .load_hosts(vec![Some("1.1.1.1 one.test".to_string()), None, Some("2.2.2.2 two.test".to_string())])
        .unwrap();
    assert_eq!(plugin.hosts.len(), 2);
    let mut untouched = HostsPlugin::new().with_files(vec!["gone".to_string()]);
    untouched.hosts.add_host("keep.test".to_string(), v4(3, 3, 3, 3));
    untouched.load_hosts(vec![None]).unwrap();
    assert!(untouched.hosts.get_ips("keep.test").is_some());
}
