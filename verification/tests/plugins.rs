use lazydns::acl::AclAction;
use lazydns::black_hole::BlackholePlugin;
use lazydns::cache::CachePlugin;
use lazydns::forward::{ForwardPlugin, LoadBalanceStrategy};
use lazydns::hosts::HostsPlugin;
use lazydns::ratelimit::RateLimitPlugin;
use lazydns::records::{ReturnPlugin, TtlPlugin};

#[test]
fn test_forward_plugin_accessible() {
    let plugin = ForwardPlugin::new(vec!["8.8.8.8:53".to_string()]);
    assert_eq!(plugin.name(), "forward");
}

#[test]
fn test_cache_plugin_accessible() {
    let plugin = CachePlugin::new(100);
    assert_eq!(plugin.name(), "cache");
}

#[test]
fn test_hosts_plugin_accessible() {
    let plugin = HostsPlugin::new();
    assert_eq!(plugin.name(), "hosts");
}

#[test]
fn test_ratelimit_plugin_accessible() {
    let plugin = RateLimitPlugin::new(10, 60);
    assert_eq!(plugin.name(), "rate_limit");
}

#[test]
fn test_advanced_plugins_accessible() {
    let empty: Vec<&str> = Vec::new();
    let _blackhole = BlackholePlugin::new_from_strs(&empty).unwrap();
    let _ttl = TtlPlugin::new(300, 0, 0);
    let _return = ReturnPlugin::new();
}

#[test]
fn test_load_balance_strategy() {
    let _rr = LoadBalanceStrategy::RoundRobin;
    let _random = LoadBalanceStrategy::Random;
    let _fastest = LoadBalanceStrategy::Fastest;

    assert_eq!(LoadBalanceStrategy::RoundRobin, LoadBalanceStrategy::RoundRobin);
}

#[test]
fn test_acl_action() {
    let _allow = AclAction::Allow;
    let _deny = AclAction::Deny;
}
