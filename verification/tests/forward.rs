use lazydns::config::ConfigValue;
use lazydns::forward::{
    normalize_addr, Forward, ForwardBuilder, ForwardMode, ForwardPlugin, LoadBalanceStrategy, SequentialStep,
    Upstream, UpstreamHealth,
};

fn ups() -> Vec<Upstream> {
    vec![Upstream::new("8.8.8.8:53".to_string()), Upstream::new("1.1.1.1:53".to_string())]
}

fn select_random_and_fastest() {
    let core = Forward::new(ups(), 5, LoadBalanceStrategy::Random);
    for n in 0..10u128 {
        let idx = core.select_upstream(0, n * 7919).unwrap();
        assert!(idx < core.upstreams.len());
    }
    let core2 = Forward::new(ups(), 5, LoadBalanceStrategy::Fastest);
    assert_eq!(core2.select_upstream(0, 0).unwrap(), 0);

    let mut u = ups();
    u[1].health.record_success(5_000);
    u[0].health.record_success(100_000);
    let core3 = Forward::new(u, 5, LoadBalanceStrategy::Fastest);
    assert_eq!(core3.select_upstream(0, 0).unwrap(), 1);
}

#[test]
fn forward_test_select_upstream_random_and_fastest() {
    select_random_and_fastest();
}

#[test]
fn mod_test_select_upstream_random_and_fastest() {
    select_random_and_fastest();
}

#[test]
fn test_record_success_concurrent_updates_keep_avg_in_range() {
    let mut health = UpstreamHealth::new();
    for _ in 0..4000 {
        health.record_success(20_000);
    }
    let (q, s, f) = health.counters();
    assert_eq!((q, s, f), (4000, 4000, 0));
    let avg = health.avg_response_time_us();
    assert!((1_000..=20_000).contains(&avg));
}

fn builder_pattern() {
    let core = ForwardBuilder::new()
        .add_upstream(Upstream::new("8.8.8.8:53".to_string()))
        .add_upstream(Upstream::new("1.1.1.1:53".to_string()))
        .timeout(10)
        .strategy(LoadBalanceStrategy::Fastest)
        .enable_health_checks(true)
        .max_attempts(5)
        .build();
    let plugin = ForwardPlugin { core, current: 0, concurrent_queries: false, tag: None };
    assert_eq!(plugin.core.upstreams.len(), 2);
    assert_eq!(plugin.core.timeout_secs, 10);
    assert_eq!(plugin.core.strategy, LoadBalanceStrategy::Fastest);
    assert!(plugin.core.health_checks_enabled);
    assert_eq!(plugin.core.max_attempts, 5);
}

#[test]
fn forward_test_builder_pattern() {
    builder_pattern();
}

#[test]
fn mod_test_builder_pattern() {
    builder_pattern();
}

fn add_upstream_with_tag() {
    let core = ForwardBuilder::new()
        .add_upstream(Upstream::with_tag("8.8.8.8:53".to_string(), "google".to_string()))
        .build();
    let plugin = ForwardPlugin { core, current: 0, concurrent_queries: false, tag: None };
    assert_eq!(plugin.core.upstreams.len(), 1);
    assert_eq!(plugin.core.upstreams[0].addr, "8.8.8.8:53");
    assert_eq!(plugin.core.upstreams[0].tag.as_deref(), Some("google"));
}

#[test]
fn forward_test_add_upstream_with_tag_parses_tag() {
    add_upstream_with_tag();
}

#[test]
fn mod_test_add_upstream_with_tag_parses_tag() {
    add_upstream_with_tag();
}

#[test]
fn forward_test_forward_plugin_no_upstreams() {
    let mut plugin = ForwardPlugin::new(vec![]);
    assert_eq!(plugin.execute_mode(false), ForwardMode::Sequential);
    assert_eq!(plugin.sequential_next(0, 0), SequentialStep::GiveUp);
}

#[test]
fn forward_test_forward_plugin_skips_if_response_set() {
    let plugin = ForwardPlugin::new(vec!["8.8.8.8:53".to_string()]);
    assert_eq!(plugin.execute_mode(true), ForwardMode::Skip);
}

#[test]
fn mod_test_forward_plugin_no_upstreams() {
    let mut plugin = ForwardPlugin::new(vec![]);
    assert_eq!(plugin.execute_mode(false), ForwardMode::Sequential);
    assert_eq!(plugin.sequential_next(0, 0), SequentialStep::GiveUp);
}

#[test]
fn mod_test_forward_plugin_skips_if_response_set() {
    let plugin = ForwardPlugin::new(vec!["8.8.8.8:53".to_string()]);
    assert_eq!(plugin.execute_mode(true), ForwardMode::Skip);
}

#[test]
fn forward_plugin_new_splits_tags_and_round_robins() {
    let mut plugin = ForwardPlugin::new(vec!["8.8.8.8:53|google".to_string(), "1.1.1.1".to_string()]);
    assert_eq!(plugin.name(), "forward");
    assert_eq!(plugin.core.upstreams[0].tag.as_deref(), Some("google"));
    assert_eq!(plugin.select_upstream(0), Some(0));
    assert_eq!(plugin.select_upstream(0), Some(1));
    assert_eq!(plugin.select_upstream(0), Some(0));
}

#[test]
fn health_counters_on_success_and_failure() {
    let mut plugin = ForwardPlugin { core: ForwardBuilder::new().add_upstream(Upstream::new("x:53".to_string())).enable_health_checks(true).build(), current: 0, concurrent_queries: false, tag: None };
    assert_eq!(plugin.core.upstreams[0].health.counters(), (0, 0, 0));
    plugin.record_upstream_health(0, 1_500, true);
    assert_eq!(plugin.core.upstreams[0].health.counters(), (1, 1, 0));
    plugin.record_upstream_health(0, 9_000, false);
    assert_eq!(plugin.core.upstreams[0].health.counters(), (2, 1, 1));
}

#[test]
fn forward_from_args_reads_upstreams() {
    let args = vec![
        ("upstreams".to_string(), ConfigValue::List(vec![ConfigValue::Str("udp://8.8.8.8".to_string())])),
        ("strategy".to_string(), ConfigValue::Str("fastest".to_string())),
    ];
    let core = ForwardBuilder::from_args(&args).unwrap();
    assert_eq!(core.upstreams.len(), 1);
    assert_eq!(core.strategy, LoadBalanceStrategy::Fastest);
    let _ = normalize_addr("8.8.8.8");
}

#[test]
fn forward_plugin_with_timeout_keeps_settings() {
    let plugin = ForwardPlugin::with_timeout(vec!["8.8.8.8:53|google".to_string(), "1.1.1.1".to_string()], 10);
    assert_eq!(plugin.core.timeout_secs, 10);
    assert_eq!(plugin.core.upstreams.len(), 2);
    assert_eq!(plugin.core.upstreams[0].tag.as_deref(), Some("google"));
    assert!(!plugin.core.health_checks_enabled);
    assert_eq!(plugin.core.max_attempts, 3);
    assert!(!plugin.concurrent_queries);
}
