use lazydns::config::ConfigValue;
use lazydns::dns::{Context, Message, RCODE_REFUSED};
use lazydns::ip::IpAddr;
use lazydns::ratelimit::RateLimitPlugin;

fn v4(a: u8, b: u8, c: u8, d: u8) -> IpAddr {
    IpAddr::V4(((a as u32) << 24) | ((b as u32) << 16) | ((c as u32) << 8) | (d as u32))
}

#[test]
fn test_rate_limit_creation() {
    let limiter = RateLimitPlugin::new(10, 60);
    assert_eq!(limiter.max_queries, 10);
    assert_eq!(limiter.window_secs, 60);
}

#[test]
fn test_rate_limit_allows_within_limit() {
    let mut limiter = RateLimitPlugin::new(5, 60);
    let ip = v4(192, 168, 1, 1);
    for i in 0..5u64 {
        assert!(!limiter.should_limit(&ip, 1_000 + i));
    }
}

#[test]
fn test_rate_limit_blocks_over_limit() {
    let mut limiter = RateLimitPlugin::new(3, 60);
    let ip = v4(192, 168, 1, 2);
    for _ in 0..3 {
        assert!(!limiter.should_limit(&ip, 1_000));
    }
    assert!(limiter.should_limit(&ip, 1_000));
}

#[test]
fn test_rate_limit_different_ips() {
    let mut limiter = RateLimitPlugin::new(2, 60);
    let ip1 = v4(192, 168, 1, 1);
    let ip2 = v4(192, 168, 1, 2);
    assert!(!limiter.should_limit(&ip1, 0));
    assert!(!limiter.should_limit(&ip2, 0));
    assert!(!limiter.should_limit(&ip1, 0));
    assert!(!limiter.should_limit(&ip2, 0));
    assert!(limiter.should_limit(&ip1, 0));
    assert!(limiter.should_limit(&ip2, 0));
}

#[test]
fn rate_limit_window_resets() {
    let mut limiter = RateLimitPlugin::new(1, 60);
    let ip = v4(10, 0, 0, 1);
    assert!(!limiter.should_limit(&ip, 0));
    assert!(limiter.should_limit(&ip, 59_999));
    assert!(!limiter.should_limit(&ip, 60_000));
}

#[test]
fn test_cleanup() {
    let mut limiter = RateLimitPlugin::new(10, 1);
    let ip = v4(192, 168, 1, 3);
    limiter.should_limit(&ip, 10_000);
    assert_eq!(limiter.tracked_clients(), 1);
    limiter.cleanup(10_500);
    assert_eq!(limiter.tracked_clients(), 1);
    limiter.cleanup(13_000);
    assert_eq!(limiter.tracked_clients(), 0);
}

#[test]
fn test_rate_limit_plugin_execute() {
    let mut limiter = RateLimitPlugin::new(2, 60);
    let mut ctx = Context::new(Message::new());
    ctx.client_ip = Some(v4(192, 168, 1, 1));
    limiter.execute(&mut ctx, 0);
    assert!(ctx.response.is_none());
    limiter.execute(&mut ctx, 0);
    assert!(ctx.response.is_none());
    limiter.execute(&mut ctx, 0);
    assert_eq!(ctx.response.as_ref().unwrap().rcode, RCODE_REFUSED);
}

#[test]
fn test_init_from_config() {
    let args = vec![
        ("max_queries".to_string(), ConfigValue::Int(100)),
        ("window_secs".to_string(), ConfigValue::Int(60)),
    ];
    let rl = RateLimitPlugin::init(&args).expect("init");
    assert_eq!(rl.name(), "rate_limit");
    assert_eq!(rl.max_queries, 100);
    assert_eq!(rl.window_secs, 60);
    assert_eq!(rl.cleanup_interval_secs(), 120);
}

#[test]
fn rate_limit_execute_checked_counts_and_limits() {
    let mut limiter = RateLimitPlugin::new(1, 60);
    let mut ctx = Context::new(Message::new());
    ctx.client_ip = Some(v4(10, 0, 0, 1));
    assert_eq!(limiter.execute_checked(&mut ctx, 1_000), Some(false));
    assert!(ctx.response.is_none());
    assert_eq!(limiter.execute_checked(&mut ctx, 1_000), Some(true));
    assert_eq!(ctx.response.as_ref().map(|r| r.rcode), Some(RCODE_REFUSED));

    let mut anonymous = Context::new(Message::new());
    assert_eq!(limiter.execute_checked(&mut anonymous, 1_000), Some(false));
}
