use lazydns::dns::{Context, Message, Question, RData, Record};
use lazydns::metrics::{metric_names, prom_quick_setup_name, MetricsCollectorPlugin};
use lazydns::records::{DropRespPlugin, DualSelectorPlugin, IpPreference, PreferIpv4Plugin, ReturnPlugin, TtlPlugin};

fn a_record(name: &str, ttl: u32) -> Record {
    Record { name: name.to_string(), rtype: 1, class: 1, ttl, rdata: RData::A(0x01020304) }
}

fn aaaa_record(name: &str, ttl: u32) -> Record {
    Record { name: name.to_string(), rtype: 28, class: 1, ttl, rdata: RData::AAAA(0x2001_0db8_0000_0000_0000_0000_0000_0001) }
}

fn with_response(msg: Message) -> Context {
    let mut ctx = Context::new(Message::new());
    ctx.response = Some(msg);
    ctx
}

#[test]
fn test_metrics_collector_increments() {
    let mut plugin = MetricsCollectorPlugin::new(0, 0);
    plugin.record(None);
    plugin.record(None);
    assert_eq!(plugin.count(), 2);
}

#[test]
fn test_metrics_collector_reset() {
    let mut plugin = MetricsCollectorPlugin::new(0, 0);
    for i in 0..5usize {
        plugin.record(Some(i * 20));
    }
    assert_eq!(plugin.count(), 5);
    assert_eq!(plugin.total_latency_ms, 200);
    plugin.reset(1000);
    assert_eq!(plugin.count(), 0);
    assert_eq!(plugin.total_latency_ms, 0);
    assert_eq!(plugin.time_since_reset(1500), 500);
}

#[test]
fn test_metrics_collector_with_latency() {
    let mut plugin = MetricsCollectorPlugin::new(0, 0);
    plugin.record(Some(50));
    plugin.record(Some(100));
    assert_eq!(plugin.count(), 2);
    assert_eq!(plugin.total_latency_ms, 150);
    assert_eq!(plugin.total_latency_ms as f64 / plugin.count() as f64, 75.0);
}

#[test]
fn test_metrics_collector_queries_per_second() {
    let mut plugin = MetricsCollectorPlugin::new(0, 0);
    for _ in 0..10 {
        plugin.record(None);
    }
    assert_eq!(plugin.count(), 10);
    let elapsed_secs = plugin.time_since_reset(250) as f64 / 1000.0;
    assert!(plugin.count() as f64 / elapsed_secs > 0.0);
}

#[test]
fn test_metrics_collector_no_latency() {
    let mut plugin = MetricsCollectorPlugin::new(0, 0);
    plugin.record(None);
    assert_eq!(plugin.count(), 1);
    assert_eq!(plugin.total_latency_ms, 0);
}

#[test]
fn test_metrics_collector_quick_setup() {
    let plugin = MetricsCollectorPlugin::quick_setup("metrics_collector", "", 0).unwrap();
    assert_eq!(plugin.name(), "metrics_collector");
}

#[test]
fn test_metrics_collector_quick_setup_wrong_prefix() {
    let result = MetricsCollectorPlugin::quick_setup("wrong_prefix", "", 0);
    assert!(result.is_err());
    assert!(result.unwrap_err().message().contains("unsupported prefix"));
}

#[test]
fn test_prom_metrics_collector_quick_setup() {
    assert_eq!(prom_quick_setup_name("prom_metrics_collector", "name=test_quick").unwrap(), "test_quick");
}

#[test]
fn test_prom_metrics_collector_quick_setup_default_name() {
    assert_eq!(prom_quick_setup_name("prom_metrics_collector", "").unwrap(), "default");
}

#[test]
fn test_prom_metrics_collector_quick_setup_invalid_format() {
    let result = prom_quick_setup_name("prom_metrics_collector", "invalid_format");
    assert!(result.is_err());
    assert!(result.unwrap_err().message().contains("Invalid prometheus_metrics_collector configuration"));
}

#[test]
fn test_prom_metrics_collector_quick_setup_wrong_prefix() {
    let result = prom_quick_setup_name("wrong_prefix", "name=test");
    assert!(result.is_err());
    assert!(result.unwrap_err().message().contains("unsupported prefix"));
}

#[test]
fn prom_metric_names_replace_dashes() {
    let (q, e, t, l) = metric_names("my-col");
    assert_eq!(q, "dns_query_total_my_col");
    assert_eq!(e, "dns_err_total_my_col");
    assert_eq!(t, "dns_thread_active_my_col");
    assert_eq!(l, "dns_response_latency_millisecond_my_col");
}

#[test]
fn test_drop_resp() {
    let plugin = DropRespPlugin::new();
    let mut ctx = with_response(Message::new());
    plugin.execute(&mut ctx);
    assert!(ctx.response.is_none());
}

#[test]
fn drop_resp_test_exec_plugin_quick_setup() {
    let plugin = DropRespPlugin::quick_setup("drop_resp", "").unwrap();
    assert_eq!(plugin.name(), "drop_resp");
    let plugin = DropRespPlugin::quick_setup("drop_resp", "ignored").unwrap();
    assert_eq!(plugin.name(), "drop_resp");
    assert!(DropRespPlugin::quick_setup("invalid", "").is_err());
}

#[test]
fn test_ttl_fix() {
    let plugin = TtlPlugin::new(10, 0, 0);
    let mut msg = Message::new();
    msg.answers.push(a_record("a", 300));
    let mut ctx = with_response(msg);
    plugin.execute(&mut ctx);
    assert_eq!(ctx.response.as_ref().unwrap().answers[0].ttl, 10);
}

#[test]
fn test_ttl_min_clamp() {
    let plugin = TtlPlugin::new(0, 50, 0);
    let mut msg = Message::new();
    msg.answers.push(a_record("a", 30));
    msg.authority.push(a_record("auth", 10));
    msg.additional.push(a_record("add", 20));
    let mut ctx = with_response(msg);
    plugin.execute(&mut ctx);
    let resp = ctx.response.as_ref().unwrap();
    assert_eq!(resp.answers[0].ttl, 50);
    assert_eq!(resp.authority[0].ttl, 50);
    assert_eq!(resp.additional[0].ttl, 50);
}

#[test]
fn test_ttl_max_clamp() {
    let plugin = TtlPlugin::new(0, 0, 100);
    let mut msg = Message::new();
    msg.answers.push(a_record("a", 200));
    msg.authority.push(a_record("auth", 250));
    msg.additional.push(a_record("add", 500));
    let mut ctx = with_response(msg);
    plugin.execute(&mut ctx);
    let resp = ctx.response.as_ref().unwrap();
    assert_eq!(resp.answers[0].ttl, 100);
    assert_eq!(resp.authority[0].ttl, 100);
    assert_eq!(resp.additional[0].ttl, 100);
}

#[test]
fn test_ttl_min_max_range() {
    let plugin = TtlPlugin::new(0, 30, 100);
    let mut msg = Message::new();
    msg.answers.push(a_record("low", 10));
    msg.answers.push(a_record("mid", 50));
    msg.answers.push(a_record("high", 200));
    let mut ctx = with_response(msg);
    plugin.execute(&mut ctx);
    let resp = ctx.response.as_ref().unwrap();
    assert_eq!(resp.answers[0].ttl, 30);
    assert_eq!(resp.answers[1].ttl, 50);
    assert_eq!(resp.answers[2].ttl, 100);
}

#[test]
fn test_ttl_plugin_rewrites_records() {
    let mut response = Message::new();
    response.is_response = true;
    response.answers.push(a_record("example.com", 300));
    response.additional.push(aaaa_record("example.com", 450));
    let mut ctx = with_response(response);
    let plugin = TtlPlugin::new(60, 0, 0);
    plugin.execute(&mut ctx);
    let resp = ctx.response.as_ref().unwrap();
    assert!(resp.answers.iter().all(|r| r.ttl == 60));
    assert!(resp.additional.iter().all(|r| r.ttl == 60));
}

#[test]
fn ttl_test_exec_plugin_quick_setup() {
    let plugin = TtlPlugin::quick_setup("ttl", "60").unwrap();
    assert_eq!(plugin.name(), "ttl");
    assert!(TtlPlugin::quick_setup("invalid", "60").is_err());
}

#[test]
fn test_init_honors_min_max() {
    let plugin = TtlPlugin::from_args(None, Some(50), Some(100));
    let mut msg = Message::new();
    msg.answers.push(a_record("a", 30));
    let mut ctx = with_response(msg);
    plugin.execute(&mut ctx);
    assert_eq!(ctx.response.as_ref().unwrap().answers[0].ttl, 50);

    let mut msg = Message::new();
    msg.answers.push(a_record("b", 300));
    let mut ctx = with_response(msg);
    plugin.execute(&mut ctx);
    assert_eq!(ctx.response.as_ref().unwrap().answers[0].ttl, 100);
}

fn mixed_response() -> Message {
    let mut response = Message::new();
    response.answers.push(a_record("example.com", 300));
    response.answers.push(aaaa_record("example.com", 300));
    response
}

#[test]
fn test_dual_selector_ipv4_only() {
    let plugin = DualSelectorPlugin::prefer_ipv4();
    let mut ctx = with_response(mixed_response());
    plugin.execute(&mut ctx);
    let response = ctx.response.as_ref().unwrap();
    assert_eq!(response.answers.len(), 1);
    assert_eq!(response.answers[0].rtype, 1);
}

#[test]
fn test_dual_selector_ipv6_only() {
    let plugin = DualSelectorPlugin::prefer_ipv6();
    let mut ctx = with_response(mixed_response());
    plugin.execute(&mut ctx);
    let response = ctx.response.as_ref().unwrap();
    assert_eq!(response.answers.len(), 1);
    assert_eq!(response.answers[0].rtype, 28);
}

#[test]
fn test_dual_selector_ipv4_prefer_ipv6_fallback() {
    let plugin = DualSelectorPlugin::new(IpPreference::IPv4PreferIPv6Fallback);
    let mut response = Message::new();
    response.answers.push(aaaa_record("example.com", 300));
    let mut ctx = with_response(response);
    plugin.execute(&mut ctx);
    let response = ctx.response.as_ref().unwrap();
    assert_eq!(response.answers.len(), 1);
    assert_eq!(response.answers[0].rtype, 28);
}

#[test]
fn test_dual_selector_both() {
    let plugin = DualSelectorPlugin::new(IpPreference::Both);
    let mut ctx = with_response(mixed_response());
    plugin.execute(&mut ctx);
    assert_eq!(ctx.response.as_ref().unwrap().answers.len(), 2);
}

fn question(qtype: u16) -> Question {
    Question { qname: "example.com".to_string(), qtype, qclass: 1 }
}

#[test]
fn test_prefer_ipv4_plugin_filters_on_a_query() {
    let plugin = PreferIpv4Plugin::new();
    assert_eq!(plugin.name(), "prefer_ipv4");
    let mut request = Message::new();
    request.questions.push(question(1));
    let mut response = mixed_response();
    response.questions.push(question(1));
    let mut ctx = Context::new(request);
    ctx.response = Some(response);
    plugin.execute(&mut ctx);
    let response = ctx.response.as_ref().unwrap();
    assert_eq!(response.answers.len(), 1);
    assert_eq!(response.answers[0].rtype, 1);
}

#[test]
fn test_prefer_ipv4_plugin_preserves_on_aaaa_query() {
    let plugin = PreferIpv4Plugin::new();
    let mut request = Message::new();
    request.questions.push(question(28));
    let mut response = mixed_response();
    response.questions.push(question(28));
    let mut ctx = Context::new(request);
    ctx.response = Some(response);
    plugin.execute(&mut ctx);
    assert_eq!(ctx.response.as_ref().unwrap().answers.len(), 2);
}

#[test]
fn test_return_plugin_stops_execution() {
    let return_plugin = ReturnPlugin::new();
    let mut ctx = Context::new(Message::new());
    let mut counter = 0;
    return_plugin.execute(&mut ctx);
    if !ctx.returned {
        counter += 1;
    }
    assert_eq!(counter, 0);
    assert!(ctx.returned);
}

#[test]
fn test_exec_plugin_return() {
    let plugin = ReturnPlugin::quick_setup("return", "").unwrap();
    let mut ctx = Context::new(Message::new());
    plugin.execute(&mut ctx);
    assert!(ctx.returned);
}

#[test]
fn test_exec_plugin_invalid_prefix() {
    assert!(ReturnPlugin::quick_setup("invalid", "").is_err());
}

#[test]
fn test_exec_plugin_with_args() {
    assert!(ReturnPlugin::quick_setup("return", "some_arg").is_err());
}

#[test]
fn dual_selector_shortcuts_act_as_new() {
    for (short, long) in [
        (DualSelectorPlugin::prefer_ipv4(), DualSelectorPlugin::new(IpPreference::IPv4)),
        (DualSelectorPlugin::prefer_ipv6(), DualSelectorPlugin::new(IpPreference::IPv6)),
    ] {
        let mut a = with_response(mixed_response());
        let mut b = with_response(mixed_response());
        short.execute(&mut a);
        long.execute(&mut b);
        let ra = a.response.as_ref().unwrap();
        let rb = b.response.as_ref().unwrap();
        assert_eq!(ra.answers.len(), rb.answers.len());
        assert_eq!(ra.answers[0].rtype, rb.answers[0].rtype);
        assert_eq!(a.returned, b.returned);
    }
}
