use lazydns::audit::{is_dns_sd_query, parse_size, SecurityEventConfig, SecurityEventType};
use lazydns::config::ConfigValue;
use lazydns::dns::{Context, Message, Question, RData, Record};
use lazydns::ip::IpAddr;
use lazydns::query_log::{
    format_timestamp, log_query_for_context, max_file_size_value, optional_max_file_size_value,
    AuditEvent, DateTimeParts, QueryLogEntry, QueryMeta,
};

fn v4(a: u8, b: u8, c: u8, d: u8) -> IpAddr {
    IpAddr::V4(ip4(a, b, c, d))
}

fn question(name: &str, qtype: u16) -> Question {
    Question { qname: name.to_string(), qtype, qclass: 1 }
}

#[test]
fn test_security_event_config_default() {
    let config = SecurityEventConfig::default();
    assert!(config.enabled);
    assert_eq!(config.path, "security.log");
    assert!(config.events.is_empty());
}

#[test]
fn test_max_file_size_parsing() {
    assert_eq!(
        optional_max_file_size_value(Some(&ConfigValue::Str("10M".to_string()))),
        Ok(Some(10 * 1024 * 1024))
    );
    assert_eq!(
        optional_max_file_size_value(Some(&ConfigValue::Str("100K".to_string()))),
        Ok(Some(100 * 1024))
    );
    assert_eq!(
        optional_max_file_size_value(Some(&ConfigValue::Str("1G".to_string()))),
        Ok(Some(1024 * 1024 * 1024))
    );
}

#[test]
fn test_parse_size_rejects_multibyte_suffix_without_panic() {
    let result = parse_size("100M中文");
    assert!(result.is_err(), "multibyte suffix should be rejected");

    assert_eq!(parse_size("10M").unwrap(), 10 * 1024 * 1024);
    assert_eq!(parse_size("100K").unwrap(), 100 * 1024);
    assert_eq!(parse_size("1G").unwrap(), 1024 * 1024 * 1024);
    assert_eq!(parse_size("512").unwrap(), 512);
    assert_eq!(parse_size("5MB").unwrap(), 5 * 1024 * 1024);
}

#[test]
fn test_parse_size_single_char_is_error() {
    assert!(parse_size("M").is_err());
    assert!(parse_size("").is_err());
}

#[test]
fn parse_size_error_messages() {
    assert_eq!(parse_size(""), Err("empty size string".to_string()));
    assert_eq!(parse_size("M"), Err("invalid size string: M".to_string()));
    assert_eq!(parse_size("xK"), Err("invalid number: x".to_string()));
    assert_eq!(parse_size("10Q"), Err("invalid unit: Q, supported: K, M, G".to_string()));
    assert_eq!(parse_size("99999999999999G"), Err("size too large".to_string()));
    assert_eq!(parse_size(" 2 kb "), Ok(2048));
}

#[test]
fn max_file_size_value_kinds() {
    assert_eq!(max_file_size_value(&ConfigValue::Int(4096)), Ok(4096));
    assert_eq!(max_file_size_value(&ConfigValue::Int(-1)), Err("negative file size".to_string()));
    assert_eq!(max_file_size_value(&ConfigValue::Str("2K".to_string())), Ok(2048));
    assert!(max_file_size_value(&ConfigValue::Bool(true)).is_err());
    assert_eq!(optional_max_file_size_value(None), Ok(None));
    assert_eq!(optional_max_file_size_value(Some(&ConfigValue::Null)), Ok(None));
}

#[test]
fn test_security_event_type_as_str() {
    assert_eq!(SecurityEventType::RateLimitExceeded.as_str(), "rate_limit_exceeded");
    assert_eq!(SecurityEventType::BlockedDomainQuery.as_str(), "blocked_domain_query");
}

#[test]
fn test_security_event_type_from_str() {
    assert_eq!(
        SecurityEventType::parse("rate_limit_exceeded"),
        Some(SecurityEventType::RateLimitExceeded)
    );
    assert_eq!(SecurityEventType::parse("unknown"), None);
}

#[test]
fn security_event_type_names_round_trip() {
    let all = [
        SecurityEventType::RateLimitExceeded,
        SecurityEventType::BlockedDomainQuery,
        SecurityEventType::UpstreamFailure,
        SecurityEventType::AclDenied,
        SecurityEventType::MalformedQuery,
        SecurityEventType::QueryTimeout,
    ];
    for t in all {
        assert_eq!(SecurityEventType::parse(t.as_str()), Some(t));
    }
}

#[test]
fn test_query_log_entry_to_json() {
    let entry = QueryLogEntry::new(1234, "udp", "example.com".into(), "A".into(), "IN".into())
        .with_client_ip(v4(192, 168, 1, 100))
        .with_response("NOERROR", 2, 15);

    let json = entry.to_json().unwrap();
    assert!(json.contains("example.com"));
    assert!(json.contains("192.168.1.100"));
    assert!(json.contains("NOERROR"));
}

#[test]
fn query_log_entry_json_exact() {
    let mut entry = QueryLogEntry::new(7, "tcp", "a.b".into(), "AAAA".into(), "IN".into())
        .with_response("NoError", 1, 3)
        .with_cached(true)
        .with_answers(vec!["::1".to_string()]);
    entry.timestamp = "T".to_string();
    assert_eq!(
        entry.to_json().unwrap(),
        r#"{"timestamp":"T","query_id":7,"protocol":"tcp","qname":"a.b","qtype":"AAAA","qclass":"IN","rcode":"NoError","answer_count":1,"response_time_ms":3,"cached":true,"answers":["::1"]}"#
    );
}

#[test]
fn test_query_log_entry_to_text() {
    let entry = QueryLogEntry::new(1234, "udp", "example.com".into(), "A".into(), "IN".into())
        .with_response("NOERROR", 2, 15);

    let text = entry.to_text();
    assert!(text.contains("id=1234"));
    assert!(text.contains("qname=example.com"));
    assert!(text.contains("rcode=NOERROR"));
    assert!(text.contains("time=15ms"));
}

#[test]
fn query_log_entry_text_exact() {
    let mut entry = QueryLogEntry::new(5, "udp", "x.org".into(), "A".into(), "IN".into())
        .with_client_ip(v4(10, 0, 0, 2));
    entry.timestamp = "TS".to_string();
    assert_eq!(entry.to_text(), "TS id=5 client=10.0.0.2 proto=udp qname=x.org qtype=A time=-");
}

#[test]
fn test_audit_event_security() {
    let event = AuditEvent::security(
        SecurityEventType::RateLimitExceeded,
        "Client exceeded 100 queries/minute".to_string(),
    );

    let json = event.to_json().unwrap();
    assert!(json.contains("rate_limit_exceeded"));
    assert!(json.contains("exceeded 100"));
}

#[test]
fn test_audit_event_security_with_client() {
    let event = AuditEvent::security_with_client(
        SecurityEventType::BlockedDomainQuery,
        "Query blocked by domain filter".to_string(),
        Some(v4(10, 0, 0, 1)),
        Some("malware.example.com".into()),
    );

    let json = event.to_json().unwrap();
    assert!(json.contains("blocked_domain_query"));
    assert!(json.contains("10.0.0.1"));
    assert!(json.contains("malware.example.com"));
}

#[test]
fn audit_event_security_json_exact() {
    let event = AuditEvent::Security {
        timestamp: "T".to_string(),
        event_type: SecurityEventType::AclDenied,
        message: "say \"no\"".to_string(),
        client_ip: None,
        qname: Some("q.example".to_string()),
    };
    assert_eq!(
        event.to_json().unwrap(),
        r#"{"timestamp":"T","event_type":"acl_denied","message":"say \"no\"","qname":"q.example","type":"security"}"#
    );
}

#[test]
fn timestamp_format_is_padded() {
    let p = DateTimeParts {
        year: 2024,
        month: 3,
        day: 7,
        hour: 4,
        minute: 5,
        second: 6,
        millisecond: 9,
        offset_seconds: -(5 * 3600 + 30 * 60),
    };
    assert_eq!(format_timestamp(&p), "2024-03-07T04:05:06.009-05:30");
    let q = DateTimeParts { offset_seconds: 8 * 3600, ..p };
    assert_eq!(format_timestamp(&q), "2024-03-07T04:05:06.009+08:00");
}

#[test]
fn test_dns_sd_query_detection() {
    assert!(is_dns_sd_query("b._dns-sd._udp.0.8.100.10.in-addr.arpa"));
    assert!(is_dns_sd_query("db._dns-sd._udp.0.8.100.10.in-addr.arpa"));
    assert!(is_dns_sd_query("_services._dns-sd._udp.local"));
    assert!(is_dns_sd_query("r._dns-sd._udp.example.com"));

    assert!(!is_dns_sd_query("example.com"));
    assert!(!is_dns_sd_query("www.example.com"));
    assert!(!is_dns_sd_query("_tcp.example.com"));
}

#[test]
fn test_log_query_for_context_does_not_panic() {
    let mut request = Message::new();
    request.questions.push(question("example.com", 1));
    let ctx = Context::new(request);
    let meta = QueryMeta { protocol: Some("udp".to_string()), client_ip: None, response_from_cache: None, elapsed_us: None };
    let entry = log_query_for_context(&ctx, &meta).unwrap();
    assert_eq!(entry.protocol, "udp");
    assert_eq!(entry.qtype, "A");
    assert_eq!(entry.qclass, "IN");
    assert!(entry.rcode.is_none());
}

#[test]
fn test_log_query_for_context_with_response() {
    let mut request = Message::new();
    request.questions.push(question("example.com", 1));
    let mut ctx = Context::new(request);
    let mut response = Message::new();
    response.is_response = true;
    response.answers.push(Record {
        name: "example.com".to_string(),
        rtype: 1,
        class: 1,
        ttl: 60,
        rdata: RData::A(ip4(1, 2, 3, 4)),
    });
    ctx.response = Some(response);
    let meta = QueryMeta { protocol: Some("tcp".to_string()), client_ip: None, response_from_cache: None, elapsed_us: Some(2500) };
    let entry = log_query_for_context(&ctx, &meta).unwrap();
    assert_eq!(entry.rcode, Some("NoError".to_string()));
    assert_eq!(entry.answer_count, Some(1));
    assert_eq!(entry.response_time_ms, Some(2));
    assert_eq!(entry.response_time_us, Some(2500));
    assert_eq!(entry.cached, Some(false));
    assert_eq!(entry.answers, Some(vec!["1.2.3.4".to_string()]));
}

#[test]
fn log_query_skips_dns_sd_and_empty_requests() {
    let meta = QueryMeta { protocol: None, client_ip: None, response_from_cache: None, elapsed_us: None };
    let ctx = Context::new(Message::new());
    assert!(log_query_for_context(&ctx, &meta).is_none());
    let mut request = Message::new();
    request.questions.push(question("_services._dns-sd._udp.local", 12));
    let ctx = Context::new(request);
    assert!(log_query_for_context(&ctx, &meta).is_none());
    let mut request = Message::new();
    request.questions.push(question("x.test", 65));
    let ctx = Context::new(request);
    let e = log_query_for_context(&ctx, &meta).unwrap();
    assert_eq!(e.protocol, "unknown");
    assert_eq!(e.qtype, "HTTPS");
}

fn ip4(a: u8, b: u8, c: u8, d: u8) -> u32 {
    ((a as u32) << 24) | ((b as u32) << 16) | ((c as u32) << 8) | (d as u32)
}

#[test]
fn query_log_entry_with_upstream() {
    let mut entry = QueryLogEntry::new(7, "udp", "a.b".into(), "A".into(), "IN".into()).with_upstream("8.8.8.8:53");
    assert_eq!(entry.upstream.as_deref(), Some("8.8.8.8:53"));
    entry.timestamp = "T".to_string();
    assert_eq!(
        entry.to_json().unwrap(),
        r#"{"timestamp":"T","query_id":7,"protocol":"udp","qname":"a.b","qtype":"A","qclass":"IN","upstream":"8.8.8.8:53"}"#
    );
}

#[test]
fn query_log_entry_json_escapes_strings() {
    let mut entry = QueryLogEntry::new(1, "udp", "a\"b\\c\n\u{1}".into(), "A".into(), "IN".into());
    entry.timestamp = "T".to_string();
    assert_eq!(
        entry.to_json().unwrap(),
        r#"{"timestamp":"T","query_id":1,"protocol":"udp","qname":"a\"b\\c\n\u0001","qtype":"A","qclass":"IN"}"#
    );
}

#[test]
fn parse_size_reads_back_decimal_counts() {
    for n in [0u64, 7, 512, 1_048_576, u64::MAX] {
        assert_eq!(parse_size(&n.to_string()), Ok(n));
    }
}
