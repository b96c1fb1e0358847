use lazydns::dns::{Context, Message, Question};
use lazydns::domain_validator::{DomainValidatorPlugin, ValidationResult};

fn invalid_chars() -> ValidationResult {
    ValidationResult::Invalid("invalid characters".into())
}
fn invalid_length() -> ValidationResult {
    ValidationResult::Invalid("invalid length".into())
}
fn invalid_format() -> ValidationResult {
    ValidationResult::Invalid("invalid format".into())
}

#[test]
fn test_valid_domains() {
    let plugin = DomainValidatorPlugin::default();
    assert_eq!(plugin.validate_domain("example.com"), ValidationResult::Valid);
    assert_eq!(plugin.validate_domain("sub.example.co.uk"), ValidationResult::Valid);
    assert_eq!(plugin.validate_domain("localhost"), ValidationResult::Valid);
    assert_eq!(plugin.validate_domain("."), ValidationResult::Valid);
}

#[test]
fn test_invalid_chars() {
    let plugin = DomainValidatorPlugin::default();
    assert_eq!(plugin.validate_domain("test space.com"), invalid_chars());
    assert_eq!(plugin.validate_domain("test@domain.com"), invalid_chars());
    assert_eq!(plugin.validate_domain("-test.com"), invalid_chars());
    assert_eq!(plugin.validate_domain("test-.com"), invalid_chars());
}

#[test]
fn test_single_char_labels() {
    let plugin = DomainValidatorPlugin::default();
    assert_eq!(plugin.validate_domain("a.com"), ValidationResult::Valid);
    assert_eq!(plugin.validate_domain("a.b.com"), ValidationResult::Valid);
    assert_eq!(plugin.validate_domain("x.y.z"), ValidationResult::Valid);
}

#[test]
fn test_invalid_length() {
    let plugin = DomainValidatorPlugin::default();
    let long_label = "a".repeat(64) + ".com";
    assert_eq!(plugin.validate_domain(&long_label), invalid_length());
    let long_domain = "a.".repeat(126) + "com";
    assert_eq!(plugin.validate_domain(&long_domain), invalid_length());
}

#[test]
fn test_strict_mode() {
    let strict_plugin = DomainValidatorPlugin::new(true, 1000);
    assert_eq!(strict_plugin.validate_domain("te--st.com"), invalid_format());
    let lenient_plugin = DomainValidatorPlugin::new(false, 1000);
    assert_eq!(lenient_plugin.validate_domain("te--st.com"), ValidationResult::Valid);
}

#[test]
fn test_strict_mode_allows_punycode_labels() {
    let strict_plugin = DomainValidatorPlugin::new(true, 1000);
    assert_eq!(strict_plugin.validate_domain("xn--fsq.com"), ValidationResult::Valid);
    assert_eq!(strict_plugin.validate_domain("XN--FSQ.com"), ValidationResult::Valid);
    assert_eq!(strict_plugin.validate_domain("te--st.com"), invalid_format());
}

#[test]
fn test_cache() {
    let mut plugin = DomainValidatorPlugin::new(true, 10);
    let mut request = Message::new();
    request.questions.push(Question { qname: "example.com".to_string(), qtype: 1, qclass: 1 });
    let mut ctx = Context::new(request);
    assert_eq!(plugin.execute(&mut ctx), ValidationResult::Valid);
    assert!(ctx.response.is_none());
    assert!(plugin.cache.contains("example.com"));
}

#[test]
fn test_consecutive_dots() {
    let plugin = DomainValidatorPlugin::default();
    assert_eq!(plugin.validate_domain("example..com"), invalid_length());
    assert_eq!(plugin.validate_domain("sub..domain.example.com"), invalid_length());
    assert_eq!(plugin.validate_domain("..."), invalid_length());
}

#[test]
fn test_domains_starting_with_dot() {
    let plugin = DomainValidatorPlugin::default();
    assert_eq!(plugin.validate_domain(".example.com"), invalid_length());
    assert_eq!(plugin.validate_domain(".com"), invalid_length());
}

#[test]
fn test_domains_ending_with_dot() {
    let plugin = DomainValidatorPlugin::default();
    assert_eq!(plugin.validate_domain("example.com."), invalid_length());
    assert_eq!(plugin.validate_domain("localhost."), invalid_length());
}

#[test]
fn test_empty_string() {
    let plugin = DomainValidatorPlugin::default();
    assert_eq!(plugin.validate_domain(""), invalid_length());
}

#[test]
fn invalid_query_is_refused() {
    let mut plugin = DomainValidatorPlugin::new(true, 10);
    let mut request = Message::new();
    request.id = 77;
    request.questions.push(Question { qname: "bad name.com".to_string(), qtype: 1, qclass: 1 });
    let mut ctx = Context::new(request);
    assert_eq!(plugin.execute(&mut ctx), invalid_chars());
    let r = ctx.response.as_ref().unwrap();
    assert_eq!(r.id, 77);
    assert_eq!(r.rcode, lazydns::dns::RCODE_REFUSED);
}
