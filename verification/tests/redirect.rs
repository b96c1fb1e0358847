use lazydns::config::ConfigValue;
use lazydns::dns::{Context, Message, Question};
use lazydns::redirect::{RedirectPlugin, Rule};

fn query(name: &str) -> Context {
    let mut request = Message::new();
    request.questions.push(Question { qname: name.to_string(), qtype: 1, qclass: 1 });
    Context::new(request)
}

fn qname(ctx: &Context) -> &str {
    ctx.request.questions[0].qname.as_str()
}

#[test]
fn test_redirect_exact() {
    let plugin = RedirectPlugin::new("example.com", "example.net");
    let mut ctx = query("example.com");
    plugin.execute(&mut ctx);
    assert_eq!(qname(&ctx), "example.net");
}

#[test]
fn test_redirect_wildcard() {
    let plugin = RedirectPlugin::new("*.old.com", "*.new.com");
    let mut ctx = query("www.old.com");
    plugin.execute(&mut ctx);
    assert_eq!(qname(&ctx), "www.new.com");
}

#[test]
fn test_redirect_no_match() {
    let plugin = RedirectPlugin::new("example.com", "example.net");
    let mut ctx = query("different.com");
    plugin.execute(&mut ctx);
    assert_eq!(qname(&ctx), "different.com");
}

#[test]
fn test_redirect_wildcard_requires_label_boundary() {
    let plugin = RedirectPlugin::new("*.old.com", "*.new.com");
    let mut ctx = query("www.old.com");
    plugin.execute(&mut ctx);
    assert_eq!(qname(&ctx), "www.new.com");
    let mut ctx = query("evilold.com");
    plugin.execute(&mut ctx);
    assert_eq!(qname(&ctx), "evilold.com");
}

#[test]
fn test_redirect_case_insensitive() {
    let plugin = RedirectPlugin::new("Example.COM", "example.net");
    let mut ctx = query("EXAMPLE.com");
    plugin.execute(&mut ctx);
    assert_eq!(qname(&ctx), "example.net");
}

#[test]
fn test_init_multiple_rules() {
    let args = vec![(
        "rules".to_string(),
        ConfigValue::List(vec![ConfigValue::Str("a.test a.out".to_string()), ConfigValue::Str("b.test b.out".to_string())]),
    )];
    let plugin = RedirectPlugin::init(&args).unwrap();
    for (name, expect) in [("a.test", "a.out"), ("b.test", "b.out")] {
        let mut ctx = query(name);
        plugin.execute(&mut ctx);
        assert_eq!(qname(&ctx), expect);
    }
}

#[test]
fn test_init_multiple_rules_first_match_wins() {
    let args = vec![(
        "rules".to_string(),
        ConfigValue::List(vec![
            ConfigValue::Str("*.old.com first.out".to_string()),
            ConfigValue::Str("www.old.com second.out".to_string()),
        ]),
    )];
    let plugin = RedirectPlugin::init(&args).unwrap();
    let mut ctx = query("www.old.com");
    plugin.execute(&mut ctx);
    assert_eq!(qname(&ctx), "first.out");
}

#[test]
fn redirect_rule_parts() {
    let rule = Rule::new("*.a.org".to_string(), "*.b.org".to_string());
    assert!(rule.matches("x.a.org"));
    assert!(!rule.matches("a.org.evil"));
    assert_eq!(rule.apply("x.a.org"), "x.b.org");
}

#[test]
fn redirect_first_added_rule_wins() {
    let mut plugin = RedirectPlugin::new("example.com", "first.com");
    plugin.add_rule("example.com".to_string(), "second.com".to_string());
    plugin.add_rule("other.com".to_string(), "third.com".to_string());
    assert_eq!(plugin.redirect_name("example.com"), "first.com");
    assert_eq!(plugin.redirect_name("other.com"), "third.com");
    assert_eq!(plugin.redirect_name("unrelated.com"), "unrelated.com");
}
