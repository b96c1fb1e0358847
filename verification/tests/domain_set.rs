use lazydns::config::ConfigValue;
use lazydns::dns::{Context, Message, Question};
use lazydns::domain_rules::{DomainRules, DomainSetPlugin, MatchType};

fn s(v: &str) -> String {
    v.to_string()
}

#[test]
fn test_domain_set_creation() {
    let plugin = DomainSetPlugin::new(s("test"));
    assert_eq!(plugin.name, "test");
    assert!(plugin.files.is_empty());
    assert!(!plugin.auto_reload);
    assert_eq!(plugin.default_match_type, MatchType::Domain);
}

#[test]
fn test_domain_set_builder() {
    let plugin = DomainSetPlugin::new(s("test"))
        .with_files(vec![s("file1.txt")])
        .with_auto_reload(true)
        .with_default_match_type(MatchType::Full);
    assert_eq!(plugin.files.len(), 1);
    assert!(plugin.auto_reload);
    assert_eq!(plugin.default_match_type, MatchType::Full);
    assert!(plugin.wants_watcher());
}

#[test]
fn test_full_match() {
    let mut rules = DomainRules::new();
    rules.add_rule(MatchType::Full, s("google.com"));
    assert!(rules.matches("google.com"));
    assert!(rules.matches("GOOGLE.COM"));
    assert!(!rules.matches("www.google.com"));
    assert!(!rules.matches("google.com.hk"));
}

#[test]
fn test_domain_match() {
    let mut rules = DomainRules::new();
    rules.add_rule(MatchType::Domain, s("google.com"));
    assert!(rules.matches("google.com"));
    assert!(rules.matches("www.google.com"));
    assert!(rules.matches("maps.l.google.com"));
    assert!(!rules.matches("google.com.hk"));
    assert!(!rules.matches("notgoogle.com"));
}

#[test]
fn test_keyword_match() {
    let mut rules = DomainRules::new();
    rules.add_rule(MatchType::Keyword, s("google"));
    assert!(rules.matches("google.com"));
    assert!(rules.matches("www.google.com"));
    assert!(rules.matches("google.com.hk"));
    assert!(rules.matches("mygoogle.net"));
    assert!(!rules.matches("gogle.com"));
}

#[test]
fn test_regexp_match() {
    let mut rules = DomainRules::new();
    rules.add_rule(MatchType::Regexp, s(r".+\.google\.com$"));
    assert!(!rules.matches("google.com"));
    assert!(rules.matches("www.google.com"));
    assert!(rules.matches("maps.l.google.com"));
    assert!(!rules.matches("google.com.hk"));
}

#[test]
fn test_match_priority_full_over_domain() {
    let mut rules = DomainRules::new();
    rules.add_rule(MatchType::Domain, s("example.com"));
    rules.add_rule(MatchType::Full, s("test.example.com"));
    assert!(rules.matches("test.example.com"));
    assert!(rules.matches("other.example.com"));
}

#[test]
fn test_domain_subdomain_priority() {
    let mut rules = DomainRules::new();
    rules.add_rule(MatchType::Domain, s("com"));
    rules.add_rule(MatchType::Domain, s("google.com"));
    assert!(rules.matches("www.google.com"));
    assert!(rules.matches("other.com"));
}

#[test]
fn test_parse_line_with_prefix() {
    let mut rules = DomainRules::new();
    rules.add_line("full:exact.com", &MatchType::Domain);
    rules.add_line("domain:parent.com", &MatchType::Full);
    rules.add_line("keyword:searchterm", &MatchType::Domain);
    rules.add_line("regexp:.*test.*", &MatchType::Domain);
    rules.add_line("default.com", &MatchType::Domain);

    assert!(rules.matches("exact.com"));
    assert!(!rules.matches("sub.exact.com"));
    assert!(rules.matches("parent.com"));
    assert!(rules.matches("sub.parent.com"));
    assert!(rules.matches("has-searchterm.com"));
    assert!(rules.matches("mytest.com"));
    assert!(rules.matches("sub.default.com"));
}

#[test]
fn test_load_domain_file() {
    let file = "# Comment line\n\nexample.com\ndomain:google.com\nfull:exact.net\nkeyword:facebook\nregexp:.*twitter.*\n";
    let lines: Vec<String> = file.lines().map(|l| l.to_string()).collect();
    let mut plugin = DomainSetPlugin::new(s("test")).with_files(vec![s("domains.txt")]);
    plugin.load_domains(vec![Some(lines)]).unwrap();

    let stats = plugin.stats();
    assert_eq!(stats.full_count, 1);
    assert_eq!(stats.domain_count, 2);
    assert_eq!(stats.keyword_count, 1);
    assert_eq!(stats.regexp_count, 1);

    assert!(plugin.matches("example.com"));
    assert!(plugin.matches("sub.example.com"));
    assert!(plugin.matches("www.google.com"));
    assert!(plugin.matches("exact.net"));
    assert!(!plugin.matches("sub.exact.net"));
    assert!(plugin.matches("facebook.com"));
    assert!(plugin.matches("my.twitter.handle.com"));
}

#[test]
fn unreadable_domain_files_are_skipped() {
    let mut plugin = DomainSetPlugin::new(s("test"))
        .with_files(vec![s("missing.txt"), s("ok.txt")])
        .with_exps(vec![s("full:inline.org")]);
    plugin.load_domains(vec![None, Some(vec![s("a.com")])]).unwrap();
    let stats = plugin.stats();
    assert_eq!(stats.domain_count, 1);
    assert_eq!(stats.full_count, 1);
    assert!(plugin.matches("x.a.com"));
    assert!(plugin.matches("inline.org"));
}

#[test]
fn test_invalid_regexp() {
    let mut rules = DomainRules::new();
    rules.add_rule(MatchType::Regexp, s("[invalid(regex"));
    assert_eq!(rules.stats().regexp_count, 0);
}

#[test]
fn domain_set_test_case_insensitive() {
    let mut rules = DomainRules::new();
    rules.add_rule(MatchType::Full, s("UPPER.COM"));
    rules.add_rule(MatchType::Domain, s("MixedCase.ORG"));
    rules.add_rule(MatchType::Keyword, s("KeyWord"));
    assert!(rules.matches("upper.com"));
    assert!(rules.matches("UPPER.COM"));
    assert!(rules.matches("sub.mixedcase.org"));
    assert!(rules.matches("has-keyword.com"));
}

#[test]
fn test_trailing_dot_handling() {
    let mut rules = DomainRules::new();
    rules.add_rule(MatchType::Full, s("example.com"));
    assert!(rules.matches("example.com"));
    assert!(rules.matches("example.com."));
}

#[test]
fn test_empty_and_comment_lines() {
    let mut rules = DomainRules::new();
    rules.add_line("", &MatchType::Domain);
    rules.add_line("   ", &MatchType::Domain);
    rules.add_line("# comment", &MatchType::Domain);
    rules.add_line("  # another comment", &MatchType::Domain);
    assert!(rules.is_empty());
}

#[test]
fn test_domain_rules_merge() {
    let mut rules1 = DomainRules::new();
    rules1.add_rule(MatchType::Full, s("a.com"));
    rules1.add_rule(MatchType::Domain, s("b.com"));

    let mut rules2 = DomainRules::new();
    rules2.add_rule(MatchType::Keyword, s("test"));
    rules2.add_rule(MatchType::Regexp, s(".*pattern.*"));

    rules1.merge(rules2);
    let st = rules1.stats();
    assert_eq!(st.full_count, 1);
    assert_eq!(st.domain_count, 1);
    assert_eq!(st.keyword_count, 1);
    assert_eq!(st.regexp_count, 1);
}

#[test]
fn merge_keeps_full_and_domain_rules_once() {
    let mut a = DomainRules::new();
    a.add_rule(MatchType::Domain, s("b.com"));
    let mut b = DomainRules::new();
    b.add_rule(MatchType::Domain, s("B.com"));
    b.add_rule(MatchType::Domain, s("c.com"));
    a.merge(b);
    assert_eq!(a.stats().domain_count, 2);
    assert_eq!(a.len(), 2);
}

#[test]
fn test_domain_set_plugin_shutdown_clears_rules() {
    let mut plugin = DomainSetPlugin::new(s("test")).with_files(vec![s("nonexistent.txt")]);
    plugin.rules.add_rule(MatchType::Full, s("test.com"));
    plugin.rules.add_rule(MatchType::Domain, s("example.com"));
    plugin.rules.add_rule(MatchType::Keyword, s("keyword"));
    plugin.rules.add_rule(MatchType::Regexp, s(".*regexp.*"));
    let st = plugin.stats();
    assert_eq!((st.full_count, st.domain_count, st.keyword_count, st.regexp_count), (1, 1, 1, 1));

    plugin.shutdown();
    let st = plugin.stats();
    assert_eq!((st.full_count, st.domain_count, st.keyword_count, st.regexp_count), (0, 0, 0, 0));
}

#[test]
fn test_domain_match_boundary() {
    let mut rules = DomainRules::new();
    rules.add_rule(MatchType::Domain, s("google.com"));
    assert!(!rules.matches("notgoogle.com"));
    assert!(!rules.matches("mygoogle.com"));
    assert!(!rules.matches("google.com.cn"));
    assert!(rules.matches("google.com"));
    assert!(rules.matches("www.google.com"));
    assert!(rules.matches("a.b.c.google.com"));
}

#[test]
fn test_init_with_exps() {
    let exps = ConfigValue::List(vec![
        ConfigValue::Str(s("google.com")),
        ConfigValue::Str(s("full:exact.com")),
        ConfigValue::Str(s("regexp:.+\\.github\\.io$")),
        ConfigValue::Str(s("keyword:test")),
    ]);
    let args = vec![(s("exps"), exps)];
    let mut plugin = DomainSetPlugin::init(&args, "test", Some(s("test")));
    plugin.load_domains(vec![]).unwrap();

    let stats = plugin.stats();
    assert_eq!(stats.full_count, 1);
    assert_eq!(stats.domain_count, 1);
    assert_eq!(stats.regexp_count, 1);
    assert_eq!(stats.keyword_count, 1);

    assert!(plugin.matches("google.com"));
    assert!(plugin.matches("www.google.com"));
    assert!(plugin.matches("exact.com"));
    assert!(!plugin.matches("sub.exact.com"));
    assert!(plugin.matches("test.github.io"));
    assert!(plugin.matches("has-test.com"));
}

#[test]
fn test_init_with_exps_single_string() {
    let args = vec![(s("exps"), ConfigValue::Str(s("example.com")))];
    let mut plugin = DomainSetPlugin::init(&args, "test", Some(s("test")));
    plugin.load_domains(vec![]).unwrap();
    let stats = plugin.stats();
    assert_eq!(stats.domain_count, 1);
    assert!(plugin.matches("example.com"));
    assert!(plugin.matches("sub.example.com"));
}

#[test]
fn init_reads_name_match_type_and_files() {
    let args = vec![
        (s("tag"), ConfigValue::Str(s("blocked"))),
        (s("match_type"), ConfigValue::Str(s("REGEX"))),
        (s("files"), ConfigValue::List(vec![ConfigValue::Str(s("a.txt")), ConfigValue::Int(3)])),
        (s("auto_reload"), ConfigValue::Bool(true)),
    ];
    let plugin = DomainSetPlugin::init(&args, "domain_set", None);
    assert_eq!(plugin.name, "blocked");
    assert_eq!(plugin.default_match_type, MatchType::Regexp);
    assert_eq!(plugin.files, vec![s("a.txt")]);
    assert!(plugin.auto_reload);
    let unknown = vec![(s("default_match_type"), ConfigValue::Str(s("weird")))];
    assert_eq!(DomainSetPlugin::init(&unknown, "x", None).default_match_type, MatchType::Domain);
}

#[test]
fn domain_set_matches_first_question() {
    let mut plugin = DomainSetPlugin::new(s("test"));
    plugin.rules.add_rule(MatchType::Domain, s("example.com"));
    let mut req = Message::new();
    req.questions.push(Question { qname: s("www.example.com."), qtype: 1, qclass: 1 });
    assert!(plugin.matches_context(&Context::new(req)));
    assert!(!plugin.matches_context(&Context::new(Message::new())));
}

#[test]
fn domain_set_get_rules_reflects_loaded_rules() {
    let mut plugin = DomainSetPlugin::new(s("test")).with_files(vec![s("d.txt")]);
    plugin.load_domains(vec![Some(vec![s("full:exact.net"), s("example.com")])]).unwrap();
    let rules = plugin.get_rules();
    assert!(rules.matches("exact.net"));
    assert!(rules.matches("sub.example.com"));
    assert_eq!(rules.stats().full_count, 1);
    assert_eq!(rules.stats().domain_count, 1);
}
