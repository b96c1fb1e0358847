use lazydns::arbitrary::{ArbitraryArgs, ArbitraryPlugin};
use lazydns::dns::{Context, Message, Question, RData};

fn args(rules: Option<Vec<&str>>, files: Option<Vec<&str>>) -> ArbitraryArgs {
    ArbitraryArgs {
        rules: rules.map(|v| v.into_iter().map(|s| s.to_string()).collect()),
        files: files.map(|v| v.into_iter().map(|s| s.to_string()).collect()),
    }
}

fn query(name: &str, qtype: u16) -> Context {
    let mut req = Message::new();
    req.questions.push(Question { qname: name.to_string(), qtype, qclass: 1 });
    Context::new(req)
}

#[test]
fn test_arbitrary_rules() {
    let plugin = ArbitraryPlugin::new(args(Some(vec!["example.com A 192.0.2.1"]), None), vec![]).unwrap();
    let mut ctx = query("example.com", 1);
    plugin.execute(&mut ctx);
    let resp = ctx.response.as_ref().unwrap();
    assert_eq!(resp.answers.len(), 1);
    match &resp.answers[0].rdata {
        RData::A(ip) => assert_eq!(*ip, ip4(192, 0, 2, 1)),
        _ => panic!("expected A"),
    }
}

#[test]
fn test_arbitrary_aaaa_record() {
    let plugin = ArbitraryPlugin::new(args(Some(vec!["example.com AAAA 2001:db8::1"]), None), vec![]).unwrap();
    let mut ctx = query("example.com", 28);
    plugin.execute(&mut ctx);
    let resp = ctx.response.as_ref().unwrap();
    assert_eq!(resp.answers.len(), 1);
    match &resp.answers[0].rdata {
        RData::AAAA(_) => {}
        _ => panic!("expected AAAA"),
    }
}

#[test]
fn test_arbitrary_cname_record() {
    let plugin = ArbitraryPlugin::new(args(Some(vec!["alias.com CNAME target.com"]), None), vec![]).unwrap();
    let mut ctx = query("alias.com", 5);
    plugin.execute(&mut ctx);
    let resp = ctx.response.as_ref().unwrap();
    assert_eq!(resp.answers.len(), 1);
    match &resp.answers[0].rdata {
        RData::Name(name) => assert_eq!(name, "target.com"),
        _ => panic!("expected CNAME"),
    }
}

#[test]
fn test_arbitrary_with_in_class() {
    let plugin = ArbitraryPlugin::new(args(Some(vec!["example.com IN A 10.0.0.1"]), None), vec![]).unwrap();
    assert!(!plugin.map.is_empty());
}

#[test]
fn test_arbitrary_trailing_dot() {
    let plugin = ArbitraryPlugin::new(args(Some(vec!["example.com. A 192.0.2.2"]), None), vec![]).unwrap();
    let mut ctx = query("example.com", 1);
    plugin.execute(&mut ctx);
    assert!(ctx.response.is_some());
}

#[test]
fn test_arbitrary_parse_invalid_rule() {
    let result = ArbitraryPlugin::new(args(Some(vec!["invalid"]), None), vec![]);
    assert!(result.is_err());
}

#[test]
fn test_arbitrary_parse_invalid_ip() {
    let result = ArbitraryPlugin::new(args(Some(vec!["example.com A not-an-ip"]), None), vec![]);
    assert!(result.is_err());
}

#[test]
fn test_arbitrary_parse_unknown_type() {
    let result = ArbitraryPlugin::new(args(Some(vec!["example.com MX mail.example.com"]), None), vec![]);
    assert!(result.is_err());
}

#[test]
fn test_arbitrary_empty_rules() {
    let plugin = ArbitraryPlugin::new(args(Some(vec![]), None), vec![]).unwrap();
    assert!(plugin.map.is_empty());
}

#[test]
fn test_arbitrary_none_rules() {
    let plugin = ArbitraryPlugin::new(args(None, None), vec![]).unwrap();
    assert!(plugin.map.is_empty());
}

#[test]
fn test_arbitrary_no_question() {
    let plugin = ArbitraryPlugin::new(args(Some(vec!["example.com A 1.2.3.4"]), None), vec![]).unwrap();
    let mut ctx = Context::new(Message::new());
    plugin.execute(&mut ctx);
    assert!(ctx.response.is_none(), "no response should be synthesized for a question-less request");
}

#[test]
fn test_arbitrary_not_found() {
    let plugin = ArbitraryPlugin::new(args(Some(vec!["example.com A 1.2.3.4"]), None), vec![]).unwrap();
    let mut ctx = query("other.com", 1);
    plugin.execute(&mut ctx);
    assert!(ctx.response.is_none());
}

#[test]
fn test_arbitrary_multiple_records_same_domain() {
    let plugin = ArbitraryPlugin::new(
        args(Some(vec!["example.com A 1.1.1.1", "example.com A 2.2.2.2"]), None),
        vec![],
    )
    .unwrap();
    assert_eq!(plugin.get_records("example.com").unwrap().len(), 2);
}

#[test]
fn test_arbitrary_file_not_found() {
    let result = ArbitraryPlugin::new(
        args(None, Some(vec!["/nonexistent/path.txt"])),
        vec![Err("No such file or directory (os error 2)".to_string())],
    );
    assert!(result.is_err());
}

#[test]
fn test_arbitrary_file_with_comments() {
    let text = "# This is a comment\n; Another comment\n\nexample.com A 1.2.3.4\n".to_string();
    let plugin = ArbitraryPlugin::new(args(None, Some(vec!["rules.txt"])), vec![Ok(text)]).unwrap();
    assert_eq!(plugin.map.len(), 1);
}

#[test]
fn test_arbitrary_file_invalid_line() {
    let result = ArbitraryPlugin::new(args(None, Some(vec!["rules.txt"])), vec![Ok("invalid\n".to_string())]);
    assert!(result.is_err());
}

fn ip4(a: u8, b: u8, c: u8, d: u8) -> u32 {
    ((a as u32) << 24) | ((b as u32) << 16) | ((c as u32) << 8) | (d as u32)
}
