use lazydns::config::ConfigValue;
use lazydns::dns::{Context, Message, Question, TYPE_A, TYPE_MX};
use lazydns::geosite::GeoSitePlugin;

fn query(name: &str, qtype: u16) -> Context {
    let mut req = Message::new();
    req.questions.push(Question { qname: name.to_string(), qtype, qclass: 1 });
    Context::new(req)
}

#[test]
fn test_geosite_plugin_creation() {
    let geosite = GeoSitePlugin::new("category");
    assert!(geosite.is_empty());
    assert_eq!(geosite.category_count(), 0);
    assert_eq!(geosite.domain_count(), 0);
}

#[test]
fn test_add_domain() {
    let mut geosite = GeoSitePlugin::new("category");
    geosite.add_domain("cn", "baidu.com");
    geosite.add_domain("us", "google.com");

    assert_eq!(geosite.category_count(), 2);
    assert_eq!(geosite.domain_count(), 2);
}

#[test]
fn test_lookup_exact() {
    let mut geosite = GeoSitePlugin::new("category");
    geosite.add_domain("cn", "baidu.com");
    geosite.add_domain("us", "google.com");

    assert_eq!(geosite.lookup("baidu.com"), Some("cn".to_string()));
    assert_eq!(geosite.lookup("google.com"), Some("us".to_string()));
    assert_eq!(geosite.lookup("yahoo.com"), None);
}

#[test]
fn test_lookup_wildcard() {
    let mut geosite = GeoSitePlugin::new("category");
    geosite.add_domain("cn", "*.qq.com");

    assert_eq!(geosite.lookup("qq.com"), Some("cn".to_string()));
    assert_eq!(geosite.lookup("mail.qq.com"), Some("cn".to_string()));
    assert_eq!(geosite.lookup("deep.mail.qq.com"), Some("cn".to_string()));
    assert_eq!(geosite.lookup("notqq.com"), None);
}

#[test]
fn geosite_test_load_from_string() {
    let mut geosite = GeoSitePlugin::new("category");
    let data = r#"
# Chinese sites
cn baidu.com
cn *.qq.com
cn weibo.com
# US sites
us google.com
us *.facebook.com
        "#;

    geosite.load_from_string(data).unwrap();

    assert_eq!(geosite.category_count(), 2);
    assert_eq!(geosite.domain_count(), 5);

    assert_eq!(geosite.lookup("baidu.com"), Some("cn".to_string()));
    assert_eq!(geosite.lookup("mail.qq.com"), Some("cn".to_string()));
    assert_eq!(geosite.lookup("google.com"), Some("us".to_string()));
    assert_eq!(geosite.lookup("www.facebook.com"), Some("us".to_string()));
}

#[test]
fn geosite_test_case_insensitive() {
    let mut geosite = GeoSitePlugin::new("category");
    geosite.add_domain("cn", "Baidu.COM");

    assert_eq!(geosite.lookup("baidu.com"), Some("cn".to_string()));
    assert_eq!(geosite.lookup("BAIDU.COM"), Some("cn".to_string()));
    assert_eq!(geosite.lookup("BaiDu.CoM"), Some("cn".to_string()));
}

#[test]
fn geosite_test_clear() {
    let mut geosite = GeoSitePlugin::new("category");
    geosite.add_domain("cn", "baidu.com");

    assert!(!geosite.is_empty());

    geosite.clear();

    assert!(geosite.is_empty());
    assert_eq!(geosite.category_count(), 0);
}

#[test]
fn test_geosite_plugin_execution() {
    let mut geosite = GeoSitePlugin::new("site_category");
    geosite.add_domain("cn", "baidu.com");

    let mut context = query("baidu.com", TYPE_A);
    geosite.execute(&mut context);

    assert_eq!(context.tag, Some(("site_category".to_string(), "cn".to_string())));
}

#[test]
fn test_geosite_plugin_no_match() {
    let mut geosite = GeoSitePlugin::new("site_category");
    geosite.add_domain("cn", "baidu.com");

    let mut context = query("google.com", TYPE_A);
    geosite.execute(&mut context);

    assert_eq!(context.tag, None);
}

#[test]
fn geosite_execute_skips_other_query_types() {
    let mut geosite = GeoSitePlugin::new("site_category");
    geosite.add_domain("cn", "baidu.com");

    let mut context = query("baidu.com", TYPE_MX);
    geosite.execute(&mut context);
    assert_eq!(context.tag, None);

    let mut empty = Context::new(Message::new());
    geosite.execute(&mut empty);
    assert_eq!(empty.tag, None);
}

#[test]
fn geosite_init_reads_files_then_data() {
    let args = vec![
        ("metadata_key".to_string(), ConfigValue::Str("site".to_string())),
        ("files".to_string(), ConfigValue::List(vec![ConfigValue::Str("sites.txt".to_string())])),
        ("data".to_string(), ConfigValue::List(vec![ConfigValue::Str("us google.com".to_string())])),
    ];
    let geosite = GeoSitePlugin::init(&args, vec![Ok("cn baidu.com\ncn *.qq.com\n".to_string())]).unwrap();
    assert_eq!(geosite.metadata_key(), "site");
    assert_eq!(geosite.category_count(), 2);
    assert_eq!(geosite.lookup("www.qq.com"), Some("cn".to_string()));
    assert_eq!(geosite.lookup("google.com"), Some("us".to_string()));
    assert_eq!(geosite.name(), "geo_site");

    let err = GeoSitePlugin::init(&args, vec![Err("No such file".to_string())]).unwrap_err();
    assert_eq!(err.message(), "Failed to read GeoSite file 'sites.txt': No such file");

    let plain = GeoSitePlugin::init(&vec![], vec![]).unwrap();
    assert_eq!(plain.metadata_key(), "category");
    assert!(plain.is_empty());
}
