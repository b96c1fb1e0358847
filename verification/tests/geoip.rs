use lazydns::config::ConfigValue;
use lazydns::dns::{Context, Message, RData, Record};
use lazydns::geoip::GeoIpPlugin;
use lazydns::ip::{parse_ip, parse_net, IpAddr};

fn ip(s: &str) -> IpAddr {
    parse_ip(s).unwrap()
}

#[test]
fn test_geoip_plugin_creation() {
    let geoip = GeoIpPlugin::new("country".to_string());
    assert!(geoip.is_empty());
    assert_eq!(geoip.country_count(), 0);
    assert_eq!(geoip.range_count(), 0);
}

#[test]
fn test_add_country_cidr() {
    let mut geoip = GeoIpPlugin::new("country".to_string());
    geoip.add_country_cidr("US", parse_net("8.8.8.0/24").unwrap()).unwrap();
    assert_eq!(geoip.country_count(), 1);
    assert_eq!(geoip.range_count(), 1);
}

#[test]
fn test_lookup() {
    let mut geoip = GeoIpPlugin::new("country".to_string());
    geoip.add_country_cidr("US", parse_net("8.8.8.0/24").unwrap()).unwrap();
    geoip.add_country_cidr("CN", parse_net("1.0.1.0/24").unwrap()).unwrap();
    assert_eq!(geoip.lookup(&ip("8.8.8.8")), Some("US".to_string()));
    assert_eq!(geoip.lookup(&ip("1.0.1.1")), Some("CN".to_string()));
    assert_eq!(geoip.lookup(&ip("10.0.0.1")), None);
}

#[test]
fn geoip_test_load_from_string() {
    let mut geoip = GeoIpPlugin::new("country".to_string());
    let data = r#"
# US ranges
8.8.8.0/24 US
8.8.4.0/24 US
# China ranges
1.0.1.0/24 CN
1.0.2.0/24 CN
        "#;
    geoip.load_from_string(data).unwrap();
    assert_eq!(geoip.country_count(), 2);
    assert_eq!(geoip.range_count(), 4);
    assert_eq!(geoip.lookup(&ip("8.8.8.8")), Some("US".to_string()));
    assert_eq!(geoip.lookup(&ip("1.0.1.1")), Some("CN".to_string()));
}

#[test]
fn test_ipv6_support() {
    let mut geoip = GeoIpPlugin::new("country".to_string());
    geoip.add_country_cidr("US", parse_net("2001:4860::/32").unwrap()).unwrap();
    assert_eq!(geoip.lookup(&ip("2001:4860::1")), Some("US".to_string()));
}

#[test]
fn geoip_test_clear() {
    let mut geoip = GeoIpPlugin::new("country".to_string());
    geoip.add_country_cidr("US", parse_net("8.8.8.0/24").unwrap()).unwrap();
    assert!(!geoip.is_empty());
    geoip.clear();
    assert!(geoip.is_empty());
    assert_eq!(geoip.country_count(), 0);
}

#[test]
fn geoip_codes_are_upper_cased_and_bad_lines_reported() {
    let mut geoip = GeoIpPlugin::new("country".to_string());
    geoip.load_from_string("8.8.8.0/24 us\nlonely\n").unwrap();
    assert_eq!(geoip.lookup(&ip("8.8.8.8")), Some("US".to_string()));
    let e = geoip.load_from_string("9.9.9.0/24 de\nbogus XX\n10.0.0.0/8 fr\n").unwrap_err();
    assert_eq!(e.message(), "Invalid CIDR 'bogus': invalid IP address syntax");
    assert_eq!(geoip.lookup(&ip("9.9.9.9")), Some("DE".to_string()));
    assert_eq!(geoip.lookup(&ip("10.0.0.1")), None);
}

#[test]
fn test_geoip_plugin_execution() {
    let mut geoip = GeoIpPlugin::new("country".to_string());
    geoip.add_country_cidr("US", parse_net("8.8.8.0/24").unwrap()).unwrap();
    let mut response = Message::new();
    response.is_response = true;
    response.answers.push(Record { name: "example.com".to_string(), rtype: 1, class: 1, ttl: 300, rdata: RData::A(0x08080808) });
    let mut context = Context::new(Message::new());
    context.response = Some(response);
    geoip.execute(&mut context);
    assert_eq!(context.tag, Some(("country".to_string(), "US".to_string())));
}

#[test]
fn test_geoip_plugin_no_response() {
    let mut geoip = GeoIpPlugin::new("country".to_string());
    geoip.add_country_cidr("US", parse_net("8.8.8.0/24").unwrap()).unwrap();
    let mut context = Context::new(Message::new());
    geoip.execute(&mut context);
    assert_eq!(context.tag, None);
}

#[test]
fn geoip_init_reads_files_then_data() {
    let args = vec![
        ("metadata_key".to_string(), ConfigValue::Str("cc".to_string())),
        ("files".to_string(), ConfigValue::List(vec![ConfigValue::Str("geo.txt".to_string())])),
        ("data".to_string(), ConfigValue::List(vec![ConfigValue::Str("1.0.1.0/24 cn".to_string())])),
    ];
    let geoip = GeoIpPlugin::init(&args, vec![Ok("8.8.8.0/24 US\n".to_string())]).unwrap();
    assert_eq!(geoip.metadata_key, "cc");
    assert_eq!(geoip.country_count(), 2);
    let err = GeoIpPlugin::init(&args, vec![Err("No such file".to_string())]).unwrap_err();
    assert_eq!(err.message(), "Failed to read GeoIP file 'geo.txt': No such file");
}
