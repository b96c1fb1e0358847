use lazydns::dns::{Context, Message, RData, Record};
use lazydns::ip::make_v4_prefix;
use lazydns::sets::{IpSetArgs, IpSetPlugin, NftSetArgs, NftSetPlugin, SetArgs};

fn ip4(a: u8, b: u8, c: u8, d: u8) -> u32 {
    ((a as u32) << 24) | ((b as u32) << 16) | ((c as u32) << 8) | (d as u32)
}

fn rec(rtype: u16, rdata: RData) -> Record {
    Record { name: "example.com".to_string(), rtype, class: 1, ttl: 300, rdata }
}

fn with_answers(answers: Vec<Record>) -> Context {
    let mut ctx = Context::new(Message::new());
    let mut msg = Message::new();
    msg.answers = answers;
    ctx.response = Some(msg);
    ctx
}

fn recorded(ctx: &Context, key: &str) -> Option<Vec<(String, String)>> {
    ctx.set_entries.iter().find(|(k, _)| k == key).map(|(_, v)| v.clone())
}

fn set_args(family: Option<&str>, table: Option<&str>, set: Option<&str>, mask: Option<u8>) -> SetArgs {
    SetArgs {
        table_family: family.map(|s| s.to_string()),
        table: table.map(|s| s.to_string()),
        set: set.map(|s| s.to_string()),
        mask,
    }
}

#[test]
fn test_nftset_new() {
    let plugin = NftSetPlugin::new(NftSetArgs { ipv4: None, ipv6: None });
    assert_eq!(plugin.name(), "nftset");
}

#[test]
fn test_nftset_quick_setup_ipv4() {
    let plugin = NftSetPlugin::quick_setup("inet,my_table,my_set,ipv4_addr,24").unwrap();
    assert_eq!(plugin.name(), "nftset");
    assert!(plugin.args.ipv4.is_some());
    assert!(plugin.args.ipv6.is_none());
}

#[test]
fn test_nftset_quick_setup_ipv6() {
    let plugin = NftSetPlugin::quick_setup("inet,my_table,my_set,ipv6_addr,64").unwrap();
    assert_eq!(plugin.name(), "nftset");
    assert!(plugin.args.ipv4.is_none());
    assert!(plugin.args.ipv6.is_some());
}

#[test]
fn test_nftset_quick_setup_both() {
    let plugin = NftSetPlugin::quick_setup("inet,t1,s1,ipv4_addr,24 inet,t2,s2,ipv6_addr,64").unwrap();
    assert!(plugin.args.ipv4.is_some());
    assert!(plugin.args.ipv6.is_some());
}

#[test]
fn test_nftset_quick_setup_too_many_fields() {
    let result = NftSetPlugin::quick_setup("a,b,c,d,24 e,f,g,h,32 i,j,k,l,48");
    assert!(result.is_err());
}

#[test]
fn test_nftset_quick_setup_wrong_parts() {
    let result = NftSetPlugin::quick_setup("inet,my_table,my_set");
    assert!(result.is_err());
}

#[test]
fn test_nftset_quick_setup_invalid_mask() {
    let result = NftSetPlugin::quick_setup("inet,t,s,ipv4_addr,notanumber");
    assert!(result.is_err());
}

#[test]
fn test_nftset_quick_setup_invalid_addr_type() {
    let result = NftSetPlugin::quick_setup("inet,t,s,invalid_type,24");
    assert!(result.is_err());
}

#[test]
fn test_nftset_v4_add() {
    let plugin = NftSetPlugin::new(NftSetArgs { ipv4: Some(set_args(Some("inet"), Some("t"), Some("s"), Some(24))), ipv6: None });
    let mut ctx = with_answers(vec![rec(1, RData::A(ip4(192, 0, 2, 5)))]);
    let (v4, v6) = plugin.execute(&mut ctx);
    assert_eq!(v4, vec![("s".to_string(), "192.0.2.0/24".to_string())]);
    assert!(v6.is_empty());
    let added = recorded(&ctx, "nftset_added_v4").unwrap();
    assert_eq!(added.len(), 1);
    assert_eq!(added[0], ("s".to_string(), "192.0.2.0/24".to_string()));
    assert!(recorded(&ctx, "nftset_added_v6").is_none());
}

#[test]
fn nftset_test_make_v4_prefix_mask_zero() {
    let ip = ip4(192, 0, 2, 5);
    assert_eq!(make_v4_prefix(ip, 0), "0.0.0.0/0");
    assert_eq!(make_v4_prefix(ip, 24), "192.0.2.0/24");
    assert_eq!(make_v4_prefix(ip, 32), "192.0.2.5/32");
}

#[test]
fn test_nftset_v6_add() {
    let plugin = NftSetPlugin::new(NftSetArgs { ipv4: None, ipv6: Some(set_args(Some("inet"), Some("t"), Some("s"), Some(64))) });
    let mut ctx = with_answers(vec![rec(28, RData::AAAA(0x2001_0db8_0000_0000_0000_0000_0000_0001))]);
    let (v4, v6) = plugin.execute(&mut ctx);
    assert!(v4.is_empty());
    assert_eq!(v6.len(), 1);
    let added = recorded(&ctx, "nftset_added_v6").unwrap();
    assert_eq!(added.len(), 1);
    assert_eq!(added[0].1, "2001:db8::/64");
    assert!(recorded(&ctx, "nftset_added_v4").is_none());
}

#[test]
fn test_nftset_no_matching_records() {
    let plugin = NftSetPlugin::new(NftSetArgs { ipv4: Some(set_args(None, None, None, Some(24))), ipv6: None });
    let mut ctx = with_answers(vec![rec(5, RData::Name("target.com".to_string()))]);
    let (v4, v6) = plugin.execute(&mut ctx);
    assert!(v4.is_empty() && v6.is_empty());
    assert!(recorded(&ctx, "nftset_added_v4").is_none());
    assert!(recorded(&ctx, "nftset_added_v6").is_none());
}

#[test]
fn test_nftset_disabled_config() {
    let plugin = NftSetPlugin::new(NftSetArgs { ipv4: None, ipv6: None });
    let mut ctx = with_answers(vec![rec(1, RData::A(ip4(192, 0, 2, 1)))]);
    let (v4, v6) = plugin.execute(&mut ctx);
    assert!(v4.is_empty() && v6.is_empty());
    assert!(recorded(&ctx, "nftset_added_v4").is_none());
}

#[test]
fn test_nftset_exec_plugin() {
    let plugin = NftSetPlugin::quick_setup("inet,my_table,my_set,ipv4_addr,24").unwrap();
    assert_eq!(plugin.name(), "nftset");
}

#[test]
fn test_exec_plugin_quick_setup_wrong_prefix() {
    let result = NftSetPlugin::exec_quick_setup("wrong", "inet,t,s,ipv4_addr,24");
    assert!(result.is_err());
}

#[test]
fn test_exec_plugin_quick_setup_both_families() {
    let result = NftSetPlugin::exec_quick_setup("nftset", "inet,t1,s1,ipv4_addr,24,inet,t2,s2,ipv6_addr,64");
    assert!(result.is_ok());
}

#[test]
fn test_exec_plugin_quick_setup_invalid_count() {
    let result = NftSetPlugin::exec_quick_setup("nftset", "inet,t,s,ipv4_addr");
    assert!(result.is_err());
}

#[test]
fn test_ipset_args_default() {
    let args = IpSetArgs::default();
    assert!(args.set_name4.is_none());
    assert!(args.set_name6.is_none());
    assert_eq!(args.mask4, Some(24));
    assert_eq!(args.mask6, Some(32));
}

#[test]
fn test_ipset_new() {
    let args = IpSetArgs { set_name4: Some("test".into()), set_name6: None, mask4: Some(24), mask6: None };
    let plugin = IpSetPlugin::new(args);
    assert_eq!(plugin.name(), "ipset");
}

#[test]
fn test_ipset_quick_setup_ipv4() {
    let plugin = IpSetPlugin::quick_setup("myset,inet,24").unwrap();
    assert!(plugin.args.set_name4.is_some());
    assert!(plugin.args.set_name6.is_none());
}

#[test]
fn test_ipset_quick_setup_ipv6() {
    let plugin = IpSetPlugin::quick_setup("myset,inet6,64").unwrap();
    assert!(plugin.args.set_name4.is_none());
    assert!(plugin.args.set_name6.is_some());
}

#[test]
fn test_ipset_quick_setup_both() {
    let plugin = IpSetPlugin::quick_setup("set4,inet,24 set6,inet6,64").unwrap();
    assert!(plugin.args.set_name4.is_some());
    assert!(plugin.args.set_name6.is_some());
}

#[test]
fn test_ipset_quick_setup_invalid_count() {
    assert!(IpSetPlugin::quick_setup("set4,inet").is_err());
}

#[test]
fn test_ipset_quick_setup_too_many() {
    assert!(IpSetPlugin::quick_setup("a,b,c d,e,f g,h,i").is_err());
}

#[test]
fn test_ipset_quick_setup_invalid_mask() {
    assert!(IpSetPlugin::quick_setup("set,inet,notanumber").is_err());
}

#[test]
fn test_ipset_quick_setup_invalid_family() {
    assert!(IpSetPlugin::quick_setup("set,invalid,24").is_err());
}

#[test]
fn test_ipset_v4_prefix() {
    let plugin = IpSetPlugin::new(IpSetArgs { set_name4: Some("myset".into()), set_name6: None, mask4: Some(24), mask6: None });
    let mut ctx = with_answers(vec![rec(1, RData::A(ip4(192, 0, 2, 5)))]);
    let all = plugin.execute(&mut ctx);
    assert_eq!(all, vec![("myset".to_string(), "192.0.2.0/24".to_string())]);
    let added = recorded(&ctx, "ipset_added").unwrap();
    assert_eq!(added.len(), 1);
}

#[test]
fn ipset_test_make_v4_prefix_mask_zero() {
    let ip = ip4(192, 0, 2, 5);
    assert_eq!(make_v4_prefix(ip, 0), "0.0.0.0/0");
    assert_eq!(make_v4_prefix(ip, 24), "192.0.2.0/24");
    assert_eq!(make_v4_prefix(ip, 32), "192.0.2.5/32");
}

#[test]
fn test_ipset_v6_prefix() {
    let plugin = IpSetPlugin::new(IpSetArgs { set_name4: None, set_name6: Some("myset6".into()), mask4: None, mask6: Some(64) });
    let mut ctx = with_answers(vec![rec(28, RData::AAAA(0x2001_0db8_0000_0000_0000_0000_0000_0001))]);
    plugin.execute(&mut ctx);
    let added = recorded(&ctx, "ipset_added").unwrap();
    assert_eq!(added.len(), 1);
    assert_eq!(added[0].1, "2001:db8::/64");
}

#[test]
fn test_ipset_no_matching_records() {
    let plugin = IpSetPlugin::new(IpSetArgs { set_name4: Some("myset".into()), set_name6: None, mask4: Some(24), mask6: None });
    let mut ctx = with_answers(vec![rec(5, RData::Name("target.com".to_string()))]);
    assert!(plugin.execute(&mut ctx).is_empty());
    assert!(recorded(&ctx, "ipset_added").is_none());
}

#[test]
fn test_ipset_disabled_config() {
    let plugin = IpSetPlugin::new(IpSetArgs { set_name4: None, set_name6: None, mask4: Some(24), mask6: Some(64) });
    let mut ctx = with_answers(vec![rec(1, RData::A(ip4(192, 0, 2, 1)))]);
    assert!(plugin.execute(&mut ctx).is_empty());
    assert!(recorded(&ctx, "ipset_added").is_none());
}

#[test]
fn test_ipset_exec_plugin() {
    let plugin = IpSetPlugin::quick_setup("test_set,inet,24").unwrap();
    assert_eq!(plugin.name(), "ipset");
}

#[test]
fn test_exec_plugin_wrong_prefix() {
    assert!(IpSetPlugin::exec_quick_setup("wrong", "set,inet,24").is_err());
}

#[test]
fn test_exec_plugin_both_families() {
    assert!(IpSetPlugin::exec_quick_setup("ipset", "set4,inet,24,set6,inet6,64").is_ok());
}

#[test]
fn test_exec_plugin_invalid_count() {
    assert!(IpSetPlugin::exec_quick_setup("ipset", "set,inet").is_err());
}

#[test]
fn make_prefix_masks_host_bits() {
    let _ = Message::new();
    assert_eq!(make_v4_prefix(ip4(10, 1, 2, 3), 8), "10.0.0.0/8");
}

#[test]
fn test_ipset_no_response() {
    let plugin = IpSetPlugin::new(IpSetArgs { set_name4: Some("myset".into()), set_name6: None, mask4: Some(24), mask6: None });
    let mut ctx = Context::new(Message::new());
    assert!(plugin.execute(&mut ctx).is_empty());
    assert!(recorded(&ctx, "ipset_added").is_none());
}

#[test]
fn test_nftset_no_response() {
    let plugin = NftSetPlugin::new(NftSetArgs { ipv4: Some(set_args(None, None, None, Some(24))), ipv6: None });
    let mut ctx = Context::new(Message::new());
    let (v4, v6) = plugin.execute(&mut ctx);
    assert!(v4.is_empty() && v6.is_empty());
    assert!(recorded(&ctx, "nftset_added_v4").is_none());
}

#[test]
fn ipset_appends_to_entries_recorded_earlier() {
    let plugin = IpSetPlugin::new(IpSetArgs { set_name4: Some("myset".into()), set_name6: None, mask4: Some(32), mask6: None });
    let mut ctx = with_answers(vec![rec(1, RData::A(ip4(10, 0, 0, 1)))]);
    plugin.execute(&mut ctx);
    ctx.response = Some({
        let mut m = Message::new();
        m.answers = vec![rec(1, RData::A(ip4(10, 0, 0, 2)))];
        m
    });
    let all = plugin.execute(&mut ctx);
    assert_eq!(all, vec![("myset".to_string(), "10.0.0.1/32".to_string()), ("myset".to_string(), "10.0.0.2/32".to_string())]);
    assert_eq!(recorded(&ctx, "ipset_added").unwrap(), all);
}
