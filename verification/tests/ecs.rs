use lazydns::ecs::{EcsArgs, EcsPlugin};
use lazydns::ip::IpAddr;

#[test]
fn test_ecs_preset_v4() {
    let args = EcsArgs { forward: None, send: None, preset: Some("192.0.2.5".to_string()), mask4: Some(24), mask6: None };
    let plugin = EcsPlugin::new(args).unwrap();
    let opts = plugin.options_for(None, None).unwrap();
    assert_eq!(opts, vec![(8u16, vec![0, 1, 24, 0, 192, 0, 2])]);
}

#[test]
fn test_ecs_forward_copies_client_options() {
    let args = EcsArgs { forward: Some(true), send: None, preset: None, mask4: None, mask6: None };
    let plugin = EcsPlugin::new(args).unwrap();
    let client_opts: Vec<(u16, Vec<u8>)> = vec![(8u16, vec![0, 1, 24, 0, 192, 0, 2])];
    let got = plugin.options_for(Some(client_opts.clone()), None);
    assert_eq!(got, Some(client_opts));
}

#[test]
fn test_ecs_send_derives_from_client_addr() {
    let args = EcsArgs { forward: None, send: Some(true), preset: None, mask4: Some(24), mask6: Some(56) };
    let plugin = EcsPlugin::new(args).unwrap();
    let got = plugin.options_for(None, Some("192.0.2.7".to_string()));
    assert_eq!(got, Some(vec![(8u16, vec![0, 1, 24, 0, 192, 0, 2])]));
    let (code, data) = EcsPlugin::make_ecs_option(IpAddr::V6(1), 24, 56);
    assert_eq!(code, 8);
    assert_eq!(data.len(), 4 + 7);
    assert_eq!(&data[0..4], &[0, 2, 56, 0]);
}

#[test]
fn test_ecs_quick_setup() {
    let plugin = EcsPlugin::quick_setup("ecs", "forward=true").unwrap();
    assert_eq!(plugin.name(), "ecs");
    let plugin = EcsPlugin::quick_setup("ecs", "send=true,mask4=20,mask6=40").unwrap();
    assert_eq!(plugin.name(), "ecs");
    let plugin = EcsPlugin::quick_setup("ecs", "preset=192.0.2.1").unwrap();
    assert_eq!(plugin.name(), "ecs");
    assert!(EcsPlugin::quick_setup("invalid", "forward=true").is_err());
    assert!(EcsPlugin::quick_setup("ecs", "invalid=true").is_err());
}

#[test]
fn ecs_quick_setup_error_texts() {
    assert_eq!(EcsPlugin::quick_setup("ecs", "mask4=300").unwrap_err().message(), "Invalid u8 for mask4: '300'");
    assert_eq!(EcsPlugin::quick_setup("ecs", "send=yes").unwrap_err().message(), "Invalid boolean for send: 'yes'");
    assert_eq!(EcsPlugin::quick_setup("ecs", "novalue").unwrap_err().message(), "Invalid key=value pair: 'novalue'");
}

#[test]
fn ecs_option_zeroes_bits_past_the_prefix() {
    let ip = IpAddr::V4((192u32 << 24) | (2 << 8) | 255);
    assert_eq!(EcsPlugin::make_ecs_option(ip, 20, 48), (8u16, vec![0, 1, 20, 0, 192, 0, 0]));
    let v6 = IpAddr::V6(0x2001_0db8_ffff_ffff_0000_0000_0000_0001);
    assert_eq!(
        EcsPlugin::make_ecs_option(v6, 24, 36),
        (8u16, vec![0, 2, 36, 0, 0x20, 0x01, 0x0d, 0xb8, 0xf0])
    );
    assert_eq!(EcsPlugin::make_ecs_option(ip, 0, 48), (8u16, vec![0, 1, 0, 0]));
}
