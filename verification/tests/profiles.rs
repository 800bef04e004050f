use portix_serv::errors::PortixError;
use portix_serv::profile::{parse_address, RdpProfile};
use portix_serv::settings::Settings;

fn manual_profile() -> RdpProfile {
    RdpProfile {
        id: "p1".into(),
        name: "test".into(),
        host: "server.local".into(),
        port: 3389,
        username: "user".into(),
        password: None,
        domain: None,
        width: 1920,
        height: 1080,
        screen_mode: 1,
        extra: Settings::new(),
    }
}

#[test]
fn parse_rdp_file_basic() {
    let content = r#"
full address:s:testhost:3389
username:s:testuser
desktopwidth:i:1920
desktopheight:i:1080
screen mode id:i:2
"#;
    let profile = RdpProfile::from_rdp_file("test-1".into(), "Test".into(), content).unwrap();
    assert_eq!(profile.host, "testhost");
    assert_eq!(profile.port, 3389);
    assert_eq!(profile.username, "testuser");
    assert_eq!(profile.width, 1920);
    assert_eq!(profile.height, 1080);
    assert_eq!(profile.screen_mode, 2);
}

#[test]
fn parse_rdp_file_no_port() {
    let content = "full address:s:myserver.local\nusername:s:user1\n";
    let profile = RdpProfile::from_rdp_file("test-2".into(), "Test2".into(), content).unwrap();
    assert_eq!(profile.host, "myserver.local");
    assert_eq!(profile.port, 3389);
}

#[test]
fn parse_rdp_file_missing_address() {
    let content = "username:s:admin\n";
    let result = RdpProfile::from_rdp_file("test-3".into(), "Test3".into(), content);
    assert!(result.is_err());
}

#[test]
fn parse_address_ipv6() {
    let (host, port) = parse_address("[::1]:3390");
    assert_eq!(host, "::1");
    assert_eq!(port, 3390);
}

#[test]
fn validate_rejects_empty_host() {
    let profile = RdpProfile {
        id: "p1".into(),
        name: "test".into(),
        host: "".into(),
        port: 3389,
        username: "user".into(),
        password: None,
        domain: None,
        width: 1920,
        height: 1080,
        screen_mode: 1,
        extra: Settings::new(),
    };
    assert!(profile.validate().is_err());
}

#[test]
fn to_rdp_file_roundtrip() {
    let content = r#"full address:s:server.local:3390
username:s:testuser
desktopwidth:i:1280
desktopheight:i:720
screen mode id:i:1
"#;
    let profile = RdpProfile::from_rdp_file("rt".into(), "Roundtrip".into(), content).unwrap();
    let output = profile.to_rdp_file_content();
    assert!(output.contains("full address:s:server.local:3390"));
    assert!(output.contains("username:s:testuser"));
}

#[test]
fn parse_cyberark_psm_rdp_file() {
    let content = r#"full address:s:psm.corp.com:3389
username:s:CORP\psmadmin
password 51:b:
screen mode id:i:2
desktopwidth:i:1920
desktopheight:i:1080
use multimon:i:0
audiomode:i:2
redirectprinters:i:0
autoreconnection enabled:i:1
authentication level:i:0
prompt for credentials:i:0
negotiate security layer:i:0
alternate shell:s:||PSM@SessionID123
remoteapplicationprogram:s:||PSM@SessionID123
"#;
    let profile =
        RdpProfile::from_rdp_file("psm-1".into(), "CyberArk PSM".into(), content).unwrap();
    assert_eq!(profile.host, "psm.corp.com");
    assert_eq!(profile.port, 3389);
    assert_eq!(profile.domain.as_deref(), Some("CORP"));
    assert_eq!(profile.username, "psmadmin");
    assert_eq!(
        profile.extra.get("alternate shell").map(|s| s.as_str()),
        Some("||PSM@SessionID123")
    );
}

#[test]
fn remoteapplicationprogram_falls_back_to_alternate_shell() {
    let content = r#"full address:s:rdsh.example.com
username:s:user1
remoteapplicationprogram:s:||Notepad
"#;
    let profile = RdpProfile::from_rdp_file("psm-2".into(), "RemoteApp".into(), content).unwrap();
    assert_eq!(
        profile.extra.get("alternate shell").map(|s| s.as_str()),
        Some("||Notepad"),
        "remoteapplicationprogram should be promoted to alternate shell"
    );
}

#[test]
fn alternate_shell_takes_priority_over_remoteapplicationprogram() {
    let content = r#"full address:s:server.local
username:s:admin
alternate shell:s:||Shell1
remoteapplicationprogram:s:||Shell2
"#;
    let profile =
        RdpProfile::from_rdp_file("psm-3".into(), "PSM priority".into(), content).unwrap();
    assert_eq!(
        profile.extra.get("alternate shell").map(|s| s.as_str()),
        Some("||Shell1"),
        "explicit alternate shell should not be overwritten"
    );
}

#[test]
fn parse_port_override_cyberark_style() {
    let content = r#"full address:s:psm.corp.com
port:i:13389
username:s:user
"#;
    let profile =
        RdpProfile::from_rdp_file("psm-4".into(), "Port override".into(), content).unwrap();
    assert_eq!(profile.port, 13389, "port:i field should override full address port");
}

fn complaint(profile: &RdpProfile) -> String {
    match profile.validate() {
        Err(PortixError::InvalidProfile(text)) => text,
        other => panic!("unexpected {other:?}"),
    }
}

#[test]
fn every_fault_of_a_profile_is_named() {
    assert!(manual_profile().validate().is_ok());
    let mut profile = manual_profile();
    profile.id = " \u{3000}\t".into();
    assert_eq!(complaint(&profile), "profile id is required");
    let mut profile = manual_profile();
    profile.host = "  ".into();
    assert_eq!(complaint(&profile), "host is required");
    let mut profile = manual_profile();
    profile.port = 0;
    assert_eq!(complaint(&profile), "port must be greater than 0");
    let mut profile = manual_profile();
    profile.height = 0;
    assert_eq!(complaint(&profile), "desktop size must be greater than 0");
}

#[test]
fn the_first_fault_is_the_one_named() {
    let mut profile = manual_profile();
    profile.id = String::new();
    profile.port = 0;
    assert_eq!(complaint(&profile), "profile id is required");
}

#[test]
fn addresses_are_split() {
    assert_eq!(parse_address("host:1"), ("host".to_owned(), 1));
    assert_eq!(parse_address("  host "), ("host".to_owned(), 3389));
    assert_eq!(parse_address("[fe80::1]"), ("fe80::1".to_owned(), 3389));
    assert_eq!(parse_address("host:99999"), ("host:99999".to_owned(), 3389));
}

#[test]
fn names_of_settings_do_not_depend_on_case() {
    let content = "FULL ADDRESS:s:h\nUserName:s:\u{130}me\nX-Ünit:s:on\n";
    let profile = RdpProfile::from_rdp_file("a".into(), "b".into(), content).unwrap();
    assert_eq!(profile.host, "h");
    assert_eq!(profile.username, "\u{130}me");
    assert_eq!(profile.extra.get("x-ünit").map(|s| s.as_str()), Some("on"));
    assert!(profile.extra.get("X-Ünit").is_none());
}

#[test]
fn the_layout_of_a_file_does_not_matter() {
    let plain = "full address:s:h:1\nusername:s:me\ndesktopwidth:i:800\nshell:s:a:b c\n";
    let other = "; first\r\n\n  FULL Address : i :  h:1 \r\n\t# second\nUserName:b:me\n \n\
                 DESKTOPWIDTH:x y:\t800\n Shell ::a:b c";
    let a = RdpProfile::from_rdp_file("p".into(), "n".into(), plain).unwrap();
    let b = RdpProfile::from_rdp_file("p".into(), "n".into(), other).unwrap();
    assert_eq!((&a.host, a.port, &a.username), (&b.host, b.port, &b.username));
    assert_eq!((a.host.as_str(), a.port, a.width), ("h", 1, 800));
    assert_eq!((a.width, a.height, a.screen_mode), (b.width, b.height, b.screen_mode));
    assert_eq!((a.domain, a.password), (b.domain, b.password));
    assert_eq!(a.extra.get("shell").map(|s| s.as_str()), Some("a:b c"));
    assert_eq!(b.extra.get("shell").map(|s| s.as_str()), Some("a:b c"));
    let untyped = "FULL ADDRESS:  h \n#x";
    let c = RdpProfile::from_rdp_file("p".into(), "n".into(), untyped).unwrap();
    assert_eq!((c.host.as_str(), c.port), ("h", 3389));
    for empty in ["username:s:me", "\n# full address:s:h\n USERNAME :i: me "] {
        assert!(RdpProfile::from_rdp_file("p".into(), "n".into(), empty).is_err());
    }
}

#[test]
fn a_file_that_is_written_reads_back() {
    let mut profile = manual_profile();
    profile.domain = Some("CORP".into());
    profile.extra.insert("audiomode".to_owned(), "2".to_owned());
    let again =
        RdpProfile::from_rdp_file("p1".into(), "test".into(), &profile.to_rdp_file_content())
            .unwrap();
    assert_eq!(again.host, profile.host);
    assert_eq!(again.port, profile.port);
    assert_eq!(again.username, profile.username);
    assert_eq!(again.domain, profile.domain);
    assert_eq!(again.width, profile.width);
    assert_eq!(again.height, profile.height);
    assert_eq!(again.screen_mode, profile.screen_mode);
    assert_eq!(again.extra.get("audiomode").map(|s| s.as_str()), Some("2"));
}

#[test]
fn a_setting_that_is_put_again_replaces_the_first() {
    let mut settings = Settings::new();
    settings.insert("a".to_owned(), "1".to_owned());
    settings.insert("b".to_owned(), "2".to_owned());
    settings.insert("a".to_owned(), "3".to_owned());
    assert_eq!(settings.get("a").map(|s| s.as_str()), Some("3"));
    assert_eq!(settings.get_either("c", "b").map(|s| s.as_str()), Some("2"));
    assert!(!settings.contains_key("c"));
}
