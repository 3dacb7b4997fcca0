use snapdog_ctrl::client::validate_client_arg;
use snapdog_ctrl::error::CtrlError;
use snapdog_ctrl::system::{
    parse_default_gateway, parse_ipv4_address, parse_network_mode, parse_resolv_conf_dns,
    parse_resolvectl_dns, parse_wifi_signal, parse_wpa_status, prefix_to_subnet,
    subnet_to_prefix,
};

#[test]
fn validate_client_arg_rejects_environment_file_breakout() {
    assert!(validate_client_arg("host_id", "living room").is_err());
    assert!(validate_client_arg("host_id", "living\"room").is_err());
    assert!(validate_client_arg("host_id", "living\nroom").is_err());
}

#[test]
fn validate_client_arg_accepts_common_values() {
    assert!(validate_client_arg("server_url", "tcp://192.168.1.10:1704").is_ok());
    assert!(validate_client_arg("host_id", "kitchen").is_ok());
    assert!(validate_client_arg("soundcard", "hw:0").is_ok());
}

#[test]
fn parses_ipv4_address_and_prefix() {
    let output = "2: eth0    inet 192.168.1.42/24 brd 192.168.1.255 scope global eth0";
    assert_eq!(
        parse_ipv4_address(output),
        Some(("192.168.1.42".into(), "255.255.255.0".into()))
    );
}

#[test]
fn parses_network_mode() {
    assert_eq!(
        parse_network_mode("[Network]\nDHCP=yes\n"),
        Some("dhcp".into())
    );
    assert_eq!(
        parse_network_mode("[Network]\nAddress=10.0.0.2/24\n"),
        Some("static".into())
    );
}

#[test]
fn parses_wifi_status_and_signal() {
    let status = parse_wpa_status("wpa_state=COMPLETED\nssid=Studio\nip_address=10.0.0.3\n");
    assert_eq!(status.state, "COMPLETED");
    assert_eq!(status.ssid, "Studio");
    assert_eq!(status.ip, "10.0.0.3");
    assert_eq!(parse_wifi_signal("RSSI=-51\nLINKSPEED=72\n"), Some(-51));
}

#[test]
fn parses_dns_and_gateway() {
    assert_eq!(
        parse_default_gateway("default via 192.168.1.1 dev eth0 proto dhcp"),
        Some("192.168.1.1".into())
    );
    assert_eq!(
        parse_resolvectl_dns("Link 2 (eth0): 1.1.1.1 8.8.8.8"),
        Some("1.1.1.1 8.8.8.8".into())
    );
    assert_eq!(
        parse_resolv_conf_dns("nameserver 9.9.9.9\nnameserver 149.112.112.112\n"),
        "9.9.9.9 149.112.112.112"
    );
}

#[test]
fn client_arg_error_names_the_field() {
    match validate_client_arg("mixer", "hard ware") {
        Err(e) => {
            assert!(matches!(e, CtrlError::UnsupportedCharacters { .. }));
            assert_eq!(e.message(), "mixer contains unsupported characters");
        }
        Ok(()) => panic!("a space must be refused"),
    }
}

#[test]
fn prefix_to_subnet_masks() {
    assert_eq!(prefix_to_subnet(0), "0.0.0.0");
    assert_eq!(prefix_to_subnet(8), "255.0.0.0");
    assert_eq!(prefix_to_subnet(20), "255.255.240.0");
    assert_eq!(prefix_to_subnet(24), "255.255.255.0");
    assert_eq!(prefix_to_subnet(32), "255.255.255.255");
    assert_eq!(prefix_to_subnet(40), "255.255.255.255");
}

#[test]
fn subnet_to_prefix_counts_bits() {
    assert_eq!(subnet_to_prefix("255.255.255.0"), 24);
    assert_eq!(subnet_to_prefix("255.255.240.0"), 20);
    assert_eq!(subnet_to_prefix("0.0.0.0"), 0);
    assert_eq!(subnet_to_prefix("255.x.255.0"), 16);
    assert_eq!(subnet_to_prefix(""), 0);
}

#[test]
fn subnet_roundtrip_on_every_prefix() {
    for p in 0u8..=40 {
        assert_eq!(subnet_to_prefix(&prefix_to_subnet(p)), p.min(32));
    }
}

#[test]
fn ipv4_parser_skips_lines_without_address() {
    let output = "1: lo    inet6 ::1/128 scope host\n3: wlan0    inet 10.0.0.7/16 brd 10.0.255.255";
    assert_eq!(
        parse_ipv4_address(output),
        Some(("10.0.0.7".into(), "255.255.0.0".into()))
    );
    assert_eq!(parse_ipv4_address("2: eth0 inet 10.0.0.7/x"), None);
    assert_eq!(parse_ipv4_address(""), None);
}

#[test]
fn network_mode_edge_cases() {
    assert_eq!(parse_network_mode("# DHCP=yes\n[Network]\n"), None);
    assert_eq!(parse_network_mode("Address=10.0.0.2/24\nDHCP=ipv4\n"), Some("dhcp".into()));
    assert_eq!(parse_network_mode("  DHCP=no\n"), None);
    assert_eq!(parse_network_mode("DHCP=both"), Some("dhcp".into()));
}

#[test]
fn wpa_status_keeps_last_value_and_defaults() {
    let status = parse_wpa_status("ssid=One\nssid=Two\nbssid=aa\n");
    assert_eq!(status.ssid, "Two");
    assert_eq!(status.state, "");
    assert_eq!(status.ip, "");
}

#[test]
fn wifi_signal_reads_avg_rssi_and_skips_garbage() {
    assert_eq!(parse_wifi_signal("AVG_RSSI=-60\n"), Some(-60));
    assert_eq!(parse_wifi_signal("RSSI=abc\nAVG_RSSI=-70\n"), Some(-70));
    assert_eq!(parse_wifi_signal("LINKSPEED=72\n"), None);
}

#[test]
fn dns_parsers_edge_cases() {
    assert_eq!(parse_resolvectl_dns("Global:\nLink 2 (eth0):   \n"), None);
    assert_eq!(
        parse_resolvectl_dns("Global:\nLink 3 (wlan0): 9.9.9.9\n"),
        Some("9.9.9.9".into())
    );
    assert_eq!(parse_resolv_conf_dns("# comment\nsearch lan\n"), "");
    assert_eq!(parse_default_gateway("10.0.0.0/8 dev eth0"), None);
}
