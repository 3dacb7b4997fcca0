use snapdog_ctrl::api::{EthernetConfig, WifiConfig};
use snapdog_ctrl::network::{
    ethernet_network_config, is_wifi_configured, parse_scan_results, wifi_network_config,
    wpa_supplicant_config, wpa_supplicant_empty_config, ScannedNetwork, StaticConfig,
};
use snapdog_ctrl::status::{
    dns_servers, ethernet_info, ethernet_interface, ethernet_static_config, interface_status,
    network_mode_or_dhcp, operstate_is_up, should_start_ap, wifi_info, wifi_scan_result, wifi_static_config,
    audio_info,
};
use snapdog_ctrl::system::parse_network_mode;

fn static_cfg() -> StaticConfig {
    StaticConfig {
        ip: "192.168.1.50".to_string(),
        subnet: "255.255.255.0".to_string(),
        gateway: "192.168.1.1".to_string(),
        dns: "1.1.1.1".to_string(),
    }
}

#[test]
fn wpa_config_holds_network_block() {
    let c = wpa_supplicant_config("Home", "secret123");
    assert_eq!(
        c,
        "ctrl_interface=/var/run/wpa_supplicant\nupdate_config=1\ncountry=DE\n\nnetwork={\n  ssid=\"Home\"\n  psk=\"secret123\"\n  key_mgmt=WPA-PSK\n}\n"
    );
    assert!(is_wifi_configured(&c));
    let empty = wpa_supplicant_empty_config();
    assert_eq!(empty, "ctrl_interface=/var/run/wpa_supplicant\nupdate_config=1\ncountry=DE\n");
    assert!(!is_wifi_configured(&empty));
}

#[test]
fn networkd_files_for_dhcp_and_static() {
    assert_eq!(wifi_network_config(None), "[Match]\nName=wlan0\n\n[Network]\nDHCP=yes\n");
    assert_eq!(
        ethernet_network_config(Some(&static_cfg())),
        "[Match]\nName=eth0 end0\n\n[Network]\nAddress=192.168.1.50/24\nGateway=192.168.1.1\nDNS=1.1.1.1\n"
    );
}

#[test]
fn written_networkd_files_read_back_their_mode() {
    assert_eq!(parse_network_mode(&ethernet_network_config(None)), Some("dhcp".into()));
    assert_eq!(parse_network_mode(&wifi_network_config(Some(&static_cfg()))), Some("static".into()));
}

#[test]
fn scan_results_skip_header_and_hidden_networks() {
    let out = "bssid / frequency / signal level / flags / ssid\naa:bb\t2412\t-40\t[WPA2-PSK-CCMP][ESS]\tHome\ncc:dd\t2437\t-70\t[ESS]\t\nee:ff\t5180\tx\t[WEP][ESS]\tOld\n11:22\t2412\t-55\t[ESS]\tCafe\nshort\tline\n";
    let nets = parse_scan_results(out);
    assert_eq!(nets.len(), 3);
    assert_eq!((nets[0].ssid.as_str(), nets[0].signal, nets[0].security.as_str()), ("Home", -40, "wpa2"));
    assert_eq!((nets[1].ssid.as_str(), nets[1].signal, nets[1].security.as_str()), ("Old", -100, "wep"));
    assert_eq!((nets[2].ssid.as_str(), nets[2].signal, nets[2].security.as_str()), ("Cafe", -55, "open"));
}

#[test]
fn operstate_and_interface_choice() {
    assert!(operstate_is_up("up\n"));
    assert!(!operstate_is_up("down\n"));
    assert_eq!(ethernet_interface(true, true), "eth0");
    assert_eq!(ethernet_interface(false, true), "end0");
    assert_eq!(ethernet_interface(false, false), "eth0");
}

#[test]
fn interface_status_from_command_output() {
    let s = interface_status(
        false,
        Some("2: eth0    inet 192.168.1.42/24 brd 192.168.1.255 scope global eth0"),
        Some("default via 192.168.1.1 dev eth0 proto dhcp"),
        "1.1.1.1".to_string(),
    );
    assert!(s.connected);
    assert_eq!(s.ip, "192.168.1.42");
    assert_eq!(s.subnet, "255.255.255.0");
    assert_eq!(s.gateway, "192.168.1.1");
    assert_eq!(s.dns, "1.1.1.1");
    let down = interface_status(false, None, None, String::new());
    assert!(!down.connected);
    assert_eq!(down.ip, "");
    let up = interface_status(true, Some("garbage"), None, String::new());
    assert!(up.connected);
}

#[test]
fn dns_prefers_resolvectl() {
    assert_eq!(dns_servers(Some("Link 2 (eth0): 8.8.8.8"), "nameserver 9.9.9.9\n"), "8.8.8.8");
    assert_eq!(dns_servers(Some("Link 2 (eth0):"), "nameserver 9.9.9.9\n"), "9.9.9.9");
    assert_eq!(dns_servers(None, "nameserver 9.9.9.9\nnameserver 1.0.0.1\n"), "9.9.9.9 1.0.0.1");
}

#[test]
fn ethernet_and_wifi_info() {
    let st = interface_status(true, None, None, String::new());
    let e = ethernet_info(st, "");
    assert!(e.connected);
    assert_eq!(e.mode, "dhcp");
    assert_eq!(network_mode_or_dhcp("Address=10.0.0.2/24\n"), "static");

    let st = interface_status(false, None, None, "1.1.1.1".to_string());
    let w = wifi_info(
        st,
        Some("wpa_state=COMPLETED\nssid=Studio\nip_address=10.0.0.3\n"),
        Some("RSSI=-51\n"),
        "[Network]\nDHCP=yes\n",
    );
    assert!(w.connected);
    assert_eq!(w.ssid, "Studio");
    assert_eq!(w.ip, "10.0.0.3");
    assert_eq!(w.signal, -51);
    assert_eq!(w.mode, "dhcp");
    assert_eq!(w.dns, "1.1.1.1");

    let st = interface_status(false, None, None, String::new());
    let off = wifi_info(st, None, None, "");
    assert!(!off.connected);
    assert_eq!(off.ssid, "");
    assert_eq!(off.signal, 0);
}

#[test]
fn static_configs_from_requests() {
    let eth = EthernetConfig {
        mode: "static".to_string(),
        ip: Some("10.0.0.2".to_string()),
        subnet: None,
        gateway: Some("10.0.0.1".to_string()),
        dns: None,
    };
    let s = ethernet_static_config(eth).unwrap();
    assert_eq!(s.ip, "10.0.0.2");
    assert_eq!(s.subnet, "255.255.255.0");
    assert_eq!(s.gateway, "10.0.0.1");
    assert_eq!(s.dns, "");
    let dhcp = EthernetConfig { mode: "dhcp".to_string(), ip: None, subnet: None, gateway: None, dns: None };
    assert!(ethernet_static_config(dhcp).is_none());

    let wifi = WifiConfig {
        ssid: "Home".to_string(),
        password: "pw".to_string(),
        mode: Some("static".to_string()),
        ip: Some("10.0.0.9".to_string()),
        subnet: Some("255.255.0.0".to_string()),
        gateway: None,
        dns: Some("9.9.9.9".to_string()),
    };
    let w = wifi_static_config(&wifi).unwrap();
    assert_eq!(w.subnet, "255.255.0.0");
    assert_eq!(w.dns, "9.9.9.9");
    let no_mode = WifiConfig { mode: None, ..wifi };
    assert!(wifi_static_config(&no_mode).is_none());
}

#[test]
fn scan_result_keeps_networks() {
    let r = wifi_scan_result(vec![ScannedNetwork { ssid: "A".to_string(), signal: -30, security: "open".to_string() }]);
    assert_eq!(r.networks.len(), 1);
    assert_eq!(r.networks[0].ssid, "A");
    assert_eq!(r.networks[0].signal, -30);
    assert_eq!(r.networks[0].security, "open");
}

#[test]
fn audio_info_lists_overlays() {
    let a = audio_info("iqaudio-dacplus".to_string(), "sndrpihifiberry\n");
    assert_eq!(a.overlay, "iqaudio-dacplus");
    assert_eq!(a.detected_card, "sndrpihifiberry");
    assert_eq!(a.soundcard, "hw:0");
    assert_eq!(a.available_overlays.len(), 6);
    assert_eq!(a.available_overlays[0].id, "allo-boss-dac-pcm512x-audio");
    assert_eq!(a.available_overlays[5].id, "");
    assert_eq!(a.available_overlays[5].name, "Auto-detect (HAT EEPROM)");
}

#[test]
fn access_point_only_without_any_network() {
    assert!(should_start_ap(false, false));
    assert!(!should_start_ap(true, false));
    assert!(!should_start_ap(false, true));
    assert!(!should_start_ap(true, true));
}

#[test]
fn static_file_with_broken_value_still_reads_static() {
    let cfg = StaticConfig {
        ip: "10.0.0.2".to_string(),
        subnet: "255.255.255.0".to_string(),
        gateway: "10.0.0.1\nMTU=1400".to_string(),
        dns: "9.9.9.9".to_string(),
    };
    assert_eq!(parse_network_mode(&ethernet_network_config(Some(&cfg))), Some("static".into()));
    let smuggled = StaticConfig { dns: "9.9.9.9\nDHCP=yes".to_string(), ..cfg };
    assert_eq!(parse_network_mode(&ethernet_network_config(Some(&smuggled))), Some("dhcp".into()));
}
