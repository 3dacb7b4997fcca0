use snapdog_ctrl::api::EthernetConfig;
use snapdog_ctrl::client::ClientConfig;
use snapdog_ctrl::api::SshConfig;
use snapdog_ctrl::mock::MockState;
use snapdog_ctrl::rauc::{install_progress, slot_status};
use snapdog_ctrl::web::{
    asset_for, asset_path, bearer_token, check_softap_password, chpasswd_input, listen_port,
    password_change, system_password, wants_progress, PasswordChange,
};

#[test]
fn asset_paths() {
    assert_eq!(asset_path("/"), "index.html");
    assert_eq!(asset_path(""), "index.html");
    assert_eq!(asset_path("//_next/app.js"), "_next/app.js");
    assert_eq!(asset_path("/setup"), "setup");
}

#[test]
fn asset_media_types() {
    let (path, mime) = asset_for("/");
    assert_eq!(path, "index.html");
    assert_eq!(mime, "text/html");
    assert_eq!(asset_for("/app.js").1, "text/javascript");
    assert_eq!(asset_for("/style.css").1, "text/css");
    assert_eq!(asset_for("/setup").1, "application/octet-stream");
}

#[test]
fn bearer_tokens() {
    assert_eq!(bearer_token("Bearer abc123"), Some("abc123".to_string()));
    assert_eq!(bearer_token("Bearer "), Some(String::new()));
    assert_eq!(bearer_token("Basic abc"), None);
    assert_eq!(bearer_token("bearer abc"), None);
}

#[test]
fn password_changes() {
    let set = password_change(Some("hunter22".to_string()));
    assert!(matches!(&set, PasswordChange::Replace(p) if p == "hunter22"));
    assert_eq!(system_password(&set), "hunter22");
    let removed = password_change(Some(String::new()));
    assert!(matches!(removed, PasswordChange::Remove));
    assert_eq!(system_password(&removed), "snapdog");
    assert!(matches!(password_change(None), PasswordChange::Remove));
    assert_eq!(chpasswd_input("pw"), "root:pw\n");
}

#[test]
fn softap_password_length_in_bytes() {
    assert!(check_softap_password("snapdog123").is_ok());
    assert!(check_softap_password("12345678").is_ok());
    match check_softap_password("1234567") {
        Err(e) => assert_eq!(e.message(), "password must have at least 8 characters"),
        Ok(()) => panic!("too short"),
    }
    assert!(check_softap_password("äöüß").is_ok());
    assert!(check_softap_password("äöü").is_err());
}

#[test]
fn progress_only_while_installing() {
    assert!(wants_progress("installing"));
    assert!(!wants_progress("idle"));
}

#[test]
fn listen_ports() {
    assert_eq!(listen_port(None), 80);
    assert_eq!(listen_port(Some("8080")), 8080);
    assert_eq!(listen_port(Some("70000")), 80);
    assert_eq!(listen_port(Some("")), 80);
}

#[test]
fn slot_status_and_progress() {
    let s = slot_status(
        "rootfs.1".to_string(),
        "/dev/mmcblk0p3".to_string(),
        "booted".to_string(),
        "1.2.0".to_string(),
        "B",
        "B",
    );
    assert_eq!(s.class, "rootfs");
    assert!(s.booted);
    let t = slot_status("rootfs.0".to_string(), String::new(), String::new(), String::new(), "A", "B");
    assert!(!t.booted);
    let u = slot_status("rootfs.0".to_string(), String::new(), String::new(), String::new(), "", "rootfs.0");
    assert!(u.booted);
    let p = install_progress(40, "Copying".to_string(), 2);
    assert_eq!(p.percentage, 40);
    assert_eq!(p.message, "Copying");
}

#[test]
fn mock_starts_with_development_values() {
    let m = MockState::new();
    let info = m.get_system_info();
    assert_eq!(info.hostname, "snapdog-dev");
    assert_eq!(info.channel, "stable");
    assert_eq!(info.version, "0.1.0");
    assert_eq!(info.uptime_seconds, 86400);
    assert_eq!(info.pi_version, 4);
    let e = m.get_ethernet();
    assert_eq!(e.ip, "192.168.1.42");
    let w = m.get_wifi();
    assert_eq!(w.ssid, "DevNetwork");
    assert!(w.connected);
    assert_eq!(w.signal, -52);
    assert_eq!(m.wifi_scan().networks.len(), 3);
    assert_eq!(m.get_audio().available_overlays.len(), 7);
    assert_eq!(m.get_client().host_id, "kitchen");
    assert!(!m.get_ssh().enabled);
}

#[test]
fn mock_reads_back_what_was_set() {
    let mut m = MockState::new();
    m.set_system(Some("den".to_string()), None);
    assert_eq!(m.get_system_info().hostname, "den");
    assert_eq!(m.get_system_info().channel, "stable");
    m.set_ethernet(EthernetConfig {
        mode: "static".to_string(),
        ip: Some("10.0.0.2".to_string()),
        subnet: None,
        gateway: None,
        dns: Some("9.9.9.9".to_string()),
    });
    let e = m.get_ethernet();
    assert_eq!(e.mode, "static");
    assert_eq!(e.ip, "10.0.0.2");
    assert_eq!(e.subnet, "");
    assert_eq!(e.dns, "9.9.9.9");
    assert!(e.connected);
    m.set_wifi("Office");
    assert_eq!(m.get_network_overview().wifi.ssid, "Office");
    m.delete_wifi();
    let w = m.get_wifi();
    assert_eq!(w.ssid, "");
    assert!(!w.connected);
    m.set_audio_overlay("justboom-dac");
    assert_eq!(m.get_audio().overlay, "justboom-dac");
    m.set_client(ClientConfig {
        server_url: "tcp://1.2.3.4:1704".to_string(),
        host_id: "den".to_string(),
        soundcard: "hw:1".to_string(),
        mixer: "none".to_string(),
        latency: 5,
        mdns_name: String::new(),
        running: false,
        available_soundcards: Vec::new(),
    });
    let c = m.get_client();
    assert_eq!(c.host_id, "den");
    assert_eq!(c.mdns_name, "_snapdog._tcp");
    assert!(c.running);
    assert_eq!(c.available_soundcards.len(), 1);
    m.set_ssh(SshConfig { enabled: true, pubkeys: vec!["k".to_string()] });
    let s = m.get_ssh();
    assert!(s.enabled);
    assert_eq!(s.pubkeys, vec!["k".to_string()]);
}
