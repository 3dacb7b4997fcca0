use snapdog_ctrl::api::AutoUpdateConfig;
use snapdog_ctrl::ctrl_config::{
    auto_update_config_from, auto_update_toml, service_config_from, service_plan, service_toml,
    service_unit, set_service_toml, systemctl_verbs, try_auto_update_toml,
};

fn config(enabled: bool, channel: &str, time: &str) -> AutoUpdateConfig {
    AutoUpdateConfig {
        enabled,
        channel: channel.to_string(),
        interval: "daily".to_string(),
        time: time.to_string(),
    }
}

#[test]
fn auto_update_defaults_on_empty_file() {
    let c = auto_update_config_from("");
    assert!(c.enabled);
    assert_eq!(c.channel, "stable");
    assert_eq!(c.time, "04:00");
    assert_eq!(c.interval, "daily");
}

#[test]
fn auto_update_reads_table() {
    let c = auto_update_config_from("[auto-update]\nenabled = false\nchannel = \"beta\"\n");
    assert!(!c.enabled);
    assert_eq!(c.channel, "beta");
    assert_eq!(c.time, "04:00");
}

#[test]
fn auto_update_ignores_unparsable_file() {
    let c = auto_update_config_from("this is [ not toml");
    assert!(c.enabled);
    assert_eq!(c.channel, "stable");
}

#[test]
fn auto_update_written_reads_back() {
    let original = "# settings\n[services]\nssh = true\n";
    let written = auto_update_toml(original, &config(false, "beta", "03:30"));
    let back = auto_update_config_from(&written);
    assert!(!back.enabled);
    assert_eq!(back.channel, "beta");
    assert_eq!(back.time, "03:30");
    assert!(service_config_from(&written).ssh);
}

#[test]
fn auto_update_refused_when_entry_is_no_table() {
    assert!(try_auto_update_toml("auto-update = 3\n", &config(true, "stable", "04:00")).is_none());
    assert!(try_auto_update_toml("", &config(true, "stable", "04:00")).is_some());
}

#[test]
fn services_default_to_client_only() {
    let s = service_config_from("");
    assert!(!s.ssh);
    assert!(s.client);
    assert!(!s.server);
    assert_eq!(s.get("client"), Some(true));
    assert_eq!(s.get("printer"), None);
}

#[test]
fn service_units_and_verbs() {
    assert_eq!(service_unit("ssh"), Some("sshd.service"));
    assert_eq!(service_unit("client"), Some("snapdog-client.service"));
    assert_eq!(service_unit("server"), Some("snapdog.service"));
    assert_eq!(service_unit("web"), None);
    assert_eq!(systemctl_verbs(true), vec!["unmask", "start"]);
    assert_eq!(systemctl_verbs(false), vec!["stop"]);
    let plan = service_plan(&service_config_from("[services]\nserver = true\nclient = false\n"));
    assert_eq!(
        plan,
        vec![("sshd.service", false), ("snapdog-client.service", false), ("snapdog.service", true)]
    );
}

#[test]
fn service_state_reads_back_and_keeps_others() {
    let start = "[services]\nssh = true\n";
    let written = service_toml(start, "server", true);
    let s = service_config_from(&written);
    assert!(s.server);
    assert!(s.ssh);
    assert!(s.client);
    let again = service_toml(&written, "ssh", false);
    let t = service_config_from(&again);
    assert!(!t.ssh);
    assert!(t.server);
}

#[test]
fn set_service_refuses_unknown_names_and_bad_tables() {
    match set_service_toml("", "printer", true) {
        Err(e) => assert_eq!(e.message(), "unknown service: printer"),
        Ok(_) => panic!("printer is no service"),
    }
    assert!(matches!(set_service_toml("services = \"x\"\n", "ssh", true), Ok(None)));
    let (unit, text) = set_service_toml("", "client", false).ok().unwrap().unwrap();
    assert_eq!(unit, "snapdog-client.service");
    assert!(!service_config_from(&text).client);
}

#[test]
fn service_write_keeps_auto_update() {
    let start = "[auto-update]\nenabled = false\ntime = \"02:00\"\n";
    let written = service_toml(start, "ssh", true);
    let a = auto_update_config_from(&written);
    assert!(!a.enabled);
    assert_eq!(a.time, "02:00");
    assert_eq!(a.channel, "stable");
    assert!(service_config_from(&written).ssh);
}
