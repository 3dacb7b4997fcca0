use snapdog_ctrl::api::AutoUpdateConfig;
use snapdog_ctrl::update::{
    version_is_newer, bundle_url, chrono_now, detect_board, is_expected, is_schedule_reached, minutes_of_day,
    parse_time, step, update_check_response, CycleEnd, UpdateAction, UpdateCycle, UpdateEvent,
};

fn config(enabled: bool, channel: &str, time: &str) -> AutoUpdateConfig {
    AutoUpdateConfig {
        enabled,
        channel: channel.to_string(),
        interval: "daily".to_string(),
        time: time.to_string(),
    }
}

#[test]
fn bundle_urls_per_channel() {
    assert_eq!(bundle_url("pi4", "stable"), "https://update.snapdog.cc/os/bundles/pi4.raucb");
    assert_eq!(bundle_url("pi5", "beta"), "https://update.snapdog.cc/os/bundles/pi5-beta.raucb");
    assert_eq!(bundle_url("pi3", "nightly"), "https://update.snapdog.cc/os/bundles/pi3-beta.raucb");
}

#[test]
fn board_detection() {
    assert_eq!(detect_board("[system]\ncompatible=snapdog-pi5\n"), "pi5");
    assert_eq!(detect_board("compatible=snapdog-pi3"), "pi3");
    assert_eq!(detect_board(""), "pi4");
    assert_eq!(detect_board("pi3 pi5"), "pi5");
}

#[test]
fn update_check_reports_current_version() {
    let r = update_check_response(" 1.4.0\n", "beta".to_string(), "pi4");
    assert!(!r.available);
    assert_eq!(r.current_version, "1.4.0");
    assert_eq!(r.channel, "beta");
    assert_eq!(r.bundle_url, "https://update.snapdog.cc/os/bundles/pi4-beta.raucb");
    let u = update_check_response("\n", "stable".to_string(), "pi4");
    assert_eq!(u.current_version, "unknown");
}

#[test]
fn time_parsing_defaults() {
    assert_eq!(parse_time("03:15"), (3, 15));
    assert_eq!(parse_time("xx:15"), (4, 15));
    assert_eq!(parse_time("05"), (5, 0));
    assert_eq!(parse_time("05:yy"), (5, 0));
}

#[test]
fn clock_arithmetic() {
    assert_eq!(minutes_of_day(0), 0);
    assert_eq!(minutes_of_day(86400 + 3 * 3600 + 15 * 60 + 59), 195);
    assert!(is_schedule_reached(195, 3, 15));
    assert!(!is_schedule_reached(196, 3, 15));
    assert!(chrono_now() < 1440);
}

fn expect_step(s: UpdateCycle, e: UpdateEvent) -> (UpdateCycle, UpdateAction) {
    assert!(is_expected(&s, &e));
    step(s, e)
}

#[test]
fn full_cycle_installs_and_reboots() {
    let (s, a) = expect_step(UpdateCycle::Idle, UpdateEvent::Begin);
    assert!(matches!(a, UpdateAction::ReadConfig));
    let (s, a) = expect_step(s, UpdateEvent::Config(config(true, "beta", "03:15")));
    assert!(matches!(s, UpdateCycle::AwaitClock { hour: 3, minute: 15 }));
    assert!(matches!(a, UpdateAction::ReadClock));
    let (s, a) = expect_step(s, UpdateEvent::Clock(100));
    assert!(matches!(a, UpdateAction::SleepThenReadClock(30)));
    let (s, a) = expect_step(s, UpdateEvent::Clock(195));
    assert!(matches!(a, UpdateAction::ReadConfig));
    let (s, a) = expect_step(s, UpdateEvent::Config(config(true, "beta", "03:15")));
    assert!(matches!(a, UpdateAction::QueryOperation));
    let (s, a) = expect_step(s, UpdateEvent::Operation("idle".to_string()));
    assert!(matches!(a, UpdateAction::DetectBoard));
    let (s, a) = expect_step(s, UpdateEvent::Board("pi4".to_string()));
    match a {
        UpdateAction::ReadVersions(url) => {
            assert_eq!(url, "https://update.snapdog.cc/os/bundles/pi4-beta.raucb")
        }
        _ => panic!("expected a version check"),
    }
    let (s, a) = expect_step(
        s,
        UpdateEvent::Versions { installed: "0.1.0\n".to_string(), available: Some("0.2.0".to_string()) },
    );
    match a {
        UpdateAction::Install(url) => {
            assert_eq!(url, "https://update.snapdog.cc/os/bundles/pi4-beta.raucb")
        }
        _ => panic!("expected an install"),
    }
    let (s, a) = expect_step(s, UpdateEvent::Installed(Ok(())));
    assert!(matches!(a, UpdateAction::SleepThenQueryOperation(5)));
    let (s, a) = expect_step(s, UpdateEvent::Operation("installing".to_string()));
    assert!(matches!(a, UpdateAction::SleepThenQueryOperation(5)));
    let (s, a) = expect_step(s, UpdateEvent::Operation("idle".to_string()));
    assert!(matches!(a, UpdateAction::Reboot));
    let (s, a) = expect_step(s, UpdateEvent::Rebooted);
    assert!(matches!(s, UpdateCycle::Idle));
    assert!(matches!(a, UpdateAction::EndCycle(CycleEnd::Rebooted)));
}

#[test]
fn disabled_or_busy_cycles_end_early() {
    let (s, _) = expect_step(UpdateCycle::Idle, UpdateEvent::Begin);
    let (s, a) = expect_step(s, UpdateEvent::Config(config(false, "stable", "04:00")));
    assert!(matches!(s, UpdateCycle::Idle));
    assert!(matches!(a, UpdateAction::EndCycle(CycleEnd::Disabled)));

    let (s, a) = expect_step(UpdateCycle::AwaitRaucIdle { stable: true }, UpdateEvent::Operation(String::new()));
    assert!(matches!(s, UpdateCycle::Idle));
    assert!(matches!(a, UpdateAction::EndCycle(CycleEnd::Busy)));

    let (s, a) = expect_step(UpdateCycle::AwaitConfigAgain, UpdateEvent::Config(config(false, "stable", "04:00")));
    assert!(matches!(s, UpdateCycle::Idle));
    assert!(matches!(a, UpdateAction::EndCycle(CycleEnd::Disabled)));

    let (s, a) = expect_step(UpdateCycle::AwaitInstall, UpdateEvent::Installed(Err("no space".to_string())));
    assert!(matches!(s, UpdateCycle::Idle));
    match a {
        UpdateAction::EndCycle(CycleEnd::InstallFailed(m)) => assert_eq!(m, "no space"),
        _ => panic!("expected a failure"),
    }
}

#[test]
fn unexpected_events_are_recognised() {
    assert!(!is_expected(&UpdateCycle::Idle, &UpdateEvent::Rebooted));
    assert!(!is_expected(&UpdateCycle::AwaitBoard { stable: true }, &UpdateEvent::Clock(3)));
}

#[test]
fn no_install_without_newer_bundle() {
    let versions = |installed: &str, available: Option<&str>| UpdateEvent::Versions {
        installed: installed.to_string(),
        available: available.map(|v| v.to_string()),
    };
    for (installed, available) in [("0.2.0", Some("0.2.0")), ("0.3.0\n", Some("0.2.9")), ("0.2.0", None)] {
        let s = UpdateCycle::AwaitVersions { board: "pi4".to_string(), stable: true };
        let (s, a) = expect_step(s, versions(installed, available));
        assert!(matches!(s, UpdateCycle::Idle));
        assert!(matches!(a, UpdateAction::EndCycle(CycleEnd::UpToDate)));
    }
    let s = UpdateCycle::AwaitVersions { board: "pi5".to_string(), stable: true };
    let (_, a) = expect_step(s, versions("0.2.0", Some("0.10.0")));
    match a {
        UpdateAction::Install(url) => assert_eq!(url, "https://update.snapdog.cc/os/bundles/pi5.raucb"),
        _ => panic!("expected an install"),
    }
}

#[test]
fn version_ordering() {
    assert!(version_is_newer("0.10.0", "0.9.3"));
    assert!(!version_is_newer("0.9.3", "0.10.0"));
    assert!(!version_is_newer("1.2.0", "1.2.0"));
    assert!(version_is_newer("1.2.1", "1.2"));
    assert!(!version_is_newer("1.2", "1.2.0.1"));
    assert!(version_is_newer("1.2.0-beta.4", "1.2.0-beta.3"));
    assert!(!version_is_newer("1.2.0-beta.4", "1.2.0-beta.5"));
    assert!(version_is_newer("1.2.0-beta.10", "1.2.0-beta.9"));
    assert!(version_is_newer("1.2.0", "1.2.0-beta.5"));
    assert!(!version_is_newer("1.2.0-beta.9", "1.2.0"));
    assert!(!version_is_newer("1.2.0-beta.4+g1f2e", "1.2.0-beta.4+g0a1b"));
    assert!(!version_is_newer("1.1.9-beta.9", "1.2.0"));
    assert!(version_is_newer("0.1.0", ""));
    assert!(!version_is_newer("", ""));
}
