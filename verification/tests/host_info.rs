use snapdog_ctrl::client::{client_config, client_defaults_file, parse_client_args, ClientConfig};
use snapdog_ctrl::error::CtrlError;
use snapdog_ctrl::host::{
    authorized_keys, authorized_keys_content, channel_file, client_version, journal_args,
    output_lines, parse_pi_version, parse_uptime, soundcards, system_info, timezone_info,
};

#[test]
fn uptime_takes_whole_seconds_of_first_field() {
    assert_eq!(parse_uptime("12345.67 54321.00\n"), 12345);
    assert_eq!(parse_uptime("  42 7"), 42);
    assert_eq!(parse_uptime(""), 0);
    assert_eq!(parse_uptime("abc.5 1"), 0);
}

#[test]
fn pi_version_defaults_to_four() {
    assert_eq!(parse_pi_version("5\n"), 5);
    assert_eq!(parse_pi_version(" 3 "), 3);
    assert_eq!(parse_pi_version(""), 4);
    assert_eq!(parse_pi_version("300"), 4);
}

#[test]
fn client_version_is_last_word() {
    assert_eq!(client_version("snapdog-client v0.31.0\n"), "v0.31.0");
    assert_eq!(client_version(""), "");
}

#[test]
fn system_info_assembles_host_facts() {
    let info = system_info(
        "kitchen\n",
        " 1.2.3\n",
        None,
        "100.5 3.0",
        "6.6.31-v8\n",
        "snapclient v0.28.0",
        "5",
        "0.9.0",
    );
    assert_eq!(info.hostname, "kitchen");
    assert_eq!(info.version, "1.2.3");
    assert_eq!(info.channel, "stable");
    assert_eq!(info.uptime_seconds, 100);
    assert_eq!(info.pi_version, 5);
    assert_eq!(info.components.client, "v0.28.0");
    assert_eq!(info.components.server, "v0.28.0");
    assert_eq!(info.components.ctrl, "0.9.0");
    assert_eq!(info.components.kernel, "6.6.31-v8");
    let beta = system_info("", "", Some("beta\n"), "", "", "", "", "");
    assert_eq!(beta.channel, "beta");
}

#[test]
fn channel_file_accepts_only_known_channels() {
    assert_eq!(channel_file("stable").ok(), Some("stable\n".to_string()));
    assert_eq!(channel_file("beta").ok(), Some("beta\n".to_string()));
    match channel_file("nightly") {
        Err(e) => {
            assert!(matches!(e, CtrlError::InvalidChannel));
            assert_eq!(e.message(), "invalid update channel");
        }
        Ok(_) => panic!("nightly is no channel"),
    }
}

#[test]
fn authorized_keys_skip_blank_lines() {
    let keys = authorized_keys("ssh-ed25519 AAAA one\n\n   \nssh-rsa BBBB two\r\n");
    assert_eq!(keys, vec!["ssh-ed25519 AAAA one".to_string(), "ssh-rsa BBBB two".to_string()]);
    assert!(authorized_keys("").is_empty());
}

#[test]
fn authorized_keys_content_ends_each_key() {
    let keys = vec!["ssh-ed25519 AAAA one".to_string(), "ssh-rsa BBBB two".to_string()];
    assert_eq!(authorized_keys_content(&keys), "ssh-ed25519 AAAA one\nssh-rsa BBBB two\n");
    assert_eq!(authorized_keys_content(&Vec::new()), "\n");
}

#[test]
fn authorized_keys_read_back_what_was_written() {
    let keys = vec!["a key".to_string(), "b key".to_string(), "c".to_string()];
    assert_eq!(authorized_keys(&authorized_keys_content(&keys)), keys);
    let none: Vec<String> = Vec::new();
    assert_eq!(authorized_keys(&authorized_keys_content(&none)), none);
}

#[test]
fn soundcards_keep_card_lines() {
    let out = "**** List of PLAYBACK Hardware Devices ****\ncard 0: Headphones [bcm2835 Headphones], device 0\n  Subdevices: 8/8\ncard 1: vc4hdmi [vc4-hdmi], device 0\n";
    assert_eq!(
        soundcards(out),
        vec![
            "card 0: Headphones [bcm2835 Headphones], device 0".to_string(),
            "card 1: vc4hdmi [vc4-hdmi], device 0".to_string()
        ]
    );
}

#[test]
fn journal_args_per_service() {
    assert_eq!(
        journal_args(Some("client")),
        vec!["--no-pager", "-n", "200", "--output", "short-iso", "-u", "snapdog-client"]
    );
    assert_eq!(
        journal_args(Some("server")),
        vec!["--no-pager", "-n", "200", "--output", "short-iso", "-u", "snapdog"]
    );
    assert_eq!(
        journal_args(Some("controller")),
        vec!["--no-pager", "-n", "200", "--output", "short-iso", "-u", "snapdog-ctrl"]
    );
    let all = vec![
        "--no-pager", "-n", "200", "--output", "short-iso", "-u", "snapdog", "-u",
        "snapdog-client", "-u", "snapdog-ctrl",
    ];
    assert_eq!(journal_args(None), all);
    assert_eq!(journal_args(Some("other")), all);
}

#[test]
fn timezone_info_trims_and_lists() {
    let tz = timezone_info(Some("Europe/Berlin\n"), "Europe/Berlin\nUTC\n");
    assert_eq!(tz.timezone, "Europe/Berlin");
    assert_eq!(tz.available, vec!["Europe/Berlin".to_string(), "UTC".to_string()]);
    let none = timezone_info(None, "");
    assert_eq!(none.timezone, "UTC");
    assert!(none.available.is_empty());
}

#[test]
fn output_lines_splits_like_str_lines() {
    assert_eq!(output_lines("a\r\nb\n\nc"), vec!["a".to_string(), "b".to_string(), String::new(), "c".to_string()]);
}

#[test]
fn client_config_reads_defaults_file() {
    let file = "# comment\nSNAPDOG_CLIENT_ARGS=\"tcp://10.0.0.1:1704 --hostID kitchen --soundcard hw:1 --mixer hardware --latency 20\"\n";
    let c = client_config(file, true, vec!["card 0: x".to_string()]);
    assert_eq!(c.server_url, "tcp://10.0.0.1:1704");
    assert_eq!(c.host_id, "kitchen");
    assert_eq!(c.soundcard, "hw:1");
    assert_eq!(c.mixer, "hardware");
    assert_eq!(c.latency, 20);
    assert_eq!(c.mdns_name, "_snapdog._tcp");
    assert!(c.running);
    assert_eq!(c.available_soundcards, vec!["card 0: x".to_string()]);
}

#[test]
fn client_args_defaults_and_bad_latency() {
    let p = parse_client_args("");
    assert_eq!(p.server_url, "");
    assert_eq!(p.host_id, "");
    assert_eq!(p.soundcard, "default");
    assert_eq!(p.mixer, "software");
    assert_eq!(p.latency, 0);
    let q = parse_client_args("SNAPDOG_CLIENT_ARGS=\"--latency x --hostID\"");
    assert_eq!(q.latency, 0);
    assert_eq!(q.host_id, "");
}

fn sample_client(host_id: &str) -> ClientConfig {
    ClientConfig {
        server_url: "tcp://10.0.0.1:1704".to_string(),
        host_id: host_id.to_string(),
        soundcard: "hw:1".to_string(),
        mixer: "software".to_string(),
        latency: -5,
        mdns_name: String::new(),
        running: false,
        available_soundcards: Vec::new(),
    }
}

#[test]
fn client_defaults_file_writes_arguments() {
    let f = client_defaults_file(&sample_client("kitchen")).ok().unwrap();
    assert_eq!(
        f,
        "SNAPDOG_CLIENT_ARGS=\"tcp://10.0.0.1:1704 --hostID kitchen --soundcard hw:1 --latency -5\"\n"
    );
    let back = parse_client_args(&f);
    assert_eq!(back.server_url, "tcp://10.0.0.1:1704");
    assert_eq!(back.host_id, "kitchen");
    assert_eq!(back.soundcard, "hw:1");
    assert_eq!(back.mixer, "software");
    assert_eq!(back.latency, -5);
}

#[test]
fn client_defaults_file_refuses_breakout() {
    match client_defaults_file(&sample_client("living room")) {
        Err(e) => assert_eq!(e.message(), "host_id contains unsupported characters"),
        Ok(_) => panic!("a space must be refused"),
    }
}
