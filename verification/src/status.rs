//! The state of the network interfaces and the audio setup, put together
//! from what `ip`, `resolvectl`, `wpa_cli` and the host's files report.
use vstd::prelude::*;
use crate::text;
use crate::system;
use crate::network::{ScannedNetwork, StaticConfig};
use crate::api::{
    AudioInfo, DacOverlay, EthernetConfig, EthernetInfo, WifiConfig, WifiInfo, WifiNetwork,
    WifiScanResult,
};

verus! {

fn text_string(s: &str) -> (r: String)
    ensures
        r@ == s@,
{
    text::string_of(&text::chars_of(s))
}

fn copy_string(s: &String) -> (r: String)
    ensures
        r@ == s@,
{
    text::string_of(&text::chars_of(s.as_str()))
}

/// Whether an interface's `operstate` file says it is up.
pub fn operstate_is_up(state: &str) -> (r: bool)
    ensures
        r == (text::trim(state@) == "up"@),
{
    text::is_text(&text::trim_str(state), "up")
}

/// The Ethernet interface the device uses: the first of `eth0` and `end0`
/// that exists, `eth0` when neither does.
pub fn ethernet_interface(eth0_exists: bool, end0_exists: bool) -> (r: &'static str)
    ensures
        r@ == (if !eth0_exists && end0_exists {
            "end0"@
        } else {
            "eth0"@
        }),
{
    if eth0_exists {
        "eth0"
    } else if end0_exists {
        "end0"
    } else {
        "eth0"
    }
}

/// Whether the setup access point is to start: only when no network is
/// available, that is no WiFi is configured and the Ethernet link is down.
pub fn should_start_ap(wifi_configured: bool, ethernet_up: bool) -> (r: bool)
    ensures
        r == (!wifi_configured && !ethernet_up),
{
    !wifi_configured && !ethernet_up
}

/// What an interface reports: whether it is connected, its address,
/// netmask and gateway, and its DNS servers.
pub struct InterfaceStatus {
    pub connected: bool,
    pub ip: String,
    pub subnet: String,
    pub gateway: String,
    pub dns: String,
}

/// The output of a command as text, `None` when it failed.
pub open spec fn output_view(o: Option<&str>) -> Option<Seq<char>> {
    match o {
        Some(s) => Some(s@),
        None => None,
    }
}

/// Address and netmask from `ip -o -4 addr show dev IFACE`; empty when the
/// command failed or lists none.
pub open spec fn address_of(addr_output: Option<Seq<char>>) -> (Seq<char>, Seq<char>) {
    match addr_output {
        Some(o) => match system::ipv4_in_lines(text::lines(o)) {
            Some(p) => p,
            None => (seq![], seq![]),
        },
        None => (seq![], seq![]),
    }
}

/// The gateway from `ip -4 route show default dev IFACE`; empty when the
/// command failed or names none.
pub open spec fn gateway_of(route_output: Option<Seq<char>>) -> Seq<char> {
    match route_output {
        Some(o) => match system::gateway_in_lines(text::lines(o)) {
            Some(g) => g,
            None => seq![],
        },
        None => seq![],
    }
}

/// The DNS servers of an interface: those `resolvectl dns IFACE` lists when
/// it ran and lists some, else the `nameserver` lines of `/etc/resolv.conf`.
pub open spec fn dns_of(resolvectl_output: Option<Seq<char>>, resolv_conf: Seq<char>) -> Seq<char> {
    let fallback = text::join(system::nameservers(text::lines(resolv_conf)), seq![' ']);
    match resolvectl_output {
        Some(o) => match system::resolvectl_in_lines(text::lines(o)) {
            Some(s) => s,
            None => fallback,
        },
        None => fallback,
    }
}

/// The DNS servers of an interface.
pub fn dns_servers(resolvectl_output: Option<&str>, resolv_conf: &str) -> (r: String)
    ensures
        r@ == dns_of(output_view(resolvectl_output), resolv_conf@),
{
    match resolvectl_output {
        Some(o) => match system::parse_resolvectl_dns(o) {
            Some(s) => s,
            None => system::parse_resolv_conf_dns(resolv_conf),
        },
        None => system::parse_resolv_conf_dns(resolv_conf),
    }
}

/// The status of an interface: connected when it is up or has an address.
pub fn interface_status(up: bool, addr_output: Option<&str>, route_output: Option<&str>, dns: String) -> (r: InterfaceStatus)
    ensures
        r.ip@ == address_of(output_view(addr_output)).0,
        r.subnet@ == address_of(output_view(addr_output)).1,
        r.gateway@ == gateway_of(output_view(route_output)),
        r.dns@ == dns@,
        r.connected == (up || r.ip@.len() > 0),
{
    let (ip, subnet) = match addr_output {
        Some(o) => match system::parse_ipv4_address(o) {
            Some(p) => p,
            None => (String::new(), String::new()),
        },
        None => (String::new(), String::new()),
    };
    let gateway = match route_output {
        Some(o) => match system::parse_default_gateway(o) {
            Some(g) => g,
            None => String::new(),
        },
        None => String::new(),
    };
    let connected = up || !ip.as_str().is_empty();
    InterfaceStatus { connected, ip, subnet, gateway, dns }
}

/// The addressing mode of a networkd file, `dhcp` when it configures none.
pub open spec fn mode_or_dhcp(content: Seq<char>) -> Seq<char> {
    match system::network_mode(content) {
        Some(m) => m,
        None => "dhcp"@,
    }
}

/// The addressing mode of a networkd file, `dhcp` when it configures none.
pub fn network_mode_or_dhcp(content: &str) -> (r: String)
    ensures
        r@ == mode_or_dhcp(content@),
{
    match system::parse_network_mode(content) {
        Some(m) => m,
        None => text_string("dhcp"),
    }
}

/// The Ethernet state shown in the web UI.
pub fn ethernet_info(status: InterfaceStatus, network_file: &str) -> (r: EthernetInfo)
    ensures
        r.connected == status.connected,
        r.mode@ == mode_or_dhcp(network_file@),
        r.ip@ == status.ip@,
        r.subnet@ == status.subnet@,
        r.gateway@ == status.gateway@,
        r.dns@ == status.dns@,
{
    EthernetInfo {
        connected: status.connected,
        mode: network_mode_or_dhcp(network_file),
        ip: status.ip,
        subnet: status.subnet,
        gateway: status.gateway,
        dns: status.dns,
    }
}

/// The WiFi state shown in the web UI, from the interface status, the output
/// of `wpa_cli status` and `wpa_cli signal_poll` (`None` when they failed)
/// and the networkd file. Connected when wpa_supplicant completed the
/// association or the interface is connected; the address is the
/// interface's, or wpa_supplicant's when the interface has none; the signal
/// is 0 when unknown.
pub fn wifi_info(
    status: InterfaceStatus,
    wpa_output: Option<&str>,
    signal_output: Option<&str>,
    network_file: &str,
) -> (r: WifiInfo)
    ensures
        ({
            let wpa = match output_view(wpa_output) {
                Some(o) => text::lines(o),
                None => seq![],
            };
            &&& r.connected == (system::last_value(wpa, "wpa_state"@) == "COMPLETED"@
                || status.connected)
            &&& r.ssid@ == system::last_value(wpa, "ssid"@)
            &&& r.ip@ == if status.ip@.len() > 0 {
                status.ip@
            } else {
                system::last_value(wpa, "ip_address"@)
            }
        }),
        r.subnet@ == status.subnet@,
        r.gateway@ == status.gateway@,
        r.dns@ == status.dns@,
        r.signal == match output_view(signal_output) {
            Some(o) => match system::signal_in_lines(text::lines(o)) {
                Some(x) => x,
                None => 0,
            },
            None => 0,
        },
        r.mode@ == mode_or_dhcp(network_file@),
{
    let wpa = match wpa_output {
        Some(o) => system::parse_wpa_status(o),
        None => {
            proof {
                assert(text::lines(Seq::<char>::empty()) =~= Seq::<Seq<char>>::empty());
            }
            system::parse_wpa_status("")
        },
    };
    proof {
        reveal_strlit("");
    }
    let signal: i32 = match signal_output {
        Some(o) => match system::parse_wifi_signal(o) {
            Some(x) => x,
            None => 0,
        },
        None => 0,
    };
    let completed = text::is_text(&text::chars_of(wpa.state.as_str()), "COMPLETED");
    let connected = completed || status.connected;
    let ip = if !status.ip.as_str().is_empty() {
        status.ip
    } else {
        wpa.ip
    };
    WifiInfo {
        connected,
        ssid: wpa.ssid,
        ip,
        subnet: status.subnet,
        gateway: status.gateway,
        dns: status.dns,
        signal,
        mode: network_mode_or_dhcp(network_file),
    }
}

/// A static configuration from optional fields: the netmask defaults to
/// `255.255.255.0`, the others to empty.
pub open spec fn static_matches(
    r: StaticConfig,
    ip: Option<Seq<char>>,
    subnet: Option<Seq<char>>,
    gateway: Option<Seq<char>>,
    dns: Option<Seq<char>>,
) -> bool {
    &&& r.ip@ == match ip {
        Some(s) => s,
        None => seq![],
    }
    &&& r.subnet@ == match subnet {
        Some(s) => s,
        None => "255.255.255.0"@,
    }
    &&& r.gateway@ == match gateway {
        Some(s) => s,
        None => seq![],
    }
    &&& r.dns@ == match dns {
        Some(s) => s,
        None => seq![],
    }
}

/// The view of an optional text.
pub open spec fn opt_view(o: Option<String>) -> Option<Seq<char>> {
    match o {
        Some(s) => Some(s@),
        None => None,
    }
}

fn copy_opt(o: &Option<String>) -> (r: Option<String>)
    ensures
        opt_view(r) == opt_view(*o),
{
    match o {
        Some(s) => Some(copy_string(s)),
        None => None,
    }
}

fn static_config(
    ip: Option<String>,
    subnet: Option<String>,
    gateway: Option<String>,
    dns: Option<String>,
) -> (r: StaticConfig)
    ensures
        static_matches(r, opt_view(ip), opt_view(subnet), opt_view(gateway), opt_view(dns)),
{
    StaticConfig {
        ip: match ip {
            Some(s) => s,
            None => String::new(),
        },
        subnet: match subnet {
            Some(s) => s,
            None => text_string("255.255.255.0"),
        },
        gateway: match gateway {
            Some(s) => s,
            None => String::new(),
        },
        dns: match dns {
            Some(s) => s,
            None => String::new(),
        },
    }
}

/// The static configuration an Ethernet request asks for: one when its mode
/// is `static`, none (DHCP) otherwise.
pub fn ethernet_static_config(config: EthernetConfig) -> (r: Option<StaticConfig>)
    ensures
        config.mode@ == "static"@ ==> (r matches Some(s) && static_matches(
            s,
            opt_view(config.ip),
            opt_view(config.subnet),
            opt_view(config.gateway),
            opt_view(config.dns),
        )),
        config.mode@ != "static"@ ==> r is None,
{
    let ghost c = config;
    let is_static = text::is_text(&text::chars_of(config.mode.as_str()), "static");
    if is_static {
        Some(static_config(config.ip, config.subnet, config.gateway, config.dns))
    } else {
        None
    }
}

/// The static configuration a WiFi request asks for: one when its mode is
/// `static`, none (DHCP) when it is anything else or absent.
pub fn wifi_static_config(config: &WifiConfig) -> (r: Option<StaticConfig>)
    ensures
        opt_view(config.mode) == Some("static"@) ==> (r matches Some(s) && static_matches(
            s,
            opt_view(config.ip),
            opt_view(config.subnet),
            opt_view(config.gateway),
            opt_view(config.dns),
        )),
        opt_view(config.mode) != Some("static"@) ==> r is None,
{
    let is_static = match &config.mode {
        Some(m) => text::is_text(&text::chars_of(m.as_str()), "static"),
        None => false,
    };
    if is_static {
        Some(
            static_config(
                copy_opt(&config.ip),
                copy_opt(&config.subnet),
                copy_opt(&config.gateway),
                copy_opt(&config.dns),
            ),
        )
    } else {
        None
    }
}

/// The scan result shown in the web UI: each scanned network with its name,
/// signal and security, in order.
pub fn wifi_scan_result(networks: Vec<ScannedNetwork>) -> (r: WifiScanResult)
    ensures
        r.networks@.len() == networks@.len(),
        forall|i: int|
            0 <= i < networks@.len() ==> {
                &&& (#[trigger] r.networks@[i]).ssid@ == networks@[i].ssid@
                &&& r.networks@[i].signal == networks@[i].signal
                &&& r.networks@[i].security@ == networks@[i].security@
            },
{
    let mut out: Vec<WifiNetwork> = Vec::new();
    let mut i: usize = 0;
    while i < networks.len()
        invariant
            i <= networks@.len(),
            out@.len() == i,
            forall|k: int|
                0 <= k < i ==> {
                    &&& (#[trigger] out@[k]).ssid@ == networks@[k].ssid@
                    &&& out@[k].signal == networks@[k].signal
                    &&& out@[k].security@ == networks@[k].security@
                },
        decreases networks@.len() - i,
    {
        let n = &networks[i];
        out.push(
            WifiNetwork {
                ssid: copy_string(&n.ssid),
                signal: n.signal,
                security: copy_string(&n.security),
            },
        );
        i = i + 1;
    }
    WifiScanResult { networks: out }
}

/// The device tree overlays offered for DAC HATs, by id and name; the empty
/// id lets the HAT EEPROM choose.
pub open spec fn overlay_list() -> Seq<(Seq<char>, Seq<char>)> {
    seq![
        ("allo-boss-dac-pcm512x-audio"@, "Allo Boss DAC"@),
        ("iqaudio-dacplus"@, "IQAudio DAC+"@),
        ("justboom-dac"@, "JustBoom DAC"@),
        ("max98357a"@, "MAX98357A (Adafruit, Google AIY)"@),
        ("googlevoicehat-soundcard"@, "Google AIY Voice HAT"@),
        (""@, "Auto-detect (HAT EEPROM)"@),
    ]
}

fn overlay(id: &str, name: &str) -> (r: DacOverlay)
    ensures
        r.id@ == id@,
        r.name@ == name@,
{
    DacOverlay { id: text_string(id), name: text_string(name) }
}

/// The DAC overlays offered in the web UI.
pub fn available_overlays() -> (r: Vec<DacOverlay>)
    ensures
        r@.len() == overlay_list().len(),
        forall|i: int|
            0 <= i < r@.len() ==> (#[trigger] r@[i]).id@ == overlay_list()[i].0 && r@[i].name@
                == overlay_list()[i].1,
{
    let mut v: Vec<DacOverlay> = Vec::new();
    v.push(overlay("allo-boss-dac-pcm512x-audio", "Allo Boss DAC"));
    v.push(overlay("iqaudio-dacplus", "IQAudio DAC+"));
    v.push(overlay("justboom-dac", "JustBoom DAC"));
    v.push(overlay("max98357a", "MAX98357A (Adafruit, Google AIY)"));
    v.push(overlay("googlevoicehat-soundcard", "Google AIY Voice HAT"));
    v.push(overlay("", "Auto-detect (HAT EEPROM)"));
    v
}

/// The audio setup shown in the web UI: the overlay configured in
/// `config.txt`, the sound card named in `/proc/asound/card0/id` (trimmed),
/// the ALSA device `hw:0` and the overlays on offer. No HAT is detected
/// here, so `detected_hat` is empty.
pub fn audio_info(overlay: String, card_id_file: &str) -> (r: AudioInfo)
    ensures
        r.overlay@ == overlay@,
        r.detected_card@ == text::trim(card_id_file@),
        r.detected_hat@ == Seq::<char>::empty(),
        r.soundcard@ == "hw:0"@,
        r.available_overlays@.len() == overlay_list().len(),
        forall|i: int|
            0 <= i < r.available_overlays@.len() ==> (#[trigger] r.available_overlays@[i]).id@
                == overlay_list()[i].0 && r.available_overlays@[i].name@ == overlay_list()[i].1,
{
    AudioInfo {
        overlay,
        detected_card: text::string_of(&text::trim_str(card_id_file)),
        detected_hat: String::new(),
        soundcard: text_string("hw:0"),
        available_overlays: available_overlays(),
    }
}

} // verus!
