//! An in-memory stand-in for the device, for developing the web UI on a
//! workstation: it remembers what was set and reports fixed values for the
//! rest.
use vstd::prelude::*;
use crate::text;
use crate::api::{
    AudioInfo, ComponentVersions, DacOverlay, EthernetConfig, EthernetInfo, NetworkOverview,
    SshConfig, SystemInfo, WifiInfo, WifiNetwork, WifiScanResult,
};
use crate::client::{ClientArgsModel, ClientConfig};

verus! {

fn text_string(s: &str) -> (r: String)
    ensures
        r@ == s@,
{
    text::string_of(&text::chars_of(s))
}

fn copy_string(s: &String) -> (r: String)
    ensures
        r@ == s@,
{
    text::string_of(&text::chars_of(s.as_str()))
}

fn copy_strings(v: &Vec<String>) -> (r: Vec<String>)
    ensures
        r.deep_view() == v.deep_view(),
{
    let mut r: Vec<String> = Vec::new();
    let mut i: usize = 0;
    while i < v.len()
        invariant
            i <= v.len(),
            r.deep_view() == v.deep_view().take(i as int),
        decreases v.len() - i,
    {
        let ghost before = r.deep_view();
        r.push(copy_string(&v[i]));
        proof {
            assert(r.deep_view() =~= before.push(v@[i as int]@));
            assert(v.deep_view().take(i + 1) =~= v.deep_view().take(i as int).push(v@[i as int]@));
        }
        i = i + 1;
    }
    assert(v.deep_view().take(i as int) =~= v.deep_view());
    r
}

fn or_empty(o: Option<String>) -> (r: String)
    ensures
        r@ == match o {
            Some(s) => s@,
            None => Seq::<char>::empty(),
        },
{
    match o {
        Some(s) => s,
        None => String::new(),
    }
}

/// The Ethernet state as values.
pub ghost struct EthernetModel {
    pub connected: bool,
    pub mode: Seq<char>,
    pub ip: Seq<char>,
    pub subnet: Seq<char>,
    pub gateway: Seq<char>,
    pub dns: Seq<char>,
}

/// The client settings shown in the web UI, as values.
pub ghost struct ClientModel {
    pub args: ClientArgsModel,
    pub mdns_name: Seq<char>,
    pub running: bool,
    pub soundcards: Seq<Seq<char>>,
}

/// The SSH settings as values.
pub ghost struct SshModel {
    pub enabled: bool,
    pub pubkeys: Seq<Seq<char>>,
}

/// What the stand-in remembers, as values.
pub ghost struct MockModel {
    pub hostname: Seq<char>,
    pub channel: Seq<char>,
    pub ethernet: EthernetModel,
    pub wifi_ssid: Seq<char>,
    pub wifi_connected: bool,
    pub overlay: Seq<char>,
    pub client: ClientModel,
    pub ssh: SshModel,
}

pub open spec fn ethernet_model(e: EthernetInfo) -> EthernetModel {
    EthernetModel {
        connected: e.connected,
        mode: e.mode@,
        ip: e.ip@,
        subnet: e.subnet@,
        gateway: e.gateway@,
        dns: e.dns@,
    }
}

pub open spec fn client_model(c: ClientConfig) -> ClientModel {
    ClientModel {
        args: c.model(),
        mdns_name: c.mdns_name@,
        running: c.running,
        soundcards: c.available_soundcards.deep_view(),
    }
}

pub open spec fn ssh_model(s: SshConfig) -> SshModel {
    SshModel { enabled: s.enabled, pubkeys: s.pubkeys.deep_view() }
}

/// The one sound card the stand-in offers.
pub open spec fn mock_card() -> Seq<char> {
    "card 0: sndrpihifiberry [snd_rpi_hifiberry_dacplus]"@
}

/// The state the stand-in starts in.
pub open spec fn initial_model() -> MockModel {
    MockModel {
        hostname: "snapdog-dev"@,
        channel: "stable"@,
        ethernet: EthernetModel {
            connected: true,
            mode: "dhcp"@,
            ip: "192.168.1.42"@,
            subnet: "255.255.255.0"@,
            gateway: "192.168.1.1"@,
            dns: "1.1.1.1"@,
        },
        wifi_ssid: "DevNetwork"@,
        wifi_connected: true,
        overlay: "hifiberry-dacplus"@,
        client: ClientModel {
            args: ClientArgsModel {
                server_url: "tcp://192.168.1.10:1704"@,
                host_id: "kitchen"@,
                soundcard: "hw:0"@,
                mixer: "software"@,
                latency: 0,
            },
            mdns_name: "_snapdog._tcp"@,
            running: true,
            soundcards: seq![mock_card()],
        },
        ssh: SshModel { enabled: false, pubkeys: seq![] },
    }
}

/// The state after a system update: each field that is given replaces the
/// remembered one.
pub open spec fn with_system(m: MockModel, hostname: Option<Seq<char>>, channel: Option<Seq<char>>) -> MockModel {
    MockModel {
        hostname: match hostname {
            Some(h) => h,
            None => m.hostname,
        },
        channel: match channel {
            Some(c) => c,
            None => m.channel,
        },
        ..m
    }
}

/// The value of an optional text, empty when absent.
pub open spec fn or_empty_view(o: Option<String>) -> Seq<char> {
    match o {
        Some(s) => s@,
        None => seq![],
    }
}

/// The state after an Ethernet request: its mode and fields are taken as
/// they come (absent ones empty); the link state stays.
pub open spec fn with_ethernet(m: MockModel, c: EthernetConfig) -> MockModel {
    MockModel {
        ethernet: EthernetModel {
            connected: m.ethernet.connected,
            mode: c.mode@,
            ip: or_empty_view(c.ip),
            subnet: or_empty_view(c.subnet),
            gateway: or_empty_view(c.gateway),
            dns: or_empty_view(c.dns),
        },
        ..m
    }
}

/// The state after joining a WiFi network.
pub open spec fn with_wifi(m: MockModel, ssid: Seq<char>) -> MockModel {
    MockModel { wifi_ssid: ssid, wifi_connected: true, ..m }
}

/// The state after leaving the WiFi network.
pub open spec fn without_wifi(m: MockModel) -> MockModel {
    MockModel { wifi_ssid: seq![], wifi_connected: false, ..m }
}

/// The state after choosing a DAC overlay.
pub open spec fn with_overlay(m: MockModel, overlay: Seq<char>) -> MockModel {
    MockModel { overlay, ..m }
}

/// The state after a client update: the settings are taken, while the mDNS
/// name, the running flag and the sound cards are the stand-in's own.
pub open spec fn with_client(m: MockModel, args: ClientArgsModel) -> MockModel {
    MockModel {
        client: ClientModel {
            args,
            mdns_name: "_snapdog._tcp"@,
            running: true,
            soundcards: seq![mock_card()],
        },
        ..m
    }
}

/// The state after an SSH update.
pub open spec fn with_ssh(m: MockModel, ssh: SshModel) -> MockModel {
    MockModel { ssh, ..m }
}

/// The WiFi state the stand-in reports: the remembered network and link
/// state, with fixed addressing and signal.
pub open spec fn wifi_report(r: WifiInfo, m: MockModel) -> bool {
    &&& r.connected == m.wifi_connected
    &&& r.ssid@ == m.wifi_ssid
    &&& r.ip@ == "192.168.1.43"@
    &&& r.subnet@ == "255.255.255.0"@
    &&& r.gateway@ == "192.168.1.1"@
    &&& r.dns@ == "1.1.1.1"@
    &&& r.signal == -52
    &&& r.mode@ == "dhcp"@
}

/// The in-memory device.
pub struct MockState {
    pub hostname: String,
    pub channel: String,
    pub ethernet: EthernetInfo,
    pub wifi_ssid: String,
    pub wifi_connected: bool,
    pub overlay: String,
    pub client: ClientConfig,
    pub ssh: SshConfig,
}

fn copy_ethernet(e: &EthernetInfo) -> (r: EthernetInfo)
    ensures
        ethernet_model(r) == ethernet_model(*e),
{
    EthernetInfo {
        connected: e.connected,
        mode: copy_string(&e.mode),
        ip: copy_string(&e.ip),
        subnet: copy_string(&e.subnet),
        gateway: copy_string(&e.gateway),
        dns: copy_string(&e.dns),
    }
}

fn copy_client(c: &ClientConfig) -> (r: ClientConfig)
    ensures
        client_model(r) == client_model(*c),
{
    ClientConfig {
        server_url: copy_string(&c.server_url),
        host_id: copy_string(&c.host_id),
        soundcard: copy_string(&c.soundcard),
        mixer: copy_string(&c.mixer),
        latency: c.latency,
        mdns_name: copy_string(&c.mdns_name),
        running: c.running,
        available_soundcards: copy_strings(&c.available_soundcards),
    }
}

fn mock_cards() -> (r: Vec<String>)
    ensures
        r.deep_view() == seq![mock_card()],
{
    let mut v: Vec<String> = Vec::new();
    v.push(text_string("card 0: sndrpihifiberry [snd_rpi_hifiberry_dacplus]"));
    assert(v.deep_view() =~= seq![mock_card()]);
    v
}

fn overlay(id: &str, name: &str) -> (r: DacOverlay)
    ensures
        r.id@ == id@,
        r.name@ == name@,
{
    DacOverlay { id: text_string(id), name: text_string(name) }
}

fn network(ssid: &str, signal: i32, security: &str) -> (r: WifiNetwork)
    ensures
        r.ssid@ == ssid@,
        r.signal == signal,
        r.security@ == security@,
{
    WifiNetwork { ssid: text_string(ssid), signal, security: text_string(security) }
}

/// The DAC overlays the stand-in offers, by id and name.
pub open spec fn mock_overlays() -> Seq<(Seq<char>, Seq<char>)> {
    seq![
        ("hifiberry-dacplus"@, "HiFiBerry DAC+/DAC2 Pro"@),
        ("hifiberry-amp3"@, "HiFiBerry Amp3"@),
        ("allo-boss-dac-pcm512x-audio"@, "Allo Boss DAC"@),
        ("iqaudio-dacplus"@, "IQAudio DAC+"@),
        ("justboom-dac"@, "JustBoom DAC"@),
        ("max98357a"@, "MAX98357A (Adafruit, Google AIY)"@),
        (""@, "Auto-detect (HAT EEPROM)"@),
    ]
}

/// The networks a scan of the stand-in finds, by name, signal and security.
pub open spec fn mock_networks() -> Seq<(Seq<char>, int, Seq<char>)> {
    seq![
        ("DevNetwork"@, -45, "wpa2"@),
        ("Neighbor-5G"@, -72, "wpa2"@),
        ("IoT-Guest"@, -80, "open"@),
    ]
}

impl MockState {
    /// What the stand-in remembers, as values.
    pub open spec fn model(&self) -> MockModel {
        MockModel {
            hostname: self.hostname@,
            channel: self.channel@,
            ethernet: ethernet_model(self.ethernet),
            wifi_ssid: self.wifi_ssid@,
            wifi_connected: self.wifi_connected,
            overlay: self.overlay@,
            client: client_model(self.client),
            ssh: ssh_model(self.ssh),
        }
    }

    /// The stand-in in its initial state.
    pub fn new() -> (r: Self)
        ensures
            r.model() == initial_model(),
    {
        let r = MockState {
            hostname: text_string("snapdog-dev"),
            channel: text_string("stable"),
            ethernet: EthernetInfo {
                connected: true,
                mode: text_string("dhcp"),
                ip: text_string("192.168.1.42"),
                subnet: text_string("255.255.255.0"),
                gateway: text_string("192.168.1.1"),
                dns: text_string("1.1.1.1"),
            },
            wifi_ssid: text_string("DevNetwork"),
            wifi_connected: true,
            overlay: text_string("hifiberry-dacplus"),
            client: ClientConfig {
                server_url: text_string("tcp://192.168.1.10:1704"),
                host_id: text_string("kitchen"),
                soundcard: text_string("hw:0"),
                mixer: text_string("software"),
                latency: 0,
                mdns_name: text_string("_snapdog._tcp"),
                running: true,
                available_soundcards: mock_cards(),
            },
            ssh: SshConfig { enabled: false, pubkeys: Vec::new() },
        };
        assert(r.ssh.pubkeys.deep_view() =~= Seq::<Seq<char>>::empty());
        assert(r.model() =~= initial_model());
        r
    }

    /// The system overview: the remembered host name and channel, with a
    /// fixed version, uptime of one day and Pi generation 4. The stand-in
    /// reports no component versions (they are empty).
    pub fn get_system_info(&self) -> (r: SystemInfo)
        ensures
            r.hostname@ == self.hostname@,
            r.version@ == "0.1.0"@,
            r.channel@ == self.channel@,
            r.uptime_seconds == 86400,
            r.pi_version == 4,
            r.components.server@.len() == 0 && r.components.client@.len() == 0
                && r.components.ctrl@.len() == 0 && r.components.kernel@.len() == 0,
    {
        SystemInfo {
            hostname: copy_string(&self.hostname),
            version: text_string("0.1.0"),
            channel: copy_string(&self.channel),
            uptime_seconds: 86400,
            pi_version: 4,
            components: ComponentVersions {
                server: String::new(),
                client: String::new(),
                ctrl: String::new(),
                kernel: String::new(),
            },
        }
    }

    /// Remembers a new host name and channel, each when given.
    pub fn set_system(&mut self, hostname: Option<String>, channel: Option<String>)
        ensures
            final(self).model() == with_system(
                old(self).model(),
                match hostname {
                    Some(h) => Some(h@),
                    None => None,
                },
                match channel {
                    Some(c) => Some(c@),
                    None => None,
                },
            ),
    {
        if let Some(h) = hostname {
            self.hostname = h;
        }
        if let Some(c) = channel {
            self.channel = c;
        }
    }

    /// The remembered Ethernet state.
    pub fn get_ethernet(&self) -> (r: EthernetInfo)
        ensures
            ethernet_model(r) == self.model().ethernet,
    {
        copy_ethernet(&self.ethernet)
    }

    /// Remembers an Ethernet request.
    pub fn set_ethernet(&mut self, config: EthernetConfig)
        ensures
            final(self).model() == with_ethernet(old(self).model(), config),
    {
        let ghost c = config;
        self.ethernet.mode = config.mode;
        self.ethernet.ip = or_empty(config.ip);
        self.ethernet.gateway = or_empty(config.gateway);
        self.ethernet.subnet = or_empty(config.subnet);
        self.ethernet.dns = or_empty(config.dns);
        assert(self.model() =~= with_ethernet(old(self).model(), c));
    }

    /// The WiFi state.
    pub fn get_wifi(&self) -> (r: WifiInfo)
        ensures
            wifi_report(r, self.model()),
    {
        WifiInfo {
            connected: self.wifi_connected,
            ssid: copy_string(&self.wifi_ssid),
            ip: text_string("192.168.1.43"),
            subnet: text_string("255.255.255.0"),
            gateway: text_string("192.168.1.1"),
            dns: text_string("1.1.1.1"),
            signal: -52,
            mode: text_string("dhcp"),
        }
    }

    /// Both interfaces' state.
    pub fn get_network_overview(&self) -> (r: NetworkOverview)
        ensures
            ethernet_model(r.ethernet) == self.model().ethernet,
            wifi_report(r.wifi, self.model()),
    {
        NetworkOverview { ethernet: self.get_ethernet(), wifi: self.get_wifi() }
    }

    /// Joins a WiFi network (the password and addressing are not kept).
    pub fn set_wifi(&mut self, ssid: &str)
        ensures
            final(self).model() == with_wifi(old(self).model(), ssid@),
    {
        self.wifi_ssid = text_string(ssid);
        self.wifi_connected = true;
    }

    /// Leaves the WiFi network.
    pub fn delete_wifi(&mut self)
        ensures
            final(self).model() == without_wifi(old(self).model()),
    {
        self.wifi_ssid = String::new();
        self.wifi_connected = false;
    }

    /// A scan that finds the same three networks each time.
    pub fn wifi_scan(&self) -> (r: WifiScanResult)
        ensures
            r.networks@.len() == mock_networks().len(),
            forall|i: int|
                0 <= i < r.networks@.len() ==> (#[trigger] r.networks@[i]).ssid@
                    == mock_networks()[i].0 && r.networks@[i].signal == mock_networks()[i].1
                    && r.networks@[i].security@ == mock_networks()[i].2,
    {
        let mut v: Vec<WifiNetwork> = Vec::new();
        v.push(network("DevNetwork", -45, "wpa2"));
        v.push(network("Neighbor-5G", -72, "wpa2"));
        v.push(network("IoT-Guest", -80, "open"));
        WifiScanResult { networks: v }
    }

    /// The audio setup: the remembered overlay, a fixed sound card and the
    /// stand-in's overlays. No HAT is reported (`detected_hat` is empty).
    pub fn get_audio(&self) -> (r: AudioInfo)
        ensures
            r.overlay@ == self.overlay@,
            r.detected_card@ == "Mock DAC+ Pro"@,
            r.detected_hat@.len() == 0,
            r.soundcard@ == "hw:0"@,
            r.available_overlays@.len() == mock_overlays().len(),
            forall|i: int|
                0 <= i < r.available_overlays@.len() ==> (#[trigger] r.available_overlays@[i]).id@
                    == mock_overlays()[i].0 && r.available_overlays@[i].name@
                    == mock_overlays()[i].1,
    {
        let mut v: Vec<DacOverlay> = Vec::new();
        v.push(overlay("hifiberry-dacplus", "HiFiBerry DAC+/DAC2 Pro"));
        v.push(overlay("hifiberry-amp3", "HiFiBerry Amp3"));
        v.push(overlay("allo-boss-dac-pcm512x-audio", "Allo Boss DAC"));
        v.push(overlay("iqaudio-dacplus", "IQAudio DAC+"));
        v.push(overlay("justboom-dac", "JustBoom DAC"));
        v.push(overlay("max98357a", "MAX98357A (Adafruit, Google AIY)"));
        v.push(overlay("", "Auto-detect (HAT EEPROM)"));
        AudioInfo {
            overlay: copy_string(&self.overlay),
            detected_card: text_string("Mock DAC+ Pro"),
            detected_hat: String::new(),
            soundcard: text_string("hw:0"),
            available_overlays: v,
        }
    }

    /// Remembers the chosen DAC overlay.
    pub fn set_audio_overlay(&mut self, overlay: &str)
        ensures
            final(self).model() == with_overlay(old(self).model(), overlay@),
    {
        self.overlay = text_string(overlay);
    }

    /// The remembered client settings.
    pub fn get_client(&self) -> (r: ClientConfig)
        ensures
            client_model(r) == self.model().client,
    {
        copy_client(&self.client)
    }

    /// Remembers client settings; the mDNS name, running flag and sound
    /// cards stay the stand-in's own.
    pub fn set_client(&mut self, config: ClientConfig)
        ensures
            final(self).model() == with_client(old(self).model(), config.model()),
    {
        let ghost c = config;
        self.client = config;
        self.client.mdns_name = text_string("_snapdog._tcp");
        self.client.running = true;
        self.client.available_soundcards = mock_cards();
        assert(self.model() =~= with_client(old(self).model(), c.model()));
    }

    /// The remembered SSH settings.
    pub fn get_ssh(&self) -> (r: SshConfig)
        ensures
            ssh_model(r) == self.model().ssh,
    {
        SshConfig { enabled: self.ssh.enabled, pubkeys: copy_strings(&self.ssh.pubkeys) }
    }

    /// Remembers SSH settings.
    pub fn set_ssh(&mut self, config: SshConfig)
        ensures
            final(self).model() == with_ssh(old(self).model(), ssh_model(config)),
    {
        self.ssh = config;
    }
}

/// On the stand-in, each setting reads back as it was written: a system
/// update, an Ethernet request, a WiFi join and leave, an overlay, client
/// settings (with the stand-in's own mDNS name, running flag and cards) and
/// SSH settings; and each write leaves the other settings as they were.
pub proof fn law_mock_read_back(
    m: MockModel,
    hostname: Seq<char>,
    channel: Seq<char>,
    eth: EthernetConfig,
    ssid: Seq<char>,
    overlay: Seq<char>,
    args: ClientArgsModel,
    ssh: SshModel,
)
    ensures
        with_system(m, Some(hostname), Some(channel)).hostname == hostname,
        with_system(m, Some(hostname), Some(channel)).channel == channel,
        with_system(m, None, None) == m,
        with_ethernet(m, eth).ethernet.mode == eth.mode@,
        with_ethernet(m, eth).ethernet.ip == or_empty_view(eth.ip),
        with_ethernet(m, eth).ethernet.subnet == or_empty_view(eth.subnet),
        with_ethernet(m, eth).ethernet.gateway == or_empty_view(eth.gateway),
        with_ethernet(m, eth).ethernet.dns == or_empty_view(eth.dns),
        with_ethernet(m, eth).ethernet.connected == m.ethernet.connected,
        with_wifi(m, ssid).wifi_ssid == ssid && with_wifi(m, ssid).wifi_connected,
        without_wifi(with_wifi(m, ssid)).wifi_ssid.len() == 0,
        !without_wifi(with_wifi(m, ssid)).wifi_connected,
        with_wifi(m, ssid).ethernet == m.ethernet && without_wifi(m).ethernet == m.ethernet,
        with_overlay(m, overlay).overlay == overlay,
        with_client(m, args).client.args == args,
        with_client(m, args).client.running,
        with_ssh(m, ssh).ssh == ssh,
        with_ssh(m, ssh).client == m.client && with_client(m, args).ssh == m.ssh,
{
}

} // verus!
