//! Network configuration: the files written for wpa_supplicant and
//! systemd-networkd, and the scan results of `wpa_cli`.
use vstd::prelude::*;
use crate::text;
use crate::system;

verus! {

/// A static IPv4 configuration.
pub struct StaticConfig {
    pub ip: String,
    pub subnet: String,
    pub gateway: String,
    pub dns: String,
}

/// A network seen by a WiFi scan.
pub struct ScannedNetwork {
    pub ssid: String,
    pub signal: i32,
    pub security: String,
}

/// hostapd's configuration for the temporary setup access point
/// `SnapDog-Setup`.
pub const HOSTAPD_CONFIG: &'static str = "interface=wlan0\ndriver=nl80211\nssid=SnapDog-Setup\nhw_mode=g\nchannel=0\nieee80211n=1\nwmm_enabled=1\nwpa=2\nwpa_passphrase=snapdog123\nwpa_key_mgmt=WPA-PSK\nrsn_pairwise=CCMP\n";

/// dnsmasq's configuration for the setup access point: DHCP leases and
/// every name answered with the device's address.
pub const DNSMASQ_CONFIG: &'static str = "interface=wlan0\ndhcp-range=10.11.12.100,10.11.12.200,255.255.255.0,24h\naddress=/#/10.11.12.13\n";

/// systemd-resolved's drop-in that turns off the stub resolver.
pub const RESOLVED_CONFIG: &'static str = "[Resolve]\nDNSStubListener=no\n";

// ---------------------------------------------------------------------------
// wpa_supplicant
// ---------------------------------------------------------------------------
/// The wpa_supplicant file that holds one WPA-PSK network.
pub open spec fn wpa_config_text(ssid: Seq<char>, password: Seq<char>) -> Seq<char> {
    "ctrl_interface=/var/run/wpa_supplicant\nupdate_config=1\ncountry=DE\n\nnetwork={\n  ssid=\""@
        + ssid + "\"\n  psk=\""@ + password + "\"\n  key_mgmt=WPA-PSK\n}\n"@
}

/// The wpa_supplicant file without any network.
pub open spec fn wpa_empty_text() -> Seq<char> {
    "ctrl_interface=/var/run/wpa_supplicant\nupdate_config=1\ncountry=DE\n"@
}

/// The wpa_supplicant file that connects to `ssid` with `password`.
pub fn wpa_supplicant_config(ssid: &str, password: &str) -> (r: String)
    ensures
        r@ == wpa_config_text(ssid@, password@),
{
    let mut out: Vec<char> = Vec::new();
    text::push_str(
        &mut out,
        "ctrl_interface=/var/run/wpa_supplicant\nupdate_config=1\ncountry=DE\n\nnetwork={\n  ssid=\"",
    );
    text::push_str(&mut out, ssid);
    text::push_str(&mut out, "\"\n  psk=\"");
    text::push_str(&mut out, password);
    text::push_str(&mut out, "\"\n  key_mgmt=WPA-PSK\n}\n");
    assert(out@ =~= wpa_config_text(ssid@, password@));
    text::string_of(&out)
}

/// The wpa_supplicant file that forgets all networks.
pub fn wpa_supplicant_empty_config() -> (r: String)
    ensures
        r@ == wpa_empty_text(),
{
    let mut out: Vec<char> = Vec::new();
    text::push_str(&mut out, "ctrl_interface=/var/run/wpa_supplicant\nupdate_config=1\ncountry=DE\n");
    assert(out@ =~= wpa_empty_text());
    text::string_of(&out)
}

/// A wpa_supplicant file configures WiFi when it has a `network=` block.
pub open spec fn wifi_configured(content: Seq<char>) -> bool {
    text::contains(content, "network="@)
}

/// Whether the wpa_supplicant file holds at least one network block.
pub fn is_wifi_configured(content: &str) -> (r: bool)
    ensures
        r == wifi_configured(content@),
{
    text::str_contains(content, "network=")
}

// ---------------------------------------------------------------------------
// systemd-networkd
// ---------------------------------------------------------------------------
/// The networkd file for the interfaces `names`: DHCP, or the static address
/// with the prefix length of its netmask, gateway and DNS server.
pub open spec fn networkd_text(names: Seq<char>, st: Option<StaticConfig>) -> Seq<char> {
    match st {
        None => "[Match]\nName="@ + names + "\n\n[Network]\nDHCP=yes\n"@,
        Some(s) => "[Match]\nName="@ + names + "\n\n[Network]\nAddress="@ + s.ip@ + seq!['/']
            + text::decimal(system::subnet_prefix(s.subnet@)) + "\nGateway="@ + s.gateway@
            + "\nDNS="@ + s.dns@ + seq!['\n'],
    }
}

fn networkd_config(names: &str, static_ip: Option<&StaticConfig>) -> (r: String)
    ensures
        r@ == networkd_text(
            names@,
            match static_ip {
                Some(s) => Some(*s),
                None => None,
            },
        ),
{
    let mut out: Vec<char> = Vec::new();
    text::push_str(&mut out, "[Match]\nName=");
    text::push_str(&mut out, names);
    match static_ip {
        None => {
            text::push_str(&mut out, "\n\n[Network]\nDHCP=yes\n");
        },
        Some(s) => {
            text::push_str(&mut out, "\n\n[Network]\nAddress=");
            text::push_str(&mut out, s.ip.as_str());
            out.push('/');
            let prefix = system::subnet_to_prefix(s.subnet.as_str());
            text::push_decimal(&mut out, prefix as u64);
            text::push_str(&mut out, "\nGateway=");
            text::push_str(&mut out, s.gateway.as_str());
            text::push_str(&mut out, "\nDNS=");
            text::push_str(&mut out, s.dns.as_str());
            out.push('\n');
        },
    }
    assert(out@ =~= networkd_text(
        names@,
        match static_ip {
            Some(s) => Some(*s),
            None => None,
        },
    ));
    text::string_of(&out)
}

/// The networkd file for `wlan0`.
pub fn wifi_network_config(static_ip: Option<&StaticConfig>) -> (r: String)
    ensures
        r@ == networkd_text(
            "wlan0"@,
            match static_ip {
                Some(s) => Some(*s),
                None => None,
            },
        ),
{
    networkd_config("wlan0", static_ip)
}

/// The networkd file for the wired interfaces `eth0` and `end0`.
pub fn ethernet_network_config(static_ip: Option<&StaticConfig>) -> (r: String)
    ensures
        r@ == networkd_text(
            "eth0 end0"@,
            match static_ip {
                Some(s) => Some(*s),
                None => None,
            },
        ),
{
    networkd_config("eth0 end0", static_ip)
}

// ---------------------------------------------------------------------------
// `wpa_cli scan_results`
// ---------------------------------------------------------------------------
/// The security a scan result's flags announce.
pub open spec fn security_of(flags: Seq<char>) -> Seq<char> {
    if text::contains(flags, "WPA"@) {
        "wpa2"@
    } else if text::contains(flags, "WEP"@) {
        "wep"@
    } else {
        "open"@
    }
}

/// A scan result line `BSSID\tFREQ\tSIGNAL\tFLAGS\tSSID`: its SSID, its
/// signal (-100 when that is no `i32`) and its security; lines with fewer
/// fields or an empty SSID give nothing.
pub open spec fn scanned_of(line: Seq<char>) -> Option<(Seq<char>, int, Seq<char>)> {
    let parts = text::split_char(line, '\t');
    if parts.len() >= 5 && parts[4].len() > 0 {
        Some(
            (
                parts[4],
                match text::parse_signed(parts[2], i32::MAX as nat) {
                    Some(x) => x,
                    None => -100,
                },
                security_of(parts[3]),
            ),
        )
    } else {
        None
    }
}

/// The networks of the given scan result lines, in order.
pub open spec fn scanned_networks(ls: Seq<Seq<char>>) -> Seq<(Seq<char>, int, Seq<char>)>
    decreases ls.len(),
{
    if ls.len() == 0 {
        seq![]
    } else {
        match scanned_of(ls.last()) {
            Some(n) => scanned_networks(ls.drop_last()).push(n),
            None => scanned_networks(ls.drop_last()),
        }
    }
}

/// The lines of `wpa_cli scan_results` output after its header line.
pub open spec fn scan_body(output: Seq<char>) -> Seq<Seq<char>> {
    let ls = text::lines(output);
    if ls.len() > 0 {
        ls.drop_first()
    } else {
        ls
    }
}

pub open spec fn network_view(n: ScannedNetwork) -> (Seq<char>, int, Seq<char>) {
    (n.ssid@, n.signal as int, n.security@)
}

fn text_string(s: &str) -> (r: String)
    ensures
        r@ == s@,
{
    text::string_of(&text::chars_of(s))
}

fn security_chars(flags: &Vec<char>) -> (r: String)
    ensures
        r@ == security_of(flags@),
{
    if text::contains_text(flags, "WPA") {
        text_string("wpa2")
    } else if text::contains_text(flags, "WEP") {
        text_string("wep")
    } else {
        text_string("open")
    }
}

/// The networks listed in `wpa_cli scan_results` output.
pub fn parse_scan_results(output: &str) -> (r: Vec<ScannedNetwork>)
    ensures
        r@.map_values(|n: ScannedNetwork| network_view(n)) == scanned_networks(scan_body(output@)),
{
    let v = text::chars_of(output);
    let ls = text::split_lines(&v);
    let ghost dv = ls.deep_view();
    let ghost body = scan_body(output@);
    let mut nets: Vec<ScannedNetwork> = Vec::new();
    if ls.len() == 0 {
        assert(nets@.map_values(|n: ScannedNetwork| network_view(n)) =~= Seq::<
            (Seq<char>, int, Seq<char>),
        >::empty());
        return nets;
    }
    let mut i: usize = 1;
    assert(body.take(0) =~= Seq::<Seq<char>>::empty());
    assert(nets@.map_values(|n: ScannedNetwork| network_view(n)) =~= Seq::<
        (Seq<char>, int, Seq<char>),
    >::empty());
    while i < ls.len()
        invariant
            1 <= i <= ls.len(),
            dv == ls.deep_view(),
            body == dv.drop_first(),
            nets@.map_values(|n: ScannedNetwork| network_view(n)) == scanned_networks(
                body.take(i - 1),
            ),
        decreases ls.len() - i,
    {
        let ghost before = nets@.map_values(|n: ScannedNetwork| network_view(n));
        proof {
            text::lemma_deep_view_chars(&ls@[i as int]);
            assert(body.take(i as int).drop_last() =~= body.take(i - 1));
            assert(body.take(i as int).last() == ls@[i as int]@);
        }
        let parts = text::split_on(&ls[i], '\t');
        proof {
            if parts.len() >= 5 {
                text::lemma_deep_view_chars(&parts@[2]);
                text::lemma_deep_view_chars(&parts@[3]);
                text::lemma_deep_view_chars(&parts@[4]);
            }
        }
        if parts.len() >= 5 && parts[4].len() > 0 {
            let signal = match text::parse_i32_chars(&parts[2]) {
                Some(x) => x,
                None => -100,
            };
            let n = ScannedNetwork {
                ssid: text::string_of(&parts[4]),
                signal,
                security: security_chars(&parts[3]),
            };
            nets.push(n);
            assert(nets@.map_values(|n: ScannedNetwork| network_view(n)) =~= before.push(
                network_view(n),
            ));
        }
        i = i + 1;
    }
    assert(body.take(i - 1) =~= body);
    nets
}

// ---------------------------------------------------------------------------
// What the written files read back as
// ---------------------------------------------------------------------------
/// A file written to connect to a network counts as configured WiFi.
pub proof fn law_connected_wifi_is_configured(ssid: Seq<char>, password: Seq<char>)
    ensures
        wifi_configured(wpa_config_text(ssid, password)),
{
    let head = "ctrl_interface=/var/run/wpa_supplicant\nupdate_config=1\ncountry=DE\n\nnetwork={\n  ssid=\""@;
    reveal_strlit("ctrl_interface=/var/run/wpa_supplicant\nupdate_config=1\ncountry=DE\n\nnetwork={\n  ssid=\"");
    reveal_strlit("network=");
    let s = wpa_config_text(ssid, password);
    assert(s.subrange(67, 75) =~= "network="@) by {
        assert forall|k: int| 0 <= k < 8 implies s.subrange(67, 75)[k] == "network="@[k] by {
            assert(s[67 + k] == head[67 + k]);
        }
    }
    assert(s.subrange(67, 67 + "network="@.len() as int) == "network="@);
}

/// The file written when WiFi is disconnected does not count as configured.
pub proof fn law_disconnected_wifi_is_unconfigured()
    ensures
        !wifi_configured(wpa_empty_text()),
{
    reveal_strlit("ctrl_interface=/var/run/wpa_supplicant\nupdate_config=1\ncountry=DE\n");
    reveal_strlit("network=");
    let s = wpa_empty_text();
    let p = "network="@;
    assert forall|i: int| 0 <= i <= s.len() - p.len() implies #[trigger] s.subrange(i, i + p.len())
        != p by {
        if s[i] == 'n' && s[i + 7] == '=' {
            assert(false);
        }
        if s[i] != 'n' {
            assert(s.subrange(i, i + p.len())[0] != p[0]);
        } else {
            assert(s.subrange(i, i + p.len())[7] != p[7]);
        }
    }
}

/// Text without line breaks.
pub open spec fn single_line(s: Seq<char>) -> bool {
    forall|i: int| 0 <= i < s.len() ==> #[trigger] s[i] != '\n'
}

/// A line without a line break, then `'\n'`, is the first of the lines.
pub proof fn lemma_lines_cons(a: Seq<char>, rest: Seq<char>)
    requires
        single_line(a),
    ensures
        text::lines(a + seq!['\n'] + rest) == seq![text::strip_cr(a)] + text::lines(rest),
{
    let s = a + seq!['\n'] + rest;
    assert forall|k: int| 0 <= k < a.len() implies s[k] != '\n' by {
        assert(s[k] == a[k]);
    }
    text::lemma_find_char_found(s, '\n', a.len() as int);
    assert(s.take(a.len() as int) =~= a);
    assert(s.skip(a.len() as int + 1) =~= rest);
}

proof fn lemma_last_line(p: Seq<char>, l: Seq<char>)
    requires
        single_line(l),
    ensures
        text::lines(p + seq!['\n'] + l + seq!['\n']).len() > 0,
        text::lines(p + seq!['\n'] + l + seq!['\n']).last() == text::strip_cr(l),
    decreases p.len(),
{
    let s = p + seq!['\n'] + l + seq!['\n'];
    text::lemma_find_char_range(p, '\n');
    match text::find_char(p, '\n') {
        Some(i) => {
            assert forall|k: int| 0 <= k < i implies s[k] != '\n' by {
                assert(s[k] == p[k]);
            }
            assert(s[i] == p[i]);
            text::lemma_find_char_found(s, '\n', i);
            let q = p.skip(i + 1);
            assert(s.skip(i + 1) =~= q + seq!['\n'] + l + seq!['\n']);
            lemma_last_line(q, l);
        },
        None => {
            lemma_lines_cons(p, l + seq!['\n']);
            assert(s =~= p + seq!['\n'] + (l + seq!['\n']));
            lemma_lines_cons(l, Seq::<char>::empty());
            assert(l + seq!['\n'] =~= l + seq!['\n'] + Seq::<char>::empty());
            assert(text::lines(Seq::<char>::empty()) =~= Seq::<Seq<char>>::empty());
        },
    }
}

proof fn lemma_trim_end_prefix(s: Seq<char>, j: int)
    requires
        0 <= j < s.len(),
        !text::is_ws(s[j]),
    ensures
        text::trim_end(s).len() > j,
        text::trim_end(s).len() <= s.len(),
        text::trim_end(s) == s.take(text::trim_end(s).len() as int),
    decreases s.len(),
{
    if text::is_ws(s.last()) {
        assert(text::trim_end(s) == text::trim_end(s.drop_last()));
        assert(j != s.len() - 1);
        assert(s.drop_last()[j] == s[j]);
        lemma_trim_end_prefix(s.drop_last(), j);
        assert(s.drop_last().take(text::trim_end(s).len() as int) =~= s.take(
            text::trim_end(s).len() as int,
        ));
    } else {
        assert(s.take(s.len() as int) =~= s);
    }
}

/// A line `KEY=...` whose key has neither whitespace nor `=` is read with
/// that key, and its trimmed form starts with `KEY=`.
proof fn lemma_key_line(k: Seq<char>, r: Seq<char>)
    requires
        k.len() > 0,
        forall|i: int| 0 <= i < k.len() ==> !text::is_ws(#[trigger] k[i]) && k[i] != '=',
    ensures
        text::trim(k + seq!['='] + r).len() > k.len(),
        text::starts_with(text::trim(k + seq!['='] + r), k + seq!['=']),
        text::split_once(text::trim(k + seq!['='] + r), '=') matches Some((key, _)) && key == k,
        k[0] != '#' ==> !text::starts_with(text::trim(k + seq!['='] + r), seq!['#']),
{
    let s = k + seq!['='] + r;
    assert(s[0] == k[0]);
    assert(text::trim_start(s) == s);
    assert(s[k.len() as int] == '=');
    lemma_trim_end_prefix(s, k.len() as int);
    let t = text::trim(s);
    assert(t == s.take(t.len() as int));
    assert(t == text::trim_end(s));
    assert forall|i: int| 0 <= i < k.len() implies t[i] != '=' by {
        assert(s[i] == k[i]);
        assert(t[i] == s[i]);
    }
    assert(t[k.len() as int] == s[k.len() as int]);
    text::lemma_find_char_found(t, '=', k.len() as int);
    assert(t.take(k.len() as int) =~= k);
    assert(t.take(k.len() as int + 1) =~= k + seq!['=']);
    if k[0] != '#' {
        assert(t.take(1)[0] != seq!['#'][0]);
    }
}

proof fn lemma_plain_line(s: Seq<char>)
    requires
        s.len() > 0,
        !text::is_ws(s[0]),
        !text::is_ws(s.last()),
        forall|i: int| 0 <= i < s.len() ==> #[trigger] s[i] != '=',
    ensures
        text::trim(s) == s,
        text::split_once(text::trim(s), '=') is None,
{
    assert(text::trim_start(s) == s);
    assert(text::trim_end(s) == s);
    text::lemma_find_char_absent(s, '=');
}

/// A networkd file written for DHCP reads back as DHCP.
pub proof fn law_dhcp_file_reads_dhcp(names: Seq<char>)
    ensures
        system::network_mode(networkd_text(names, None)) == Some("dhcp"@),
{
    reveal_strlit("[Match]\nName=");
    reveal_strlit("\n\n[Network]\nDHCP=yes\n");
    reveal_strlit("DHCP");
    reveal_strlit("yes");
    let l = seq!['D', 'H', 'C', 'P', '=', 'y', 'e', 's'];
    let p = "[Match]\nName="@ + names + seq!['\n', '\n', '[', 'N', 'e', 't', 'w', 'o', 'r', 'k', ']'];
    assert(networkd_text(names, None) =~= p + seq!['\n'] + l + seq!['\n']);
    lemma_last_line(p, l);
    let ls = text::lines(networkd_text(names, None));
    assert(text::strip_cr(l) == l);
    let key = seq!['D', 'H', 'C', 'P'];
    let val = seq!['y', 'e', 's'];
    assert(l =~= key + seq!['='] + val);
    lemma_key_line(key, val);
    assert(text::trim(l) == l) by {
        assert(text::trim_start(l) == l);
        assert(text::trim_end(l) == l);
    }
    assert(text::split_once(l, '=') == Some((key, val))) by {
        text::lemma_find_char_found(l, '=', 4);
        assert(l.take(4) =~= key);
        assert(l.skip(5) =~= val);
    }
    assert(key == "DHCP"@);
    assert(val == "yes"@);
    assert(system::enables_dhcp(ls[ls.len() - 1]));
}

/// The lines of a networkd file with a static address.
#[verifier::rlimit(80)]
proof fn lemma_static_lines(names: Seq<char>, st: StaticConfig)
    requires
        single_line(names),
        single_line(st.ip@),
        single_line(st.gateway@),
        single_line(st.dns@),
    ensures
        ({
            let pfx = text::decimal(system::subnet_prefix(st.subnet@));
            text::lines(networkd_text(names, Some(st))) == seq![
                text::strip_cr(seq!['[', 'M', 'a', 't', 'c', 'h', ']']),
                text::strip_cr(seq!['N', 'a', 'm', 'e', '='] + names),
                text::strip_cr(Seq::<char>::empty()),
                text::strip_cr(seq!['[', 'N', 'e', 't', 'w', 'o', 'r', 'k', ']']),
                text::strip_cr(seq!['A', 'd', 'd', 'r', 'e', 's', 's', '='] + (st.ip@ + seq!['/'] + pfx)),
                text::strip_cr(seq!['G', 'a', 't', 'e', 'w', 'a', 'y', '='] + st.gateway@),
                text::strip_cr(seq!['D', 'N', 'S', '='] + st.dns@),
            ]
        }),
{
    reveal_strlit("[Match]\nName=");
    reveal_strlit("\n\n[Network]\nAddress=");
    reveal_strlit("\nGateway=");
    reveal_strlit("\nDNS=");
    let pfx = text::decimal(system::subnet_prefix(st.subnet@));
    text::lemma_decimal_roundtrip(system::subnet_prefix(st.subnet@));
    assert forall|i: int| 0 <= i < pfx.len() implies #[trigger] pfx[i] != '\n' by {
        assert(text::is_digit(pfx[i]));
    }
    let l0 = seq!['[', 'M', 'a', 't', 'c', 'h', ']'];
    let l1 = seq!['N', 'a', 'm', 'e', '='] + names;
    let l2 = Seq::<char>::empty();
    let l3 = seq!['[', 'N', 'e', 't', 'w', 'o', 'r', 'k', ']'];
    let v4 = st.ip@ + seq!['/'] + pfx;
    let l4 = seq!['A', 'd', 'd', 'r', 'e', 's', 's', '='] + v4;
    let l5 = seq!['G', 'a', 't', 'e', 'w', 'a', 'y', '='] + st.gateway@;
    let l6 = seq!['D', 'N', 'S', '='] + st.dns@;
    let r6 = l6 + seq!['\n'] + Seq::<char>::empty();
    let r5 = l5 + seq!['\n'] + r6;
    let r4 = l4 + seq!['\n'] + r5;
    let r3 = l3 + seq!['\n'] + r4;
    let r2 = l2 + seq!['\n'] + r3;
    let r1 = l1 + seq!['\n'] + r2;
    let r0 = l0 + seq!['\n'] + r1;
    assert(networkd_text(names, Some(st)) =~= r0);
    assert(single_line(l0));
    assert(single_line(l1)) by {
        assert forall|i: int| 0 <= i < l1.len() implies #[trigger] l1[i] != '\n' by {
            if i >= 5 {
                assert(l1[i] == names[i - 5]);
            }
        }
    }
    assert(single_line(l2));
    assert(single_line(l3));
    assert(single_line(v4)) by {
        assert forall|i: int| 0 <= i < v4.len() implies #[trigger] v4[i] != '\n' by {
            if i < st.ip@.len() {
                assert(v4[i] == st.ip@[i]);
            } else if i > st.ip@.len() {
                assert(v4[i] == pfx[i - st.ip@.len() - 1]);
            }
        }
    }
    assert(single_line(l4)) by {
        assert forall|i: int| 0 <= i < l4.len() implies #[trigger] l4[i] != '\n' by {
            if i >= 8 {
                assert(l4[i] == v4[i - 8]);
            }
        }
    }
    assert(single_line(l5)) by {
        assert forall|i: int| 0 <= i < l5.len() implies #[trigger] l5[i] != '\n' by {
            if i >= 8 {
                assert(l5[i] == st.gateway@[i - 8]);
            }
        }
    }
    assert(single_line(l6)) by {
        assert forall|i: int| 0 <= i < l6.len() implies #[trigger] l6[i] != '\n' by {
            if i >= 4 {
                assert(l6[i] == st.dns@[i - 4]);
            }
        }
    }
    lemma_lines_cons(l6, Seq::<char>::empty());
    lemma_lines_cons(l5, r6);
    lemma_lines_cons(l4, r5);
    lemma_lines_cons(l3, r4);
    lemma_lines_cons(l2, r3);
    lemma_lines_cons(l1, r2);
    lemma_lines_cons(l0, r1);
    assert(text::lines(Seq::<char>::empty()) =~= Seq::<Seq<char>>::empty());
    assert(text::lines(r0) =~= seq![
        text::strip_cr(l0),
        text::strip_cr(l1),
        text::strip_cr(l2),
        text::strip_cr(l3),
        text::strip_cr(l4),
        text::strip_cr(l5),
        text::strip_cr(l6),
    ]);
}

/// A line `KEY=VALUE` after dropping a trailing `\r` is still `KEY=...`.
proof fn lemma_strip_cr_key(k: Seq<char>, v: Seq<char>)
    ensures
        text::strip_cr(k + seq!['='] + v) == k + seq!['='] + (if v.len() > 0 && v.last() == '\r' {
            v.drop_last()
        } else {
            v
        }),
{
    assert((k + seq!['='] + v).last() == if v.len() > 0 { v.last() } else { '=' });
    if v.len() > 0 && v.last() == '\r' {
        assert((k + seq!['='] + v).drop_last() =~= k + seq!['='] + v.drop_last());
    }
}

/// A static networkd file has no line that enables DHCP when none of the
/// interface names, address, gateway and DNS server holds a line break.
#[verifier::rlimit(50)]
pub proof fn law_plain_values_enable_no_dhcp(names: Seq<char>, st: StaticConfig)
    requires
        single_line(names),
        single_line(st.ip@),
        single_line(st.gateway@),
        single_line(st.dns@),
    ensures
        no_dhcp_line(networkd_text(names, Some(st))),
{
    reveal_strlit("DHCP");
    lemma_static_lines(names, st);
    let pfx = text::decimal(system::subnet_prefix(st.subnet@));
    let ls = text::lines(networkd_text(names, Some(st)));
    let l0 = seq!['[', 'M', 'a', 't', 'c', 'h', ']'];
    let l3 = seq!['[', 'N', 'e', 't', 'w', 'o', 'r', 'k', ']'];
    let k1 = seq!['N', 'a', 'm', 'e'];
    let k4 = seq!['A', 'd', 'd', 'r', 'e', 's', 's'];
    let k5 = seq!['G', 'a', 't', 'e', 'w', 'a', 'y'];
    let k6 = seq!['D', 'N', 'S'];
    let v4 = st.ip@ + seq!['/'] + pfx;
    assert(seq!['N', 'a', 'm', 'e', '='] =~= k1 + seq!['=']);
    assert(seq!['A', 'd', 'd', 'r', 'e', 's', 's', '='] =~= k4 + seq!['=']);
    assert(seq!['G', 'a', 't', 'e', 'w', 'a', 'y', '='] =~= k5 + seq!['=']);
    assert(seq!['D', 'N', 'S', '='] =~= k6 + seq!['=']);
    lemma_strip_cr_key(k1, names);
    lemma_strip_cr_key(k4, v4);
    lemma_strip_cr_key(k5, st.gateway@);
    lemma_strip_cr_key(k6, st.dns@);
    let n1 = if names.len() > 0 && names.last() == '\r' { names.drop_last() } else { names };
    let w4 = if v4.len() > 0 && v4.last() == '\r' { v4.drop_last() } else { v4 };
    let g = st.gateway@;
    let g5 = if g.len() > 0 && g.last() == '\r' { g.drop_last() } else { g };
    let d = st.dns@;
    let d6 = if d.len() > 0 && d.last() == '\r' { d.drop_last() } else { d };
    lemma_key_line(k1, n1);
    lemma_key_line(k4, w4);
    lemma_key_line(k5, g5);
    lemma_key_line(k6, d6);
    assert(text::strip_cr(l0) == l0);
    assert(text::strip_cr(l3) == l3);
    lemma_plain_line(l0);
    lemma_plain_line(l3);
    let l2 = Seq::<char>::empty();
    assert(text::strip_cr(l2) == l2);
    assert(text::trim(l2) =~= l2) by {
        assert(text::trim_start(l2) == l2);
        assert(text::trim_end(l2) == l2);
    }
    text::lemma_find_char_absent(l2, '=');
    assert(k1 != "DHCP"@);
    assert(k4 != "DHCP"@);
    assert(k5 != "DHCP"@);
    assert(k6 != "DHCP"@);
    assert(!system::enables_dhcp(ls[0]));
    assert(!system::enables_dhcp(ls[1]));
    assert(!system::enables_dhcp(ls[2]));
    assert(!system::enables_dhcp(ls[3]));
    assert(!system::enables_dhcp(ls[4]));
    assert(!system::enables_dhcp(ls[5]));
    assert(!system::enables_dhcp(ls[6]));
    assert forall|i: int| 0 <= i < ls.len() implies !system::enables_dhcp(#[trigger] ls[i]) by {}
}

/// No line of a networkd file enables DHCP.
pub open spec fn no_dhcp_line(content: Seq<char>) -> bool {
    let ls = text::lines(content);
    forall|i: int| 0 <= i < ls.len() ==> !system::enables_dhcp(#[trigger] ls[i])
}

/// The first line of a text (without its line ending).
pub open spec fn first_line(q: Seq<char>) -> Seq<char> {
    match text::find_char(q, '\n') {
        Some(i) => text::strip_cr(q.take(i)),
        None => q,
    }
}

/// What follows a line break begins one of the lines.
proof fn lemma_line_after(p: Seq<char>, q: Seq<char>)
    requires
        q.len() > 0,
    ensures
        exists|i: int|
            0 <= i < text::lines(p + seq!['\n'] + q).len() && #[trigger] text::lines(
                p + seq!['\n'] + q,
            )[i] == first_line(q),
    decreases p.len(),
{
    let s = p + seq!['\n'] + q;
    text::lemma_find_char_range(p, '\n');
    text::lemma_find_char_range(q, '\n');
    match text::find_char(p, '\n') {
        Some(i) => {
            assert forall|k: int| 0 <= k < i implies s[k] != '\n' by {
                assert(s[k] == p[k]);
            }
            assert(s[i] == p[i]);
            text::lemma_find_char_found(s, '\n', i);
            let p2 = p.skip(i + 1);
            assert(s.skip(i + 1) =~= p2 + seq!['\n'] + q);
            lemma_line_after(p2, q);
            let rest = text::lines(p2 + seq!['\n'] + q);
            let j = choose|j: int| 0 <= j < rest.len() && #[trigger] rest[j] == first_line(q);
            assert(text::lines(s) == seq![text::strip_cr(s.take(i))] + rest);
            assert(text::lines(s)[j + 1] == rest[j]);
        },
        None => {
            assert forall|k: int| 0 <= k < p.len() implies s[k] != '\n' by {
                assert(s[k] == p[k]);
            }
            text::lemma_find_char_found(s, '\n', p.len() as int);
            assert(s.skip(p.len() as int + 1) =~= q);
            assert(text::lines(s) == seq![text::strip_cr(s.take(p.len() as int))] + text::lines(q));
            match text::find_char(q, '\n') {
                Some(j) => {
                    assert(text::lines(q)[0] == first_line(q));
                },
                None => {
                    assert(text::lines(q) == seq![q]);
                },
            }
            assert(text::lines(s)[1] == text::lines(q)[0]);
        },
    }
}

/// A networkd file written with a static address reads back as static
/// whenever none of its lines enables DHCP (which only a value with a line
/// break could bring in).
#[verifier::rlimit(50)]
pub proof fn law_static_file_reads_static(names: Seq<char>, st: StaticConfig)
    requires
        no_dhcp_line(networkd_text(names, Some(st))),
    ensures
        system::network_mode(networkd_text(names, Some(st))) == Some("static"@),
{
    reveal_strlit("[Match]\nName=");
    reveal_strlit("\n\n[Network]\nAddress=");
    reveal_strlit("\nGateway=");
    reveal_strlit("\nDNS=");
    reveal_strlit("Address=");
    let pfx = text::decimal(system::subnet_prefix(st.subnet@));
    let key = seq!['A', 'd', 'd', 'r', 'e', 's', 's', '='];
    let q = key + (st.ip@ + seq!['/'] + pfx + "\nGateway="@ + st.gateway@ + "\nDNS="@ + st.dns@
        + seq!['\n']);
    let p = "[Match]\nName="@ + names + seq!['\n', '\n', '[', 'N', 'e', 't', 'w', 'o', 'r', 'k', ']'];
    let content = networkd_text(names, Some(st));
    assert(content =~= p + seq!['\n'] + q);
    lemma_line_after(p, q);
    let ls = text::lines(content);
    let i = choose|i: int| 0 <= i < ls.len() && #[trigger] ls[i] == first_line(q);
    // the first line of `q` begins with `Address=`
    assert(q[q.len() - 1] == '\n');
    text::lemma_find_char_range(q, '\n');
    assert(text::find_char(q, '\n') is Some);
    let j = text::find_char(q, '\n')->0;
    assert forall|k: int| 0 <= k < 8 implies q[k] == key[k] by {}
    assert(j >= 8) by {
        if j < 8 {
            assert(q[j] == key[j]);
        }
    }
    let raw = q.take(j);
    let l = first_line(q);
    assert(l == text::strip_cr(raw));
    assert(l.len() >= 8) by {
        if raw.last() == '\r' {
            assert(j != 8) by {
                assert(raw[7] == '=');
            }
        }
    }
    assert forall|k: int| 0 <= k < 8 implies l[k] == key[k] by {
        assert(l[k] == raw[k]);
        assert(raw[k] == q[k]);
    }
    assert(!text::is_ws(l[0]));
    assert(text::trim_start(l) == l);
    assert(!text::is_ws(l[7]));
    lemma_trim_end_prefix(l, 7);
    let t = text::trim(l);
    assert(t == text::trim_end(l));
    assert(t.len() > 7);
    assert(t == l.take(t.len() as int));
    assert(t.take(8) =~= key);
    assert(key =~= "Address="@);
    assert(text::starts_with(t, "Address="@));
    assert(!text::starts_with(t, seq!['#'])) by {
        assert(t.take(1)[0] == 'A');
    }
    assert(system::sets_address(ls[i]));
}

/// An Ethernet request written as a networkd file reads back with its mode:
/// `static` for a static request whenever no line of the file enables DHCP
/// (whatever the values hold otherwise), `dhcp` for any other request.
pub proof fn law_ethernet_mode_roundtrip(mode: Seq<char>, st: Option<StaticConfig>)
    requires
        mode == "static"@ ==> (st matches Some(s) && no_dhcp_line(networkd_text("eth0 end0"@, Some(s)))),
        mode != "static"@ ==> st is None,
    ensures
        system::network_mode(networkd_text("eth0 end0"@, st)) == Some(
            if mode == "static"@ {
                "static"@
            } else {
                "dhcp"@
            },
        ),
{
    match st {
        Some(s) => law_static_file_reads_static("eth0 end0"@, s),
        None => law_dhcp_file_reads_dhcp("eth0 end0"@),
    }
}

/// Text without a tab.
pub open spec fn tab_free(s: Seq<char>) -> bool {
    forall|i: int| 0 <= i < s.len() ==> #[trigger] s[i] != '\t'
}

proof fn lemma_split_tab(a: Seq<char>, rest: Seq<char>)
    requires
        tab_free(a),
    ensures
        text::split_char(a + seq!['\t'] + rest, '\t') == seq![a] + text::split_char(rest, '\t'),
{
    let s = a + seq!['\t'] + rest;
    assert forall|k: int| 0 <= k < a.len() implies s[k] != '\t' by {
        assert(s[k] == a[k]);
    }
    text::lemma_find_char_found(s, '\t', a.len() as int);
    assert(s.take(a.len() as int) =~= a);
    assert(s.skip(a.len() as int + 1) =~= rest);
}

/// A scan result line `BSSID\tFREQ\tSIGNAL\tFLAGS\tSSID` (fields without
/// tabs, a non-empty SSID, the signal an `i32` in decimal) is the network
/// named by its fifth field, with the signal of its third and the security
/// of its flags: `wpa2` when they mention WPA, else `wep` for WEP, else
/// `open`.
pub proof fn law_scan_line_fields(
    bssid: Seq<char>,
    freq: Seq<char>,
    x: int,
    flags: Seq<char>,
    ssid: Seq<char>,
)
    requires
        tab_free(bssid),
        tab_free(freq),
        tab_free(flags),
        tab_free(ssid),
        ssid.len() > 0,
        i32::MIN <= x <= i32::MAX,
    ensures
        scanned_of(
            bssid + seq!['\t'] + freq + seq!['\t'] + text::signed_decimal(x) + seq!['\t'] + flags
                + seq!['\t'] + ssid,
        ) == Some(
            (
                ssid,
                x,
                if text::contains(flags, "WPA"@) {
                    "wpa2"@
                } else if text::contains(flags, "WEP"@) {
                    "wep"@
                } else {
                    "open"@
                },
            ),
        ),
{
    let d = text::signed_decimal(x);
    assert(tab_free(d)) by {
        if x < 0 {
            text::lemma_decimal_roundtrip((-x) as nat);
            assert forall|i: int| 0 <= i < d.len() implies #[trigger] d[i] != '\t' by {
                if i > 0 {
                    assert(d[i] == text::decimal((-x) as nat)[i - 1]);
                    assert(text::is_digit(text::decimal((-x) as nat)[i - 1]));
                }
            }
        } else {
            text::lemma_decimal_roundtrip(x as nat);
            assert forall|i: int| 0 <= i < d.len() implies #[trigger] d[i] != '\t' by {
                assert(text::is_digit(d[i]));
            }
        }
    }
    assert(text::parse_signed(d, i32::MAX as nat) == Some(x)) by {
        if x < 0 {
            let n = (-x) as nat;
            text::lemma_decimal_roundtrip(n);
            assert(d.drop_first() =~= text::decimal(n));
        } else {
            text::lemma_decimal_roundtrip(x as nat);
            assert(text::is_digit(d[0]));
            assert(text::unsigned_digits(d) == d);
        }
    }
    let r4 = ssid;
    let r3 = flags + seq!['\t'] + r4;
    let r2 = d + seq!['\t'] + r3;
    let r1 = freq + seq!['\t'] + r2;
    let line = bssid + seq!['\t'] + r1;
    assert(bssid + seq!['\t'] + freq + seq!['\t'] + d + seq!['\t'] + flags + seq!['\t'] + ssid
        =~= line);
    lemma_split_tab(bssid, r1);
    lemma_split_tab(freq, r2);
    lemma_split_tab(d, r3);
    lemma_split_tab(flags, r4);
    text::lemma_find_char_absent(ssid, '\t');
    let parts = text::split_char(line, '\t');
    assert(parts =~= seq![bssid, freq, d, flags, ssid]);
}

} // verus!
