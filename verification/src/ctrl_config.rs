//! The controller's own settings file (`/data/snapdog/ctrl.toml`): the
//! auto-update schedule and which optional services run.
use vstd::prelude::*;
use crate::text;
use crate::api::AutoUpdateConfig;
use crate::error::CtrlError;

verus! {

// ---------------------------------------------------------------------------
// TOML access through toml_edit
// ---------------------------------------------------------------------------
/// The boolean at `table.key` of a TOML text (read as an empty document when
/// it does not parse).
pub uninterp spec fn toml_bool_at(content: Seq<char>, table: Seq<char>, key: Seq<char>) -> Option<
    bool,
>;

/// The string at `table.key` of a TOML text (read as an empty document when
/// it does not parse).
pub uninterp spec fn toml_str_at(content: Seq<char>, table: Seq<char>, key: Seq<char>) -> Option<
    Seq<char>,
>;

/// Whether a key can be set in `table` of a TOML text: the table is absent
/// or table-like (a table or an inline table).
pub uninterp spec fn toml_settable(content: Seq<char>, table: Seq<char>) -> bool;

/// The TOML text after setting `table.key` to a boolean.
pub uninterp spec fn toml_with_bool(content: Seq<char>, table: Seq<char>, key: Seq<char>, value: bool) -> Seq<char>;

/// The TOML text after setting `table.key` to a string.
pub uninterp spec fn toml_with_str(content: Seq<char>, table: Seq<char>, key: Seq<char>, value: Seq<char>) -> Seq<char>;

/// Reads `table.key` as a boolean: parses `content` into a
/// `toml_edit::DocumentMut` (the default, empty document if it does not
/// parse), then `get(table)`, `get(key)` and `Item::as_bool`. The result is
/// named `toml_bool_at`.
#[verifier::external_body]
fn toml_bool(content: &str, table: &str, key: &str) -> (r: Option<bool>)
    ensures
        r == toml_bool_at(content@, table@, key@),
{
    let doc: toml_edit::DocumentMut = content.parse().unwrap_or_default();
    doc.get(table).and_then(|t| t.get(key)).and_then(toml_edit::Item::as_bool)
}

/// Reads `table.key` as a string, as `toml_bool` does with `Item::as_str`.
/// The result is named `toml_str_at`.
#[verifier::external_body]
fn toml_str(content: &str, table: &str, key: &str) -> (r: Option<String>)
    ensures
        match r {
            Some(s) => toml_str_at(content@, table@, key@) == Some(s@),
            None => toml_str_at(content@, table@, key@) is None,
        },
{
    let doc: toml_edit::DocumentMut = content.parse().unwrap_or_default();
    doc.get(table).and_then(|t| t.get(key)).and_then(|v| v.as_str()).map(|s| s.to_string())
}

/// Whether `table` of the parsed document is absent or `Item::is_table_like`,
/// the case in which `toml_edit`'s `IndexMut` on it does not panic. The
/// result is named `toml_settable`.
#[verifier::external_body]
fn toml_can_set(content: &str, table: &str) -> (r: bool)
    ensures
        r == toml_settable(content@, table@),
{
    let doc: toml_edit::DocumentMut = content.parse().unwrap_or_default();
    doc.get(table).map_or(true, toml_edit::Item::is_table_like)
}

/// Sets `table.key` to a boolean: parses `content` (the empty document if it
/// does not parse), takes `entry(table).or_insert_with` a new table, assigns
/// `toml_edit::value(value)` at `key` and prints the document. Claimed: the
/// result is named `toml_with_bool`; read back it holds `value` at
/// `table.key`, keeps every other key of the table as it was, and the table
/// stays settable; every other top-level table is left as it was (only the
/// entry at `table` of the document's root table is edited).
#[verifier::external_body]
fn toml_set_bool(content: &str, table: &str, key: &str, value: bool) -> (r: String)
    requires
        toml_settable(content@, table@),
    ensures
        r@ == toml_with_bool(content@, table@, key@, value),
        toml_bool_at(r@, table@, key@) == Some(value),
        toml_settable(r@, table@),
        forall|k: Seq<char>|
            k != key@ ==> toml_bool_at(r@, table@, k) == toml_bool_at(content@, table@, k)
                && toml_str_at(r@, table@, k) == toml_str_at(content@, table@, k),
        forall|t: Seq<char>, k: Seq<char>|
            t != table@ ==> toml_bool_at(r@, t, k) == toml_bool_at(content@, t, k)
                && toml_str_at(r@, t, k) == toml_str_at(content@, t, k),
        forall|t: Seq<char>| t != table@ ==> toml_settable(r@, t) == toml_settable(content@, t),
{
    let mut doc: toml_edit::DocumentMut = content.parse().unwrap_or_default();
    let t = doc.entry(table).or_insert_with(|| toml_edit::Item::Table(toml_edit::Table::new()));
    t[key] = toml_edit::value(value);
    doc.to_string()
}

/// Sets `table.key` to a string, as `toml_set_bool` does. Claimed: the
/// result is named `toml_with_str`; read back it holds `value` at
/// `table.key`, keeps every other key of the table as it was, and the table
/// stays settable; every other top-level table is left as it was.
#[verifier::external_body]
fn toml_set_str(content: &str, table: &str, key: &str, value: &str) -> (r: String)
    requires
        toml_settable(content@, table@),
    ensures
        r@ == toml_with_str(content@, table@, key@, value@),
        toml_str_at(r@, table@, key@) == Some(value@),
        toml_settable(r@, table@),
        forall|k: Seq<char>|
            k != key@ ==> toml_bool_at(r@, table@, k) == toml_bool_at(content@, table@, k)
                && toml_str_at(r@, table@, k) == toml_str_at(content@, table@, k),
        forall|t: Seq<char>, k: Seq<char>|
            t != table@ ==> toml_bool_at(r@, t, k) == toml_bool_at(content@, t, k)
                && toml_str_at(r@, t, k) == toml_str_at(content@, t, k),
        forall|t: Seq<char>| t != table@ ==> toml_settable(r@, t) == toml_settable(content@, t),
{
    let mut doc: toml_edit::DocumentMut = content.parse().unwrap_or_default();
    let t = doc.entry(table).or_insert_with(|| toml_edit::Item::Table(toml_edit::Table::new()));
    t[key] = toml_edit::value(value);
    doc.to_string()
}

fn text_string(s: &str) -> (r: String)
    ensures
        r@ == s@,
{
    text::string_of(&text::chars_of(s))
}

// ---------------------------------------------------------------------------
// Auto-update settings
// ---------------------------------------------------------------------------
/// The auto-update settings a `ctrl.toml` holds: `[auto-update]` `enabled`
/// (default on), `channel` (default `stable`) and `time` (default `04:00`);
/// the interval is always daily.
pub open spec fn auto_update_matches(r: AutoUpdateConfig, content: Seq<char>) -> bool {
    &&& r.enabled == match toml_bool_at(content, "auto-update"@, "enabled"@) {
        Some(b) => b,
        None => true,
    }
    &&& r.channel@ == match toml_str_at(content, "auto-update"@, "channel"@) {
        Some(s) => s,
        None => "stable"@,
    }
    &&& r.time@ == match toml_str_at(content, "auto-update"@, "time"@) {
        Some(s) => s,
        None => "04:00"@,
    }
    &&& r.interval@ == "daily"@
}

/// Reads the auto-update settings from the content of `ctrl.toml`.
pub fn auto_update_config_from(content: &str) -> (r: AutoUpdateConfig)
    ensures
        auto_update_matches(r, content@),
{
    let enabled = match toml_bool(content, "auto-update", "enabled") {
        Some(b) => b,
        None => true,
    };
    let channel = match toml_str(content, "auto-update", "channel") {
        Some(s) => s,
        None => text_string("stable"),
    };
    let time = match toml_str(content, "auto-update", "time") {
        Some(s) => s,
        None => text_string("04:00"),
    };
    AutoUpdateConfig { enabled, channel, interval: text_string("daily"), time }
}

/// The text written for auto-update settings: `enabled`, `channel` and
/// `time` set in turn in the `[auto-update]` table; read back, the table
/// holds the settings and can still be written.
pub open spec fn auto_update_written(content: Seq<char>, config: AutoUpdateConfig, w: Seq<char>) -> bool {
    &&& w == toml_with_str(
        toml_with_str(
            toml_with_bool(content, "auto-update"@, "enabled"@, config.enabled),
            "auto-update"@,
            "channel"@,
            config.channel@,
        ),
        "auto-update"@,
        "time"@,
        config.time@,
    )
    &&& toml_settable(w, "auto-update"@)
    &&& toml_bool_at(w, "auto-update"@, "enabled"@) == Some(config.enabled)
    &&& toml_str_at(w, "auto-update"@, "channel"@) == Some(config.channel@)
    &&& toml_str_at(w, "auto-update"@, "time"@) == Some(config.time@)
    &&& forall|t: Seq<char>, k: Seq<char>|
        t != "auto-update"@ ==> toml_bool_at(w, t, k) == toml_bool_at(content, t, k)
            && toml_str_at(w, t, k) == toml_str_at(content, t, k)
    &&& forall|t: Seq<char>| t != "auto-update"@ ==> toml_settable(w, t) == toml_settable(content, t)
}

/// The content of `ctrl.toml` with the auto-update settings written into its
/// `[auto-update]` table (`enabled`, `channel`, `time`).
pub fn auto_update_toml(content: &str, config: &AutoUpdateConfig) -> (r: String)
    requires
        toml_settable(content@, "auto-update"@),
    ensures
        auto_update_written(content@, *config, r@),
{
    proof {
        reveal_strlit("enabled");
        reveal_strlit("channel");
        reveal_strlit("time");
    }
    let a = toml_set_bool(content, "auto-update", "enabled", config.enabled);
    let b = toml_set_str(a.as_str(), "auto-update", "channel", config.channel.as_str());
    let c = toml_set_str(b.as_str(), "auto-update", "time", config.time.as_str());
    assert("enabled"@[0] != "channel"@[0]);
    assert("enabled"@ != "channel"@);
    assert("enabled"@.len() != "time"@.len());
    assert("channel"@.len() != "time"@.len());
    c
}

/// The content of `ctrl.toml` with the auto-update settings written, or
/// `None` when its `auto-update` entry is no table (writing it would fail).
pub fn try_auto_update_toml(content: &str, config: &AutoUpdateConfig) -> (r: Option<String>)
    ensures
        toml_settable(content@, "auto-update"@) ==> (r matches Some(s) && auto_update_written(
            content@,
            *config,
            s@,
        )),
        !toml_settable(content@, "auto-update"@) ==> r is None,
{
    if toml_can_set(content, "auto-update") {
        Some(auto_update_toml(content, config))
    } else {
        None
    }
}

/// Writing auto-update settings into `ctrl.toml` and reading them back gives
/// the settings written (the interval is always daily).
pub proof fn law_auto_update_roundtrip(content: Seq<char>, config: AutoUpdateConfig, written: Seq<char>, read: AutoUpdateConfig)
    requires
        auto_update_written(content, config, written),
        auto_update_matches(read, written),
    ensures
        read.enabled == config.enabled,
        read.channel@ == config.channel@,
        read.time@ == config.time@,
        read.interval@ == "daily"@,
{
}

// ---------------------------------------------------------------------------
// Optional services
// ---------------------------------------------------------------------------
/// Whether each optional service is to run. `snapdog-ctrl` alone starts and
/// stops them; none is enabled in systemd.
pub struct ServiceStates {
    pub ssh: bool,
    pub client: bool,
    pub server: bool,
}

/// The names of the optional services, in the order they are applied.
pub open spec fn is_service_name(name: Seq<char>) -> bool {
    name == "ssh"@ || name == "client"@ || name == "server"@
}

/// The systemd unit of an optional service.
pub open spec fn unit_of(name: Seq<char>) -> Option<Seq<char>> {
    if name == "ssh"@ {
        Some("sshd.service"@)
    } else if name == "client"@ {
        Some("snapdog-client.service"@)
    } else if name == "server"@ {
        Some("snapdog.service"@)
    } else {
        None
    }
}

/// The state `ctrl.toml` gives a service: `[services]` `name` when it is a
/// boolean, else the default (only the client runs by default).
pub open spec fn service_state(content: Seq<char>, name: Seq<char>) -> bool {
    match toml_bool_at(content, "services"@, name) {
        Some(b) => b,
        None => name == "client"@,
    }
}

impl ServiceStates {
    /// The state of the service called `name`, if there is one.
    pub open spec fn state_of(self, name: Seq<char>) -> Option<bool> {
        if name == "ssh"@ {
            Some(self.ssh)
        } else if name == "client"@ {
            Some(self.client)
        } else if name == "server"@ {
            Some(self.server)
        } else {
            None
        }
    }

    /// The state of the service called `name`; `None` for an unknown name.
    pub fn get(&self, name: &str) -> (r: Option<bool>)
        ensures
            r == self.state_of(name@),
    {
        let n = text::chars_of(name);
        if text::is_text(&n, "ssh") {
            Some(self.ssh)
        } else if text::is_text(&n, "client") {
            Some(self.client)
        } else if text::is_text(&n, "server") {
            Some(self.server)
        } else {
            None
        }
    }
}

/// The service states that `ctrl.toml` holds, with their defaults.
pub fn service_config_from(content: &str) -> (r: ServiceStates)
    ensures
        r.ssh == service_state(content@, "ssh"@),
        r.client == service_state(content@, "client"@),
        r.server == service_state(content@, "server"@),
{
    proof {
        reveal_strlit("ssh");
        reveal_strlit("client");
        reveal_strlit("server");
    }
    let ssh = match toml_bool(content, "services", "ssh") {
        Some(b) => b,
        None => false,
    };
    let client = match toml_bool(content, "services", "client") {
        Some(b) => b,
        None => true,
    };
    let server = match toml_bool(content, "services", "server") {
        Some(b) => b,
        None => false,
    };
    assert("ssh"@.len() != "client"@.len());
    assert("server"@[1] != "client"@[1]);
    ServiceStates { ssh, client, server }
}

/// The systemd unit of the service called `name`; `None` for an unknown name.
pub fn service_unit(name: &str) -> (r: Option<&'static str>)
    ensures
        match r {
            Some(u) => unit_of(name@) == Some(u@),
            None => unit_of(name@) is None,
        },
{
    let n = text::chars_of(name);
    if text::is_text(&n, "ssh") {
        Some("sshd.service")
    } else if text::is_text(&n, "client") {
        Some("snapdog-client.service")
    } else if text::is_text(&n, "server") {
        Some("snapdog.service")
    } else {
        None
    }
}

/// The `systemctl` verbs that bring a unit to a state: `unmask` then `start`
/// to run it, `stop` otherwise.
pub fn systemctl_verbs(enabled: bool) -> (r: Vec<&'static str>)
    ensures
        enabled ==> r@.len() == 2 && r@[0]@ == "unmask"@ && r@[1]@ == "start"@,
        !enabled ==> r@.len() == 1 && r@[0]@ == "stop"@,
{
    if enabled {
        vec!["unmask", "start"]
    } else {
        vec!["stop"]
    }
}

/// Each optional unit with the state it is to be brought to, in the order
/// `ssh`, `client`, `server`.
pub fn service_plan(states: &ServiceStates) -> (r: Vec<(&'static str, bool)>)
    ensures
        r@.len() == 3,
        r@[0].0@ == "sshd.service"@ && r@[0].1 == states.ssh,
        r@[1].0@ == "snapdog-client.service"@ && r@[1].1 == states.client,
        r@[2].0@ == "snapdog.service"@ && r@[2].1 == states.server,
{
    vec![
        ("sshd.service", states.ssh),
        ("snapdog-client.service", states.client),
        ("snapdog.service", states.server),
    ]
}

/// The text written for a service state: `[services]` `name` set to
/// `enabled`; read back, the file holds that state for `name`, every other
/// key of the table as it was, and the table can still be written.
pub open spec fn service_written(content: Seq<char>, name: Seq<char>, enabled: bool, w: Seq<char>) -> bool {
    &&& w == toml_with_bool(content, "services"@, name, enabled)
    &&& toml_bool_at(w, "services"@, name) == Some(enabled)
    &&& toml_settable(w, "services"@)
    &&& forall|k: Seq<char>|
        k != name ==> toml_bool_at(w, "services"@, k) == toml_bool_at(content, "services"@, k)
    &&& forall|t: Seq<char>, k: Seq<char>|
        t != "services"@ ==> toml_bool_at(w, t, k) == toml_bool_at(content, t, k)
            && toml_str_at(w, t, k) == toml_str_at(content, t, k)
    &&& forall|t: Seq<char>| t != "services"@ ==> toml_settable(w, t) == toml_settable(content, t)
}

/// The content of `ctrl.toml` with `[services]` `name` set to `enabled`.
pub fn service_toml(content: &str, name: &str, enabled: bool) -> (r: String)
    requires
        toml_settable(content@, "services"@),
    ensures
        service_written(content@, name@, enabled, r@),
{
    toml_set_bool(content, "services", name, enabled)
}

/// The unit of the service called `name` and the content of `ctrl.toml` with
/// its state written. An unknown name is refused; `None` when the `services`
/// entry of the file is no table (writing into it would fail).
pub fn set_service_toml(content: &str, name: &str, enabled: bool) -> (r: Result<
    Option<(&'static str, String)>,
    CtrlError,
>)
    ensures
        unit_of(name@) is None ==> (r matches Err(CtrlError::UnknownService { name: n }) && n@
            == name@),
        unit_of(name@) is Some && !toml_settable(content@, "services"@) ==> r matches Ok(None),
        unit_of(name@) is Some && toml_settable(content@, "services"@) ==> (r matches Ok(Some((u, w)))
            && unit_of(name@) == Some(u@) && service_written(content@, name@, enabled, w@)),
{
    match service_unit(name) {
        None => Err(CtrlError::UnknownService { name: text::string_of(&text::chars_of(name)) }),
        Some(u) => {
            if toml_can_set(content, "services") {
                Ok(Some((u, service_toml(content, name, enabled))))
            } else {
                Ok(None)
            }
        },
    }
}

/// Setting a service in `ctrl.toml` and reading the file back gives the
/// state set for that service and leaves the other services as they were.
pub proof fn law_service_roundtrip(content: Seq<char>, name: Seq<char>, enabled: bool, written: Seq<char>)
    requires
        is_service_name(name),
        service_written(content, name, enabled, written),
    ensures
        service_state(written, name) == enabled,
        forall|other: Seq<char>|
            is_service_name(other) && other != name ==> service_state(written, other) == service_state(content, other),
{
}

/// Writing the auto-update settings into `ctrl.toml` leaves the services as
/// they were, and writing a service's state leaves the auto-update settings
/// as they were.
pub proof fn law_settings_tables_independent(
    content: Seq<char>,
    config: AutoUpdateConfig,
    written: Seq<char>,
    name: Seq<char>,
    enabled: bool,
    written_service: Seq<char>,
    read: AutoUpdateConfig,
    read_before: AutoUpdateConfig,
)
    requires
        auto_update_written(content, config, written),
        service_written(content, name, enabled, written_service),
        auto_update_matches(read, written_service),
        auto_update_matches(read_before, content),
    ensures
        forall|n: Seq<char>| is_service_name(n) ==> service_state(written, n) == service_state(content, n),
        toml_settable(written, "services"@) == toml_settable(content, "services"@),
        read.enabled == read_before.enabled,
        read.channel@ == read_before.channel@,
        read.time@ == read_before.time@,
{
    reveal_strlit("services");
    reveal_strlit("auto-update");
    assert("services"@ != "auto-update"@) by {
        assert("services"@.len() != "auto-update"@.len());
    }
}

} // verus!
