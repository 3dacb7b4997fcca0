//! What the controller reports about the host: versions, uptime, the update
//! channel file, SSH keys, journal queries, time zones and sound cards.
use vstd::prelude::*;
use crate::text;
use crate::api::{ComponentVersions, SystemInfo};
use crate::error::CtrlError;

verus! {

fn text_string(s: &str) -> (r: String)
    ensures
        r@ == s@,
{
    text::string_of(&text::chars_of(s))
}

fn trimmed(s: &str) -> (r: String)
    ensures
        r@ == text::trim(s@),
{
    text::string_of(&text::trim_str(s))
}

/// The first whitespace-separated word of `s`, or the empty text.
pub open spec fn first_word(s: Seq<char>) -> Seq<char> {
    let ws = text::words(s);
    if ws.len() > 0 {
        ws[0]
    } else {
        seq![]
    }
}

/// The last whitespace-separated word of `s`, or the empty text.
pub open spec fn last_word(s: Seq<char>) -> Seq<char> {
    let ws = text::words(s);
    if ws.len() > 0 {
        ws.last()
    } else {
        seq![]
    }
}

/// Whole seconds of uptime in `/proc/uptime`: its first field up to the
/// first `'.'`, read as a `u64`; 0 when that does not parse.
pub open spec fn uptime_of(content: Seq<char>) -> nat {
    match text::parse_unsigned(text::split_char(first_word(content), '.')[0], u64::MAX as nat) {
        Some(n) => n,
        None => 0,
    }
}

/// The uptime in seconds that `/proc/uptime` gives.
pub fn parse_uptime(content: &str) -> (r: u64)
    ensures
        r == uptime_of(content@),
{
    let ws = text::split_words(&text::chars_of(content));
    let first: Vec<char> = if ws.len() > 0 {
        text::copy_chars(&ws[0])
    } else {
        Vec::new()
    };
    proof {
        if ws.len() > 0 {
            text::lemma_deep_view_chars(&ws@[0]);
            assert(first@ == ws.deep_view()[0]);
        }
        assert(first@ == first_word(content@));
        text::lemma_split_char_nonempty(first@, '.');
    }
    let pieces = text::split_on(&first, '.');
    proof {
        text::lemma_deep_view_chars(&pieces@[0]);
    }
    match text::parse_u64_chars(&pieces[0]) {
        Some(n) => n,
        None => 0,
    }
}

/// `/proc/uptime` holding `N.F I` (seconds with a fraction, then the idle
/// time) gives the whole seconds `N`.
pub proof fn law_uptime_whole_seconds(n: nat, frac: Seq<char>, idle: Seq<char>)
    requires
        n <= u64::MAX,
        frac.len() > 0,
        text::all_digits(frac),
        idle.len() > 0,
        forall|i: int| 0 <= i < idle.len() ==> !text::is_ws(#[trigger] idle[i]),
    ensures
        uptime_of(text::decimal(n) + seq!['.'] + frac + seq![' '] + idle) == n,
{
    let d = text::decimal(n);
    text::lemma_decimal_roundtrip(n);
    let first = d + seq!['.'] + frac;
    assert forall|i: int| 0 <= i < first.len() implies !text::is_ws(#[trigger] first[i]) by {
        if i < d.len() {
            assert(first[i] == d[i]);
            assert(text::is_digit(d[i]));
        } else if i > d.len() {
            assert(first[i] == frac[i - d.len() - 1]);
            assert(text::is_digit(frac[i - d.len() - 1]));
        }
    }
    crate::system::lemma_two_words(first, idle);
    assert(first_word(first + seq![' '] + idle) == first);
    assert forall|i: int| 0 <= i < d.len() implies first[i] != '.' by {
        assert(first[i] == d[i]);
        assert(text::is_digit(d[i]));
    }
    text::lemma_find_char_found(first, '.', d.len() as int);
    assert(first.take(d.len() as int) =~= d);
    assert(text::split_char(first, '.')[0] == d);
    assert(text::is_digit(d[0]));
    assert(text::unsigned_digits(d) == d);
}

/// The Raspberry Pi generation in `/etc/raspberrypi.version`: its trimmed
/// content read as a `u8`, 4 when that does not parse.
pub open spec fn pi_version_of(content: Seq<char>) -> nat {
    match text::parse_unsigned(text::trim(content), 255) {
        Some(n) => n,
        None => 4,
    }
}

/// The Raspberry Pi generation that `/etc/raspberrypi.version` gives.
pub fn parse_pi_version(content: &str) -> (r: u8)
    ensures
        r == pi_version_of(content@),
{
    match text::parse_u8_chars(&text::trim_str(content)) {
        Some(n) => n,
        None => 4,
    }
}

/// The version that `snapdog-client --version` prints: its last word.
pub fn client_version(output: &str) -> (r: String)
    ensures
        r@ == last_word(output@),
{
    let ws = text::split_words(&text::chars_of(output));
    if ws.len() > 0 {
        proof {
            text::lemma_deep_view_chars(&ws@[ws.len() - 1]);
        }
        text::string_of(&ws[ws.len() - 1])
    } else {
        String::new()
    }
}

/// The content of the channel file as read, or `stable` when it could not be
/// read.
pub open spec fn channel_or_stable(channel_file: Option<Seq<char>>) -> Seq<char> {
    match channel_file {
        Some(c) => c,
        None => "stable"@,
    }
}

/// The system overview from what the host's files and commands gave:
/// `/etc/hostname`, `/etc/snapdog-os.version`, `/etc/snapdog-os.channel`
/// (`None` when unreadable), `/proc/uptime`, `uname -r`,
/// `snapdog-client --version`, `/etc/raspberrypi.version` and the
/// controller's own version. The server and the client share one version.
pub fn system_info(
    hostname_file: &str,
    version_file: &str,
    channel_file: Option<&str>,
    uptime_file: &str,
    kernel_output: &str,
    client_output: &str,
    pi_file: &str,
    ctrl_version: &str,
) -> (r: SystemInfo)
    ensures
        r.hostname@ == text::trim(hostname_file@),
        r.version@ == text::trim(version_file@),
        r.channel@ == text::trim(
            channel_or_stable(
                match channel_file {
                    Some(c) => Some(c@),
                    None => None,
                },
            ),
        ),
        r.uptime_seconds == uptime_of(uptime_file@),
        r.pi_version == pi_version_of(pi_file@),
        r.components.server@ == last_word(client_output@),
        r.components.client@ == last_word(client_output@),
        r.components.ctrl@ == ctrl_version@,
        r.components.kernel@ == text::trim(kernel_output@),
{
    let channel = match channel_file {
        Some(c) => trimmed(c),
        None => trimmed("stable"),
    };
    let client = client_version(client_output);
    let server = client_version(client_output);
    SystemInfo {
        hostname: trimmed(hostname_file),
        version: trimmed(version_file),
        channel,
        uptime_seconds: parse_uptime(uptime_file),
        pi_version: parse_pi_version(pi_file),
        components: ComponentVersions {
            server,
            client,
            ctrl: text_string(ctrl_version),
            kernel: trimmed(kernel_output),
        },
    }
}

/// The update channels a device can follow.
pub open spec fn is_channel(c: Seq<char>) -> bool {
    c == "stable"@ || c == "beta"@
}

/// The content written to `/etc/snapdog-os.channel` for a channel: the name
/// and a line break. Only `stable` and `beta` are accepted.
pub fn channel_file(channel: &str) -> (r: Result<String, CtrlError>)
    ensures
        is_channel(channel@) ==> (r matches Ok(s) && s@ == channel@ + seq!['\n']),
        !is_channel(channel@) ==> r matches Err(CtrlError::InvalidChannel),
{
    let c = text::chars_of(channel);
    if text::is_text(&c, "stable") || text::is_text(&c, "beta") {
        let mut out = text::copy_chars(&c);
        out.push('\n');
        Ok(text::string_of(&out))
    } else {
        Err(CtrlError::InvalidChannel)
    }
}

// ---------------------------------------------------------------------------
// SSH keys
// ---------------------------------------------------------------------------
/// The lines that hold more than whitespace, in order.
pub open spec fn non_blank(ls: Seq<Seq<char>>) -> Seq<Seq<char>>
    decreases ls.len(),
{
    if ls.len() == 0 {
        seq![]
    } else if text::trim(ls.last()).len() > 0 {
        non_blank(ls.drop_last()).push(ls.last())
    } else {
        non_blank(ls.drop_last())
    }
}

/// The public keys listed in an `authorized_keys` file: its lines that hold
/// more than whitespace.
pub open spec fn key_lines(content: Seq<char>) -> Seq<Seq<char>> {
    non_blank(text::lines(content))
}

/// The `authorized_keys` file for a list of keys: one key per line, each
/// line ended by `'\n'`.
pub open spec fn keys_text(keys: Seq<Seq<char>>) -> Seq<char> {
    text::join(keys, "\n"@) + seq!['\n']
}

fn strings_of(v: &Vec<Vec<char>>) -> (r: Vec<String>)
    ensures
        r.deep_view() == v.deep_view(),
{
    let mut r: Vec<String> = Vec::new();
    let mut i: usize = 0;
    while i < v.len()
        invariant
            i <= v.len(),
            r.deep_view() == v.deep_view().take(i as int),
        decreases v.len() - i,
    {
        let s = text::string_of(&v[i]);
        proof {
            text::lemma_deep_view_chars(&v@[i as int]);
        }
        let ghost before = r.deep_view();
        r.push(s);
        proof {
            assert(r.deep_view() =~= before.push(v@[i as int]@));
            assert(v.deep_view().take(i + 1) =~= v.deep_view().take(i as int).push(
                v@[i as int]@,
            ));
        }
        i = i + 1;
    }
    assert(v.deep_view().take(i as int) =~= v.deep_view());
    r
}

/// The public keys that an `authorized_keys` file lists.
pub fn authorized_keys(content: &str) -> (r: Vec<String>)
    ensures
        r.deep_view() == key_lines(content@),
{
    let ls = text::split_lines(&text::chars_of(content));
    let mut keep: Vec<Vec<char>> = Vec::new();
    let mut i: usize = 0;
    while i < ls.len()
        invariant
            i <= ls.len(),
            keep.deep_view() == non_blank(ls.deep_view().take(i as int)),
        decreases ls.len() - i,
    {
        let t = text::trim_chars(&ls[i]);
        proof {
            text::lemma_deep_view_chars(&ls@[i as int]);
            let d = ls.deep_view();
            assert(d.take(i + 1).drop_last() =~= d.take(i as int));
            assert(d.take(i + 1).last() == ls@[i as int]@);
        }
        if t.len() > 0 {
            let line = text::copy_chars(&ls[i]);
            proof {
                text::lemma_deep_view_chars(&line);
            }
            keep.push(line);
            proof {
                assert(keep.deep_view() =~= non_blank(ls.deep_view().take(i as int)).push(
                    ls@[i as int]@,
                ));
            }
        }
        i = i + 1;
    }
    assert(ls.deep_view().take(i as int) =~= ls.deep_view());
    strings_of(&keep)
}

/// The content of `authorized_keys` for a list of keys.
pub fn authorized_keys_content(keys: &Vec<String>) -> (r: String)
    ensures
        r@ == keys_text(keys.deep_view()),
{
    let mut parts: Vec<Vec<char>> = Vec::new();
    let mut i: usize = 0;
    while i < keys.len()
        invariant
            i <= keys.len(),
            parts.deep_view() == keys.deep_view().take(i as int),
        decreases keys.len() - i,
    {
        let c = text::chars_of(keys[i].as_str());
        proof {
            text::lemma_deep_view_chars(&c);
        }
        let ghost before = parts.deep_view();
        parts.push(c);
        proof {
            assert(parts.deep_view() =~= before.push(keys@[i as int]@));
            assert(keys.deep_view().take(i + 1) =~= keys.deep_view().take(i as int).push(
                keys@[i as int]@,
            ));
        }
        i = i + 1;
    }
    assert(keys.deep_view().take(i as int) =~= keys.deep_view());
    let mut out = text::join_chars(&parts, "\n");
    out.push('\n');
    text::string_of(&out)
}

proof fn lemma_join_first(parts: Seq<Seq<char>>, sep: Seq<char>)
    requires
        parts.len() >= 2,
    ensures
        text::join(parts, sep) == parts[0] + sep + text::join(parts.drop_first(), sep),
    decreases parts.len(),
{
    assert(text::join(parts, sep) == text::join(parts.drop_last(), sep) + sep + parts.last());
    if parts.len() == 2 {
        assert(text::join(parts.drop_last(), sep) == parts.drop_last()[0]);
        assert(text::join(parts.drop_first(), sep) == parts.drop_first()[0]);
        assert(parts.drop_first()[0] == parts.last());
    } else {
        lemma_join_first(parts.drop_last(), sep);
        let d = parts.drop_first();
        assert(parts.drop_last().drop_first() =~= d.drop_last());
        assert(parts.drop_last()[0] == parts[0]);
        assert(d.last() == parts.last());
        assert(text::join(d, sep) == text::join(d.drop_last(), sep) + sep + d.last());
        let a = parts[0];
        let j = text::join(d.drop_last(), sep);
        assert(a + sep + j + sep + parts.last() =~= a + sep + (j + sep + parts.last()));
    }
}

proof fn lemma_lines_of_keys(keys: Seq<Seq<char>>)
    requires
        keys.len() >= 1,
        forall|i: int| 0 <= i < keys.len() ==> crate::network::single_line(#[trigger] keys[i]),
    ensures
        text::lines(keys_text(keys)) == keys.map_values(|k: Seq<char>| text::strip_cr(k)),
    decreases keys.len(),
{
    assert(crate::network::single_line(keys[0]));
    if keys.len() == 1 {
        assert(text::join(keys, "\n"@) == keys[0]);
        crate::network::lemma_lines_cons(keys[0], Seq::<char>::empty());
        assert(keys[0] + seq!['\n'] + Seq::<char>::empty() =~= keys_text(keys));
        assert(text::lines(Seq::<char>::empty()) =~= Seq::<Seq<char>>::empty());
        assert(seq![text::strip_cr(keys[0])] + Seq::<Seq<char>>::empty() =~= keys.map_values(
            |k: Seq<char>| text::strip_cr(k),
        ));
    } else {
        let rest = keys.drop_first();
        assert forall|i: int| 0 <= i < rest.len() implies crate::network::single_line(
            #[trigger] rest[i],
        ) by {
            assert(rest[i] == keys[i + 1]);
        }
        lemma_lines_of_keys(rest);
        reveal_strlit("\n");
        lemma_join_first(keys, "\n"@);
        assert(keys_text(keys) =~= keys[0] + seq!['\n'] + keys_text(rest));
        crate::network::lemma_lines_cons(keys[0], keys_text(rest));
        assert(keys.map_values(|k: Seq<char>| text::strip_cr(k)) =~= seq![text::strip_cr(keys[0])]
            + rest.map_values(|k: Seq<char>| text::strip_cr(k)));
    }
}

proof fn lemma_non_blank_all(ls: Seq<Seq<char>>)
    requires
        forall|i: int| 0 <= i < ls.len() ==> text::trim(#[trigger] ls[i]).len() > 0,
    ensures
        non_blank(ls) == ls,
    decreases ls.len(),
{
    if ls.len() > 0 {
        assert(text::trim(ls[ls.len() - 1]).len() > 0);
        let d = ls.drop_last();
        assert forall|i: int| 0 <= i < d.len() implies text::trim(#[trigger] d[i]).len() > 0 by {
            assert(d[i] == ls[i]);
        }
        lemma_non_blank_all(d);
        assert(d.push(ls.last()) =~= ls);
    }
}

/// Writing a list of keys to `authorized_keys` and reading the file back
/// gives the same list, when each key is one line that holds more than
/// whitespace and does not end in a carriage return.
pub proof fn law_authorized_keys_roundtrip(keys: Seq<Seq<char>>)
    requires
        forall|i: int|
            0 <= i < keys.len() ==> {
                &&& crate::network::single_line(#[trigger] keys[i])
                &&& text::strip_cr(keys[i]) == keys[i]
                &&& text::trim(keys[i]).len() > 0
            },
    ensures
        key_lines(keys_text(keys)) == keys,
{
    if keys.len() == 0 {
        assert(keys_text(keys) =~= seq!['\n']);
        crate::network::lemma_lines_cons(Seq::<char>::empty(), Seq::<char>::empty());
        assert(Seq::<char>::empty() + seq!['\n'] + Seq::<char>::empty() =~= seq!['\n']);
        assert(text::lines(Seq::<char>::empty()) =~= Seq::<Seq<char>>::empty());
        let ls = text::lines(keys_text(keys));
        assert(ls =~= seq![Seq::<char>::empty()]);
        assert(text::trim(Seq::<char>::empty()) =~= Seq::<char>::empty());
        assert(ls.last() =~= Seq::<char>::empty());
        assert(ls.drop_last() =~= Seq::<Seq<char>>::empty());
        assert(non_blank(ls.drop_last()) =~= Seq::<Seq<char>>::empty());
        assert(non_blank(ls) =~= keys);
    } else {
        assert forall|i: int| 0 <= i < keys.len() implies crate::network::single_line(
            #[trigger] keys[i],
        ) by {}
        lemma_lines_of_keys(keys);
        assert(keys.map_values(|k: Seq<char>| text::strip_cr(k)) =~= keys);
        lemma_non_blank_all(keys);
    }
}

// ---------------------------------------------------------------------------
// Command output
// ---------------------------------------------------------------------------
/// The lines of a command's output.
pub fn output_lines(output: &str) -> (r: Vec<String>)
    ensures
        r.deep_view() == text::lines(output@),
{
    strings_of(&text::split_lines(&text::chars_of(output)))
}

/// The lines that begin with `prefix`, in order.
pub open spec fn lines_starting(ls: Seq<Seq<char>>, prefix: Seq<char>) -> Seq<Seq<char>>
    decreases ls.len(),
{
    if ls.len() == 0 {
        seq![]
    } else if text::starts_with(ls.last(), prefix) {
        lines_starting(ls.drop_last(), prefix).push(ls.last())
    } else {
        lines_starting(ls.drop_last(), prefix)
    }
}

/// The sound cards that `aplay -l` lists: its lines that begin with `card `.
pub fn soundcards(output: &str) -> (r: Vec<String>)
    ensures
        r.deep_view() == lines_starting(text::lines(output@), "card "@),
{
    let ls = text::split_lines(&text::chars_of(output));
    let mut keep: Vec<Vec<char>> = Vec::new();
    let mut i: usize = 0;
    while i < ls.len()
        invariant
            i <= ls.len(),
            keep.deep_view() == lines_starting(ls.deep_view().take(i as int), "card "@),
        decreases ls.len() - i,
    {
        proof {
            text::lemma_deep_view_chars(&ls@[i as int]);
            let d = ls.deep_view();
            assert(d.take(i + 1).drop_last() =~= d.take(i as int));
            assert(d.take(i + 1).last() == ls@[i as int]@);
        }
        if text::starts_with_text(&ls[i], "card ") {
            let line = text::copy_chars(&ls[i]);
            proof {
                text::lemma_deep_view_chars(&line);
            }
            let ghost before = keep.deep_view();
            keep.push(line);
            proof {
                assert(keep.deep_view() =~= before.push(ls@[i as int]@));
            }
        }
        i = i + 1;
    }
    assert(ls.deep_view().take(i as int) =~= ls.deep_view());
    strings_of(&keep)
}

/// The units whose journal a log query shows: `snapdog` for `server`,
/// `snapdog-client` for `client`, `snapdog-ctrl` for `controller`, all three
/// for anything else.
pub open spec fn journal_units(service: Option<Seq<char>>) -> Seq<Seq<char>> {
    match service {
        Some(s) => if s == "server"@ {
            seq!["snapdog"@]
        } else if s == "client"@ {
            seq!["snapdog-client"@]
        } else if s == "controller"@ {
            seq!["snapdog-ctrl"@]
        } else {
            seq!["snapdog"@, "snapdog-client"@, "snapdog-ctrl"@]
        },
        None => seq!["snapdog"@, "snapdog-client"@, "snapdog-ctrl"@],
    }
}

/// `-u UNIT` for each unit, in order.
pub open spec fn unit_args(units: Seq<Seq<char>>) -> Seq<Seq<char>>
    decreases units.len(),
{
    if units.len() == 0 {
        seq![]
    } else {
        unit_args(units.drop_last()) + seq!["-u"@, units.last()]
    }
}

/// The arguments of `journalctl` for a log query: the last 200 entries, no
/// pager, ISO timestamps, and the units of the query.
pub open spec fn journal_args_of(service: Option<Seq<char>>) -> Seq<Seq<char>> {
    seq!["--no-pager"@, "-n"@, "200"@, "--output"@, "short-iso"@] + unit_args(
        journal_units(service),
    )
}

/// The arguments of `journalctl` for a log query.
pub fn journal_args(service: Option<&str>) -> (r: Vec<&'static str>)
    ensures
        r@.map_values(|a: &'static str| a@) == journal_args_of(
            match service {
                Some(s) => Some(s@),
                None => None,
            },
        ),
{
    let ghost sv = match service {
        Some(s) => Some(s@),
        None => None,
    };
    let mut args: Vec<&'static str> = vec!["--no-pager", "-n", "200", "--output", "short-iso"];
    let units: Vec<&'static str> = match service {
        Some(s) => {
            let n = text::chars_of(s);
            if text::is_text(&n, "server") {
                vec!["snapdog"]
            } else if text::is_text(&n, "client") {
                vec!["snapdog-client"]
            } else if text::is_text(&n, "controller") {
                vec!["snapdog-ctrl"]
            } else {
                vec!["snapdog", "snapdog-client", "snapdog-ctrl"]
            }
        },
        None => vec!["snapdog", "snapdog-client", "snapdog-ctrl"],
    };
    assert(units@.map_values(|a: &'static str| a@) =~= journal_units(sv));
    let ghost base = args@.map_values(|a: &'static str| a@);
    assert(base =~= seq!["--no-pager"@, "-n"@, "200"@, "--output"@, "short-iso"@]);
    let mut i: usize = 0;
    while i < units.len()
        invariant
            i <= units.len(),
            units@.map_values(|a: &'static str| a@) == journal_units(sv),
            args@.map_values(|a: &'static str| a@) == base + unit_args(
                journal_units(sv).take(i as int),
            ),
        decreases units.len() - i,
    {
        let ghost u = journal_units(sv);
        let ghost before = args@.map_values(|a: &'static str| a@);
        args.push("-u");
        args.push(units[i]);
        proof {
            assert(u.take(i + 1).drop_last() =~= u.take(i as int));
            assert(u[i as int] == units@[i as int]@);
            assert(args@.map_values(|a: &'static str| a@) =~= before + seq!["-u"@, u[i as int]]);
            assert(base + unit_args(u.take(i as int)) + seq!["-u"@, u[i as int]] =~= base + (
            unit_args(u.take(i as int)) + seq!["-u"@, u[i as int]]));
        }
        i = i + 1;
    }
    assert(journal_units(sv).take(i as int) =~= journal_units(sv));
    args
}

/// The time zone `timedatectl` reports: its trimmed output, `UTC` when the
/// command could not run.
pub open spec fn timezone_of(output: Option<Seq<char>>) -> Seq<char> {
    match output {
        Some(o) => text::trim(o),
        None => "UTC"@,
    }
}

/// The current time zone and those available, from the output of
/// `timedatectl show --property=Timezone --value` (`None` when it could not
/// run) and of `timedatectl list-timezones`.
pub fn timezone_info(current_output: Option<&str>, list_output: &str) -> (r: crate::api::TimezoneInfo)
    ensures
        r.timezone@ == timezone_of(
            match current_output {
                Some(o) => Some(o@),
                None => None,
            },
        ),
        r.available.deep_view() == text::lines(list_output@),
{
    let timezone = match current_output {
        Some(o) => trimmed(o),
        None => text_string("UTC"),
    };
    crate::api::TimezoneInfo { timezone, available: output_lines(list_output) }
}

} // verus!
