//! Over-the-air updates: bundle locations, the daily schedule and the
//! auto-update cycle as a state machine.
use vstd::prelude::*;
use crate::text;
use crate::api::{AutoUpdateConfig, UpdateCheckResponse};

verus! {

/// Where update bundles are published.
pub open spec fn update_base_url() -> Seq<char> {
    "https://update.snapdog.cc/os/bundles"@
}

/// The bundle of a board on a channel: `BASE/BOARD.raucb` on the stable
/// channel, `BASE/BOARD-beta.raucb` on any other.
pub open spec fn bundle_url_text(board: Seq<char>, stable: bool) -> Seq<char> {
    update_base_url() + seq!['/'] + board + (if stable {
        seq![]
    } else {
        "-beta"@
    }) + ".raucb"@
}

fn bundle_url_for(board: &str, stable: bool) -> (r: String)
    ensures
        r@ == bundle_url_text(board@, stable),
{
    let mut out: Vec<char> = text::chars_of("https://update.snapdog.cc/os/bundles");
    out.push('/');
    text::push_str(&mut out, board);
    if !stable {
        text::push_str(&mut out, "-beta");
    }
    text::push_str(&mut out, ".raucb");
    assert(out@ =~= bundle_url_text(board@, stable));
    text::string_of(&out)
}

/// The bundle URL for `board` on `channel`.
pub fn bundle_url(board: &str, channel: &str) -> (r: String)
    ensures
        r@ == bundle_url_text(board@, channel@ == "stable"@),
{
    let c = text::chars_of(channel);
    bundle_url_for(board, text::is_text(&c, "stable"))
}

/// The board that RAUC's `system.conf` names: `pi5` or `pi3` where the file
/// mentions them (`pi5` first), `pi4` otherwise.
pub open spec fn board_of(system_conf: Seq<char>) -> Seq<char> {
    if text::contains(system_conf, "pi5"@) {
        "pi5"@
    } else if text::contains(system_conf, "pi3"@) {
        "pi3"@
    } else {
        "pi4"@
    }
}

/// The board named by the content of `/etc/rauc/system.conf`.
pub fn detect_board(system_conf: &str) -> (r: &'static str)
    ensures
        r@ == board_of(system_conf@),
{
    if text::str_contains(system_conf, "pi5") {
        "pi5"
    } else if text::str_contains(system_conf, "pi3") {
        "pi3"
    } else {
        "pi4"
    }
}

/// The update check answer: no update is announced; the current version is
/// the trimmed version file, `unknown` when that is empty.
pub fn update_check_response(version_file: &str, channel: String, board: &str) -> (r:
    UpdateCheckResponse)
    ensures
        !r.available,
        r.current_version@ == if text::trim(version_file@).len() == 0 {
            "unknown"@
        } else {
            text::trim(version_file@)
        },
        r.channel@ == channel@,
        r.bundle_url@ == bundle_url_text(board@, channel@ == "stable"@),
{
    let t = text::trim_str(version_file);
    let current = if t.len() == 0 {
        text::string_of(&text::chars_of("unknown"))
    } else {
        text::string_of(&t)
    };
    let url = bundle_url(board, channel.as_str());
    UpdateCheckResponse { available: false, current_version: current, channel, bundle_url: url }
}

// ---------------------------------------------------------------------------
// The schedule
// ---------------------------------------------------------------------------
/// The hour and minute of an `HH:MM` setting; a part that is no number
/// counts as 4 for the hour and 0 for the minute.
pub open spec fn schedule_of(s: Seq<char>) -> (nat, nat) {
    let parts = text::split_char(s, ':');
    (
        match text::parse_unsigned(parts[0], u64::MAX as nat) {
            Some(h) => h,
            None => 4,
        },
        if parts.len() > 1 {
            match text::parse_unsigned(parts[1], u64::MAX as nat) {
                Some(m) => m,
                None => 0,
            }
        } else {
            0
        },
    )
}

/// A time written as `H:M` in decimal reads back as hour `H` and minute `M`.
pub proof fn law_time_reads_hour_and_minute(h: nat, m: nat)
    requires
        h <= u64::MAX,
        m <= u64::MAX,
    ensures
        schedule_of(text::decimal(h) + seq![':'] + text::decimal(m)) == (h, m),
{
    let d1 = text::decimal(h);
    let d2 = text::decimal(m);
    let s = d1 + seq![':'] + d2;
    text::lemma_decimal_roundtrip(h);
    text::lemma_decimal_roundtrip(m);
    assert forall|k: int| 0 <= k < d1.len() implies s[k] != ':' by {
        assert(s[k] == d1[k]);
        assert(text::is_digit(d1[k]));
    }
    assert(s[d1.len() as int] == ':');
    text::lemma_find_char_found(s, ':', d1.len() as int);
    assert(s.take(d1.len() as int) =~= d1);
    assert(s.skip(d1.len() as int + 1) =~= d2);
    assert forall|k: int| 0 <= k < d2.len() implies d2[k] != ':' by {
        assert(text::is_digit(d2[k]));
    }
    text::lemma_find_char_absent(d2, ':');
    let parts = text::split_char(s, ':');
    assert(parts == seq![d1] + text::split_char(d2, ':'));
    assert(text::split_char(d2, ':') == seq![d2]);
    assert(parts[0] == d1);
    assert(parts[1] == d2);
    assert(text::is_digit(d1[0]));
    assert(text::unsigned_digits(d1) == d1);
    assert(text::is_digit(d2[0]));
    assert(text::unsigned_digits(d2) == d2);
}

/// Reads an `HH:MM` time of day.
pub fn parse_time(s: &str) -> (r: (u64, u64))
    ensures
        r.0 == schedule_of(s@).0,
        r.1 == schedule_of(s@).1,
{
    let v = text::chars_of(s);
    let parts = text::split_on(&v, ':');
    proof {
        text::lemma_split_char_nonempty(v@, ':');
        text::lemma_deep_view_chars(&parts@[0]);
        if parts.len() > 1 {
            text::lemma_deep_view_chars(&parts@[1]);
        }
    }
    let h = match text::parse_u64_chars(&parts[0]) {
        Some(h) => h,
        None => 4,
    };
    let m = if parts.len() > 1 {
        match text::parse_u64_chars(&parts[1]) {
            Some(m) => m,
            None => 0,
        }
    } else {
        0
    };
    (h, m)
}

/// Minutes since midnight (UTC) at `secs` seconds after the epoch.
pub fn minutes_of_day(secs: u64) -> (r: u64)
    ensures
        r == (secs / 60) % 1440,
        r < 1440,
{
    (secs / 60) % 1440
}

/// Seconds since the Unix epoch by the system clock (0 if the clock is set
/// before the epoch). Nothing is claimed of the value: it is the time.
#[verifier::external_body]
fn unix_time_secs() -> u64 {
    std::time::SystemTime::now().duration_since(std::time::UNIX_EPOCH).unwrap_or_default().as_secs()
}

/// Minutes since midnight (UTC) by the system clock.
pub fn chrono_now() -> (r: u64)
    ensures
        r < 1440,
{
    minutes_of_day(unix_time_secs())
}

/// The scheduled minute has come when hour and minute of `now` (minutes
/// since midnight) are those of the schedule.
pub open spec fn at_schedule(now: nat, hour: nat, minute: nat) -> bool {
    (now / 60) % 24 == hour && now % 60 == minute
}

pub fn is_schedule_reached(now: u64, hour: u64, minute: u64) -> (r: bool)
    ensures
        r == at_schedule(now as nat, hour as nat, minute as nat),
{
    (now / 60) % 24 == hour && now % 60 == minute
}

// ---------------------------------------------------------------------------
// Versions
// ---------------------------------------------------------------------------
/// Whether a character belongs to the release numbers of a version text.
pub open spec fn is_core_char(c: char) -> bool {
    text::is_digit(c) || c == '.'
}

/// Length of the release numbers at the front of a version text (its leading
/// run of digits and dots: 3 of `1.2-beta`).
pub open spec fn core_len(v: Seq<char>) -> nat
    decreases v.len(),
{
    if v.len() > 0 && is_core_char(v[0]) {
        1 + core_len(v.drop_first())
    } else {
        0
    }
}

/// The value of one release number; a piece that is no `u64` counts as 0.
pub open spec fn number_of(piece: Seq<char>) -> nat {
    match text::parse_unsigned(piece, u64::MAX as nat) {
        Some(n) => n,
        None => 0,
    }
}

/// The release numbers of a version text: `[1, 2, 0]` of `1.2.0-beta.3`.
pub open spec fn version_numbers(v: Seq<char>) -> Seq<nat> {
    text::split_char(v.take(core_len(v) as int), '.').map_values(|p: Seq<char>| number_of(p))
}

/// The `i`-th release number, 0 past the end.
pub open spec fn number_at(ns: Seq<nat>, i: int) -> nat {
    if 0 <= i < ns.len() {
        ns[i]
    } else {
        0
    }
}

/// Compares release numbers from position `i` on, missing ones counting as
/// 0: 1 when `a` is greater, -1 when it is smaller, 0 when they are equal.
pub open spec fn compare_from(a: Seq<nat>, b: Seq<nat>, i: int) -> int
    decreases a.len() + b.len() - i,
{
    if i < 0 || (i >= a.len() && i >= b.len()) {
        0
    } else if number_at(a, i) > number_at(b, i) {
        1
    } else if number_at(a, i) < number_at(b, i) {
        -1
    } else {
        compare_from(a, b, i + 1)
    }
}

/// A version text with every character that is no digit turned into `.`.
pub open spec fn dotted(s: Seq<char>) -> Seq<char> {
    s.map_values(|c: char| if text::is_digit(c) { c } else { '.' })
}

/// The pieces that are not empty, in order.
pub open spec fn nonempty_pieces(ps: Seq<Seq<char>>) -> Seq<Seq<char>>
    decreases ps.len(),
{
    if ps.len() == 0 {
        seq![]
    } else if ps.last().len() > 0 {
        nonempty_pieces(ps.drop_last()).push(ps.last())
    } else {
        nonempty_pieces(ps.drop_last())
    }
}

/// The numbers of a pre-release label, in order: `[4]` of `-beta.4`,
/// `[2, 10]` of `-rc2.10`.
pub open spec fn label_numbers(label: Seq<char>) -> Seq<nat> {
    nonempty_pieces(text::split_char(dotted(label), '.')).map_values(|p: Seq<char>| number_of(p))
}

/// The pre-release label of a version text: what follows its release
/// numbers, up to build metadata after `+` (`-beta.3` of `1.2.0-beta.3+g1f`).
pub open spec fn pre_release(v: Seq<char>) -> Seq<char> {
    let rest = v.skip(core_len(v) as int);
    match text::find_char(rest, '+') {
        Some(i) => rest.take(i),
        None => rest,
    }
}

/// Whether the version `available` is newer than `installed`: its release
/// numbers are greater; or they are equal and `available` is the release
/// while `installed` is a pre-release of it; or both are pre-releases of it
/// and the numbers of `available`'s label are greater (`-beta.5` after
/// `-beta.4`). Build metadata after `+` does not count.
pub open spec fn is_newer(available: Seq<char>, installed: Seq<char>) -> bool {
    let c = compare_from(version_numbers(available), version_numbers(installed), 0);
    if c != 0 {
        c == 1
    } else {
        let pa = pre_release(available);
        let pi = pre_release(installed);
        if pa.len() == 0 {
            pi.len() > 0
        } else if pi.len() == 0 {
            false
        } else {
            compare_from(label_numbers(pa), label_numbers(pi), 0) == 1
        }
    }
}

proof fn lemma_compare_antisymmetric(a: Seq<nat>, b: Seq<nat>, i: int)
    ensures
        compare_from(a, b, i) == -compare_from(b, a, i),
    decreases a.len() + b.len() - i,
{
    if !(i < 0 || (i >= a.len() && i >= b.len())) && number_at(a, i) == number_at(b, i) {
        lemma_compare_antisymmetric(a, b, i + 1);
    }
}

/// Of two versions at most one is newer than the other, and no version is
/// newer than itself; so the cycle never goes back and forth between two
/// bundles, nor reinstalls the version it runs.
pub proof fn law_newer_is_asymmetric(a: Seq<char>, b: Seq<char>)
    ensures
        !(is_newer(a, b) && is_newer(b, a)),
        !is_newer(a, a),
{
    lemma_compare_antisymmetric(version_numbers(a), version_numbers(b), 0);
    lemma_compare_antisymmetric(label_numbers(pre_release(a)), label_numbers(pre_release(b)), 0);
    lemma_compare_antisymmetric(version_numbers(a), version_numbers(a), 0);
    lemma_compare_antisymmetric(label_numbers(pre_release(a)), label_numbers(pre_release(a)), 0);
}

proof fn lemma_core_len_digits(v: Seq<char>)
    requires
        text::all_digits(v),
    ensures
        core_len(v) == v.len(),
    decreases v.len(),
{
    if v.len() > 0 {
        assert(text::is_digit(v[0]));
        assert forall|i: int| 0 <= i < v.drop_first().len() implies text::is_digit(
            #[trigger] v.drop_first()[i],
        ) by {
            assert(v.drop_first()[i] == v[i + 1]);
        }
        lemma_core_len_digits(v.drop_first());
    }
}

proof fn lemma_plain_version(x: nat)
    requires
        x <= u64::MAX,
    ensures
        version_numbers(text::decimal(x)) == seq![x],
        pre_release(text::decimal(x)).len() == 0,
{
    let d = text::decimal(x);
    text::lemma_decimal_roundtrip(x);
    lemma_core_len_digits(d);
    assert(d.take(d.len() as int) =~= d);
    assert forall|i: int| 0 <= i < d.len() implies d[i] != '.' by {
        assert(text::is_digit(d[i]));
    }
    text::lemma_find_char_absent(d, '.');
    assert(text::split_char(d, '.') == seq![d]);
    assert(text::is_digit(d[0]));
    assert(text::unsigned_digits(d) == d);
    assert(number_of(d) == x);
    assert(seq![d].map_values(|p: Seq<char>| number_of(p)) =~= seq![x]);
    let rest = d.skip(d.len() as int);
    assert(rest =~= Seq::<char>::empty());
}

/// For plain release numbers, newer means greater: version `x` is newer
/// than version `y` exactly when `x > y` (so `10` is newer than `9`).
pub proof fn law_newer_is_greater_number(x: nat, y: nat)
    requires
        x <= u64::MAX,
        y <= u64::MAX,
    ensures
        is_newer(text::decimal(x), text::decimal(y)) == (x > y),
{
    lemma_plain_version(x);
    lemma_plain_version(y);
    let a = seq![x];
    let b = seq![y];
    assert(compare_from(a, b, 1) == 0);
}

/// The numbers of a sequence of `u64` values.
pub open spec fn nat_seq(s: Seq<u64>) -> Seq<nat> {
    s.map_values(|x: u64| x as nat)
}

fn core_len_of(v: &Vec<char>) -> (k: usize)
    ensures
        k == core_len(v@),
        k <= v.len(),
{
    let mut k: usize = 0;
    assert(v@.skip(0) =~= v@);
    while k < v.len() && (text::is_digit_char(v[k]) || v[k] == '.')
        invariant
            k <= v.len(),
            core_len(v@) == k + core_len(v@.skip(k as int)),
        decreases v.len() - k,
    {
        assert(v@.skip(k as int).drop_first() =~= v@.skip(k + 1));
        assert(v@.skip(k as int)[0] == v@[k as int]);
        k = k + 1;
    }
    proof {
        if k < v.len() {
            assert(v@.skip(k as int)[0] == v@[k as int]);
        }
    }
    k
}

fn numbers_of_pieces(pieces: &Vec<Vec<char>>) -> (r: Vec<u64>)
    ensures
        nat_seq(r@) == pieces.deep_view().map_values(|p: Seq<char>| number_of(p)),
{
    let ghost dv = pieces.deep_view();
    let mut out: Vec<u64> = Vec::new();
    let mut i: usize = 0;
    while i < pieces.len()
        invariant
            i <= pieces.len(),
            dv == pieces.deep_view(),
            nat_seq(out@) == dv.take(i as int).map_values(|p: Seq<char>| number_of(p)),
        decreases pieces.len() - i,
    {
        proof {
            text::lemma_deep_view_chars(&pieces@[i as int]);
        }
        let n: u64 = match text::parse_u64_chars(&pieces[i]) {
            Some(n) => n,
            None => 0,
        };
        let ghost before = out@;
        out.push(n);
        proof {
            assert(out@ =~= before.push(n));
            assert(nat_seq(out@) =~= nat_seq(before).push(n as nat));
            assert(dv.take(i + 1) =~= dv.take(i as int).push(dv[i as int]));
            assert(dv.take(i + 1).map_values(|p: Seq<char>| number_of(p)) =~= dv.take(
                i as int,
            ).map_values(|p: Seq<char>| number_of(p)).push(number_of(dv[i as int])));
        }
        i = i + 1;
    }
    assert(dv.take(i as int) =~= dv);
    out
}

fn version_numbers_of(v: &Vec<char>) -> (r: Vec<u64>)
    ensures
        nat_seq(r@) == version_numbers(v@),
{
    let k = core_len_of(v);
    let core = text::slice(v, 0, k);
    assert(core@ =~= v@.take(k as int));
    let pieces = text::split_on(&core, '.');
    numbers_of_pieces(&pieces)
}

fn label_numbers_of(label: &Vec<char>) -> (r: Vec<u64>)
    ensures
        nat_seq(r@) == label_numbers(label@),
{
    let mut d: Vec<char> = Vec::new();
    let mut i: usize = 0;
    while i < label.len()
        invariant
            i <= label.len(),
            d@ == dotted(label@.take(i as int)),
        decreases label.len() - i,
    {
        let c = label[i];
        if text::is_digit_char(c) {
            d.push(c);
        } else {
            d.push('.');
        }
        assert(d@ =~= dotted(label@.take(i + 1)));
        i = i + 1;
    }
    assert(label@.take(i as int) =~= label@);
    let pieces = text::split_on(&d, '.');
    let ghost dv = pieces.deep_view();
    let mut keep: Vec<Vec<char>> = Vec::new();
    let mut j: usize = 0;
    while j < pieces.len()
        invariant
            j <= pieces.len(),
            dv == pieces.deep_view(),
            keep.deep_view() == nonempty_pieces(dv.take(j as int)),
        decreases pieces.len() - j,
    {
        proof {
            text::lemma_deep_view_chars(&pieces@[j as int]);
            assert(dv.take(j + 1).drop_last() =~= dv.take(j as int));
            assert(dv.take(j + 1).last() == pieces@[j as int]@);
        }
        if pieces[j].len() > 0 {
            let p = text::copy_chars(&pieces[j]);
            proof {
                text::lemma_deep_view_chars(&p);
            }
            let ghost before = keep.deep_view();
            keep.push(p);
            assert(keep.deep_view() =~= before.push(pieces@[j as int]@));
        }
        j = j + 1;
    }
    assert(dv.take(j as int) =~= dv);
    numbers_of_pieces(&keep)
}

fn pre_release_of(v: &Vec<char>, k: usize) -> (r: Vec<char>)
    requires
        k == core_len(v@),
    ensures
        r@ == pre_release(v@),
{
    proof {
        lemma_core_len_bound(v@);
    }
    let rest = text::slice(v, k, v.len());
    assert(rest@ =~= v@.skip(k as int));
    match text::find_from(&rest, 0, '+') {
        Some(i) => {
            proof {
                assert(rest@.skip(0) =~= rest@);
            }
            let t = text::slice(&rest, 0, i);
            assert(t@ =~= rest@.take(i as int));
            t
        },
        None => {
            proof {
                assert(rest@.skip(0) =~= rest@);
            }
            rest
        },
    }
}

proof fn lemma_core_len_bound(v: Seq<char>)
    ensures
        core_len(v) <= v.len(),
    decreases v.len(),
{
    if v.len() > 0 {
        lemma_core_len_bound(v.drop_first());
    }
}

proof fn lemma_compare_step(a: Seq<nat>, b: Seq<nat>, i: int)
    requires
        0 <= i,
        i < a.len() || i < b.len(),
        number_at(a, i) == number_at(b, i),
    ensures
        compare_from(a, b, i) == compare_from(a, b, i + 1),
{
}

/// Compares two lists of numbers, missing ones counting as 0.
fn compare_numbers(a: &Vec<u64>, b: &Vec<u64>) -> (c: i8)
    ensures
        c == compare_from(nat_seq(a@), nat_seq(b@), 0),
{
    let ghost sa = nat_seq(a@);
    let ghost sb = nat_seq(b@);
    let n: usize = if a.len() > b.len() {
        a.len()
    } else {
        b.len()
    };
    let mut i: usize = 0;
    let mut c: i8 = 0;
    while i < n && c == 0
        invariant
            i <= n,
            n == if a@.len() > b@.len() {
                a@.len()
            } else {
                b@.len()
            },
            sa == nat_seq(a@),
            sb == nat_seq(b@),
            c == 0 ==> compare_from(sa, sb, 0) == compare_from(sa, sb, i as int),
            c != 0 ==> c == compare_from(sa, sb, 0),
        decreases n - i,
    {
        let x: u64 = if i < a.len() {
            a[i]
        } else {
            0
        };
        let y: u64 = if i < b.len() {
            b[i]
        } else {
            0
        };
        assert(x as nat == number_at(sa, i as int));
        assert(y as nat == number_at(sb, i as int));
        if x > y {
            c = 1;
        } else if x < y {
            c = -1;
        } else {
            proof {
                lemma_compare_step(sa, sb, i as int);
            }
        }
        i = i + 1;
    }
    proof {
        if c == 0 {
            assert(compare_from(sa, sb, i as int) == 0);
        }
    }
    c
}

/// Whether the version `available` is newer than `installed`.
pub fn version_is_newer(available: &str, installed: &str) -> (r: bool)
    ensures
        r == is_newer(available@, installed@),
{
    let av = text::chars_of(available);
    let iv = text::chars_of(installed);
    let c = compare_numbers(&version_numbers_of(&av), &version_numbers_of(&iv));
    if c != 0 {
        c == 1
    } else {
        let pa = pre_release_of(&av, core_len_of(&av));
        let pi = pre_release_of(&iv, core_len_of(&iv));
        if pa.len() == 0 {
            pi.len() > 0
        } else if pi.len() == 0 {
            false
        } else {
            compare_numbers(&label_numbers_of(&pa), &label_numbers_of(&pi)) == 1
        }
    }
}

// ---------------------------------------------------------------------------
// The auto-update cycle
// ---------------------------------------------------------------------------
/// Where the auto-update cycle stands.
pub enum UpdateCycle {
    /// Between cycles.
    Idle,
    /// The configuration was asked for.
    AwaitConfig,
    /// Waiting for the scheduled hour and minute.
    AwaitClock { hour: u64, minute: u64 },
    /// The configuration was asked for again at the scheduled time.
    AwaitConfigAgain,
    /// RAUC's operation was asked for before installing.
    AwaitRaucIdle { stable: bool },
    /// The board was asked for.
    AwaitBoard { stable: bool },
    /// The installed version and that of the board's bundle were asked for.
    AwaitVersions { board: String, stable: bool },
    /// The bundle is being handed to RAUC.
    AwaitInstall,
    /// Waiting for RAUC to finish installing.
    AwaitCompletion,
    /// The reboot was asked for.
    AwaitReboot,
}

/// What the outside world reports back.
pub enum UpdateEvent {
    /// A new cycle begins.
    Begin,
    /// The auto-update settings.
    Config(AutoUpdateConfig),
    /// Minutes since midnight.
    Clock(u64),
    /// RAUC's current operation; empty when it could not be read.
    Operation(String),
    /// The board the system runs on.
    Board(String),
    /// The installed version, and the version of the offered bundle (`None`
    /// when it could not be learned).
    Versions { installed: String, available: Option<String> },
    /// Whether RAUC accepted the bundle, or why not.
    Installed(Result<(), String>),
    /// The reboot command has run.
    Rebooted,
}

/// Why a cycle ended.
pub enum CycleEnd {
    Disabled,
    Busy,
    UpToDate,
    Rebooted,
    InstallFailed(String),
}

/// What to do next.
pub enum UpdateAction {
    ReadConfig,
    ReadClock,
    SleepThenReadClock(u64),
    QueryOperation,
    SleepThenQueryOperation(u64),
    DetectBoard,
    ReadVersions(String),
    Install(String),
    Reboot,
    EndCycle(CycleEnd),
}

/// An action as values.
pub ghost enum ActionModel {
    ReadConfig,
    ReadClock,
    SleepThenReadClock(nat),
    QueryOperation,
    SleepThenQueryOperation(nat),
    DetectBoard,
    ReadVersions(Seq<char>),
    Install(Seq<char>),
    Reboot,
    EndDisabled,
    EndBusy,
    EndUpToDate,
    EndRebooted,
    EndInstallFailed(Seq<char>),
}

pub open spec fn action_model(a: UpdateAction) -> ActionModel {
    match a {
        UpdateAction::ReadConfig => ActionModel::ReadConfig,
        UpdateAction::ReadClock => ActionModel::ReadClock,
        UpdateAction::SleepThenReadClock(s) => ActionModel::SleepThenReadClock(s as nat),
        UpdateAction::QueryOperation => ActionModel::QueryOperation,
        UpdateAction::SleepThenQueryOperation(s) => ActionModel::SleepThenQueryOperation(s as nat),
        UpdateAction::DetectBoard => ActionModel::DetectBoard,
        UpdateAction::ReadVersions(url) => ActionModel::ReadVersions(url@),
        UpdateAction::Install(url) => ActionModel::Install(url@),
        UpdateAction::Reboot => ActionModel::Reboot,
        UpdateAction::EndCycle(CycleEnd::Disabled) => ActionModel::EndDisabled,
        UpdateAction::EndCycle(CycleEnd::Busy) => ActionModel::EndBusy,
        UpdateAction::EndCycle(CycleEnd::UpToDate) => ActionModel::EndUpToDate,
        UpdateAction::EndCycle(CycleEnd::Rebooted) => ActionModel::EndRebooted,
        UpdateAction::EndCycle(CycleEnd::InstallFailed(m)) => ActionModel::EndInstallFailed(m@),
    }
}

/// The view of an optional text.
pub open spec fn opt_view(o: Option<String>) -> Option<Seq<char>> {
    match o {
        Some(s) => Some(s@),
        None => None,
    }
}

/// Whether a newer bundle is offered: its version (trimmed) is newer than
/// the installed one (trimmed); not when the offered version is unknown.
pub open spec fn offers_newer(installed: Seq<char>, available: Option<Seq<char>>) -> bool {
    match available {
        Some(v) => is_newer(text::trim(v), text::trim(installed)),
        None => false,
    }
}

/// Whether a newer bundle is offered than the installed version.
pub fn newer_offered(installed: &String, available: &Option<String>) -> (r: bool)
    ensures
        r == offers_newer(installed@, opt_view(*available)),
{
    match available {
        Some(v) => {
            let a = text::string_of(&text::trim_str(v.as_str()));
            let i = text::string_of(&text::trim_str(installed.as_str()));
            version_is_newer(a.as_str(), i.as_str())
        },
        None => false,
    }
}

/// The event that a state waits for.
pub open spec fn accepts(s: UpdateCycle, e: UpdateEvent) -> bool {
    match s {
        UpdateCycle::Idle => e is Begin,
        UpdateCycle::AwaitConfig => e is Config,
        UpdateCycle::AwaitClock { .. } => e is Clock,
        UpdateCycle::AwaitConfigAgain => e is Config,
        UpdateCycle::AwaitRaucIdle { .. } => e is Operation,
        UpdateCycle::AwaitBoard { .. } => e is Board,
        UpdateCycle::AwaitVersions { .. } => e is Versions,
        UpdateCycle::AwaitInstall => e is Installed,
        UpdateCycle::AwaitCompletion => e is Operation,
        UpdateCycle::AwaitReboot => e is Rebooted,
    }
}

/// One step of the cycle: read the settings, stop if auto-update is off;
/// wait (checking every 30 s) for the scheduled minute; read the settings
/// again and stop if it was switched off; stop if RAUC is busy; install the
/// board's bundle of the configured channel; poll RAUC every 5 s until it is
/// idle; reboot.
pub open spec fn next(s: UpdateCycle, e: UpdateEvent) -> (UpdateCycle, ActionModel) {
    match (s, e) {
        (UpdateCycle::Idle, _) => (UpdateCycle::AwaitConfig, ActionModel::ReadConfig),
        (UpdateCycle::AwaitConfig, UpdateEvent::Config(c)) => if !c.enabled {
            (UpdateCycle::Idle, ActionModel::EndDisabled)
        } else {
            let t = schedule_of(c.time@);
            (
                UpdateCycle::AwaitClock { hour: t.0 as u64, minute: t.1 as u64 },
                ActionModel::ReadClock,
            )
        },
        (UpdateCycle::AwaitClock { hour, minute }, UpdateEvent::Clock(now)) => if at_schedule(
            now as nat,
            hour as nat,
            minute as nat,
        ) {
            (UpdateCycle::AwaitConfigAgain, ActionModel::ReadConfig)
        } else {
            (UpdateCycle::AwaitClock { hour, minute }, ActionModel::SleepThenReadClock(30))
        },
        (UpdateCycle::AwaitConfigAgain, UpdateEvent::Config(c)) => if !c.enabled {
            (UpdateCycle::Idle, ActionModel::EndDisabled)
        } else {
            (
                UpdateCycle::AwaitRaucIdle { stable: c.channel@ == "stable"@ },
                ActionModel::QueryOperation,
            )
        },
        (UpdateCycle::AwaitRaucIdle { stable }, UpdateEvent::Operation(op)) => if op@ != "idle"@ {
            (UpdateCycle::Idle, ActionModel::EndBusy)
        } else {
            (UpdateCycle::AwaitBoard { stable }, ActionModel::DetectBoard)
        },
        (UpdateCycle::AwaitBoard { stable }, UpdateEvent::Board(b)) => (
            UpdateCycle::AwaitVersions { board: b, stable },
            ActionModel::ReadVersions(bundle_url_text(b@, stable)),
        ),
        (
            UpdateCycle::AwaitVersions { board, stable },
            UpdateEvent::Versions { installed, available },
        ) => if offers_newer(installed@, opt_view(available)) {
            (UpdateCycle::AwaitInstall, ActionModel::Install(bundle_url_text(board@, stable)))
        } else {
            (UpdateCycle::Idle, ActionModel::EndUpToDate)
        },
        (UpdateCycle::AwaitInstall, UpdateEvent::Installed(r)) => match r {
            Ok(_) => (UpdateCycle::AwaitCompletion, ActionModel::SleepThenQueryOperation(5)),
            Err(m) => (UpdateCycle::Idle, ActionModel::EndInstallFailed(m@)),
        },
        (UpdateCycle::AwaitCompletion, UpdateEvent::Operation(op)) => if op@ == "idle"@ {
            (UpdateCycle::AwaitReboot, ActionModel::Reboot)
        } else {
            (UpdateCycle::AwaitCompletion, ActionModel::SleepThenQueryOperation(5))
        },
        (UpdateCycle::AwaitReboot, UpdateEvent::Rebooted) => (
            UpdateCycle::Idle,
            ActionModel::EndRebooted,
        ),
        _ => (s, ActionModel::ReadConfig),
    }
}

/// Whether `e` is the event that `s` waits for.
pub fn is_expected(s: &UpdateCycle, e: &UpdateEvent) -> (r: bool)
    ensures
        r == accepts(*s, *e),
{
    match s {
        UpdateCycle::Idle => matches!(e, UpdateEvent::Begin),
        UpdateCycle::AwaitConfig => matches!(e, UpdateEvent::Config(_)),
        UpdateCycle::AwaitClock { .. } => matches!(e, UpdateEvent::Clock(_)),
        UpdateCycle::AwaitConfigAgain => matches!(e, UpdateEvent::Config(_)),
        UpdateCycle::AwaitRaucIdle { .. } => matches!(e, UpdateEvent::Operation(_)),
        UpdateCycle::AwaitBoard { .. } => matches!(e, UpdateEvent::Board(_)),
        UpdateCycle::AwaitVersions { .. } => matches!(e, UpdateEvent::Versions { .. }),
        UpdateCycle::AwaitInstall => matches!(e, UpdateEvent::Installed(_)),
        UpdateCycle::AwaitCompletion => matches!(e, UpdateEvent::Operation(_)),
        UpdateCycle::AwaitReboot => matches!(e, UpdateEvent::Rebooted),
    }
}

/// Advances the auto-update cycle by one event.
pub fn step(s: UpdateCycle, e: UpdateEvent) -> (r: (UpdateCycle, UpdateAction))
    requires
        accepts(s, e),
    ensures
        r.0 == next(s, e).0,
        action_model(r.1) == next(s, e).1,
{
    match s {
        UpdateCycle::Idle => (UpdateCycle::AwaitConfig, UpdateAction::ReadConfig),
        UpdateCycle::AwaitConfig => match e {
            UpdateEvent::Config(c) => {
                if !c.enabled {
                    (UpdateCycle::Idle, UpdateAction::EndCycle(CycleEnd::Disabled))
                } else {
                    let (hour, minute) = parse_time(c.time.as_str());
                    (UpdateCycle::AwaitClock { hour, minute }, UpdateAction::ReadClock)
                }
            },
            _ => (s, UpdateAction::ReadConfig),
        },
        UpdateCycle::AwaitClock { hour, minute } => match e {
            UpdateEvent::Clock(now) => {
                if is_schedule_reached(now, hour, minute) {
                    (UpdateCycle::AwaitConfigAgain, UpdateAction::ReadConfig)
                } else {
                    (UpdateCycle::AwaitClock { hour, minute }, UpdateAction::SleepThenReadClock(30))
                }
            },
            _ => (s, UpdateAction::ReadConfig),
        },
        UpdateCycle::AwaitConfigAgain => match e {
            UpdateEvent::Config(c) => {
                if !c.enabled {
                    (UpdateCycle::Idle, UpdateAction::EndCycle(CycleEnd::Disabled))
                } else {
                    let ch = text::chars_of(c.channel.as_str());
                    let stable = text::is_text(&ch, "stable");
                    (UpdateCycle::AwaitRaucIdle { stable }, UpdateAction::QueryOperation)
                }
            },
            _ => (s, UpdateAction::ReadConfig),
        },
        UpdateCycle::AwaitRaucIdle { stable } => match e {
            UpdateEvent::Operation(op) => {
                let o = text::chars_of(op.as_str());
                if !text::is_text(&o, "idle") {
                    (UpdateCycle::Idle, UpdateAction::EndCycle(CycleEnd::Busy))
                } else {
                    (UpdateCycle::AwaitBoard { stable }, UpdateAction::DetectBoard)
                }
            },
            _ => (s, UpdateAction::ReadConfig),
        },
        UpdateCycle::AwaitBoard { stable } => match e {
            UpdateEvent::Board(b) => {
                let url = bundle_url_for(b.as_str(), stable);
                (UpdateCycle::AwaitVersions { board: b, stable }, UpdateAction::ReadVersions(url))
            },
            _ => (s, UpdateAction::ReadConfig),
        },
        UpdateCycle::AwaitVersions { board, stable } => match e {
            UpdateEvent::Versions { installed, available } => {
                if newer_offered(&installed, &available) {
                    let url = bundle_url_for(board.as_str(), stable);
                    (UpdateCycle::AwaitInstall, UpdateAction::Install(url))
                } else {
                    (UpdateCycle::Idle, UpdateAction::EndCycle(CycleEnd::UpToDate))
                }
            },
            _ => (UpdateCycle::AwaitVersions { board, stable }, UpdateAction::ReadConfig),
        },
        UpdateCycle::AwaitInstall => match e {
            UpdateEvent::Installed(r) => match r {
                Ok(_) => (UpdateCycle::AwaitCompletion, UpdateAction::SleepThenQueryOperation(5)),
                Err(m) => (UpdateCycle::Idle, UpdateAction::EndCycle(CycleEnd::InstallFailed(m))),
            },
            _ => (s, UpdateAction::ReadConfig),
        },
        UpdateCycle::AwaitCompletion => match e {
            UpdateEvent::Operation(op) => {
                let o = text::chars_of(op.as_str());
                if text::is_text(&o, "idle") {
                    (UpdateCycle::AwaitReboot, UpdateAction::Reboot)
                } else {
                    (UpdateCycle::AwaitCompletion, UpdateAction::SleepThenQueryOperation(5))
                }
            },
            _ => (s, UpdateAction::ReadConfig),
        },
        UpdateCycle::AwaitReboot => (UpdateCycle::Idle, UpdateAction::EndCycle(CycleEnd::Rebooted)),
    }
}

/// The state after a run of events from `s`.
pub open spec fn run(s: UpdateCycle, events: Seq<UpdateEvent>) -> UpdateCycle
    decreases events.len(),
{
    if events.len() == 0 {
        s
    } else {
        run(next(s, events[0]).0, events.drop_first())
    }
}

/// Every event of the run is one its state waits for.
pub open spec fn well_formed_run(s: UpdateCycle, events: Seq<UpdateEvent>) -> bool
    decreases events.len(),
{
    events.len() == 0 || (accepts(s, events[0]) && well_formed_run(
        next(s, events[0]).0,
        events.drop_first(),
    ))
}

proof fn lemma_run_snoc(s: UpdateCycle, events: Seq<UpdateEvent>, e: UpdateEvent)
    ensures
        run(s, events.push(e)) == next(run(s, events), e).0,
    decreases events.len(),
{
    if events.len() > 0 {
        assert(events.push(e).drop_first() =~= events.drop_first().push(e));
        assert(events.push(e)[0] == events[0]);
        lemma_run_snoc(next(s, events[0]).0, events.drop_first(), e);
    } else {
        assert(events.push(e).drop_first() =~= Seq::<UpdateEvent>::empty());
        assert(events.push(e)[0] == e);
        assert(run(next(s, e).0, Seq::<UpdateEvent>::empty()) == next(s, e).0);
        assert(run(s, events) == s);
    }
}

/// Which state comes before which: each state of the cycle is only reached
/// through the event named here.
proof fn lemma_predecessor(s: UpdateCycle, e: UpdateEvent)
    requires
        accepts(s, e),
    ensures
        next(s, e).1 is Install ==> (s matches UpdateCycle::AwaitVersions { board, stable }
            && (e matches UpdateEvent::Versions { installed, available } && offers_newer(
            installed@,
            opt_view(available),
        )) && next(s, e).1 == ActionModel::Install(bundle_url_text(board@, stable))),
        next(s, e).0 is AwaitVersions ==> (s matches UpdateCycle::AwaitBoard { stable } && (
        e matches UpdateEvent::Board(b) && next(s, e).0 == (UpdateCycle::AwaitVersions {
            board: b,
            stable,
        }))),
        next(s, e).0 is AwaitBoard ==> s is AwaitRaucIdle,
        next(s, e).0 is AwaitBoard ==> (e matches UpdateEvent::Operation(op) && op@ == "idle"@),
        next(s, e).0 is AwaitBoard ==> next(s, e).0->AwaitBoard_stable
            == s->AwaitRaucIdle_stable,
        next(s, e).0 is AwaitRaucIdle ==> s is AwaitConfigAgain,
        next(s, e).0 is AwaitRaucIdle ==> (e matches UpdateEvent::Config(c) && c.enabled
            && next(s, e).0->AwaitRaucIdle_stable == (c.channel@ == "stable"@)),
        next(s, e).0 is AwaitConfigAgain ==> (s matches UpdateCycle::AwaitClock { hour, minute }
            && (e matches UpdateEvent::Clock(now) && at_schedule(
            now as nat,
            hour as nat,
            minute as nat,
        ))),
{
}

proof fn lemma_wf_prefix(s: UpdateCycle, evs: Seq<UpdateEvent>, k: int)
    requires
        well_formed_run(s, evs),
        0 <= k < evs.len(),
    ensures
        accepts(run(s, evs.take(k)), evs[k]),
    decreases k,
{
    if k == 0 {
        assert(evs.take(0) =~= Seq::<UpdateEvent>::empty());
    } else {
        let rest = evs.drop_first();
        lemma_wf_prefix(next(s, evs[0]).0, rest, k - 1);
        assert(evs.take(k)[0] == evs[0]);
        assert(evs.take(k).drop_first() =~= rest.take(k - 1));
        assert(rest[k - 1] == evs[k]);
    }
}

/// The state before the last event of a run, and that event.
proof fn lemma_last_step(evs: Seq<UpdateEvent>)
    requires
        evs.len() > 0,
    ensures
        run(UpdateCycle::Idle, evs) == next(
            run(UpdateCycle::Idle, evs.take(evs.len() - 1)),
            evs[evs.len() - 1],
        ).0,
{
    let n = evs.len();
    assert(evs =~= evs.take(n - 1).push(evs[n - 1]));
    lemma_run_snoc(UpdateCycle::Idle, evs.take(n - 1), evs[n - 1]);
}

/// The run of the first `k` events, with the event after it accepted.
proof fn lemma_before(all: Seq<UpdateEvent>, k: int)
    requires
        well_formed_run(UpdateCycle::Idle, all),
        0 <= k < all.len(),
    ensures
        accepts(run(UpdateCycle::Idle, all.take(k)), all[k]),
        run(UpdateCycle::Idle, all.take(k + 1)) == next(run(UpdateCycle::Idle, all.take(k)), all[k]).0,
{
    lemma_wf_prefix(UpdateCycle::Idle, all, k);
    lemma_last_step(all.take(k + 1));
    assert(all.take(k + 1).take(k) =~= all.take(k));
    assert(all.take(k + 1)[k] == all[k]);
}

/// Auto-update installs only right after it re-read its settings at the
/// scheduled minute and found auto-update still enabled, found RAUC idle,
/// learned the board, and was told that a newer bundle than the installed
/// version is offered; the bundle is that board's bundle for the channel of
/// the settings read last.
pub proof fn law_install_only_when_enabled_and_idle(events: Seq<UpdateEvent>, e: UpdateEvent)
    requires
        well_formed_run(UpdateCycle::Idle, events.push(e)),
        next(run(UpdateCycle::Idle, events), e).1 is Install,
    ensures
        events.len() >= 4,
        events[events.len() - 4] matches UpdateEvent::Clock(now) && run(
            UpdateCycle::Idle,
            events.take(events.len() - 4),
        ) matches UpdateCycle::AwaitClock { hour, minute } && at_schedule(
            now as nat,
            hour as nat,
            minute as nat,
        ),
        events[events.len() - 3] matches UpdateEvent::Config(c) && c.enabled,
        events[events.len() - 2] matches UpdateEvent::Operation(op) && op@ == "idle"@,
        e matches UpdateEvent::Versions { installed, available } && offers_newer(
            installed@,
            opt_view(available),
        ),
        events[events.len() - 1] matches UpdateEvent::Board(b)
            && events[events.len() - 3] matches UpdateEvent::Config(c) && next(
            run(UpdateCycle::Idle, events),
            e,
        ).1 == ActionModel::Install(bundle_url_text(b@, c.channel@ == "stable"@)),
{
    let all = events.push(e);
    let n = events.len() as int;
    assert(all.take(n) =~= events);
    lemma_wf_prefix(UpdateCycle::Idle, all, n);
    lemma_predecessor(run(UpdateCycle::Idle, events), e);
    // the board
    assert(n >= 1);
    lemma_before(all, n - 1);
    assert(all.take(n - 1) =~= events.take(n - 1));
    assert(all[n - 1] == events[n - 1]);
    assert(all.take(n - 1 + 1) =~= events);
    lemma_predecessor(run(UpdateCycle::Idle, events.take(n - 1)), events[n - 1]);
    // RAUC idle
    assert(n >= 2);
    lemma_before(all, n - 2);
    assert(all.take(n - 2) =~= events.take(n - 2));
    assert(all[n - 2] == events[n - 2]);
    assert(all.take(n - 2 + 1) =~= events.take(n - 1));
    lemma_predecessor(run(UpdateCycle::Idle, events.take(n - 2)), events[n - 2]);
    // the settings read again
    assert(n >= 3);
    lemma_before(all, n - 3);
    assert(all.take(n - 3) =~= events.take(n - 3));
    assert(all[n - 3] == events[n - 3]);
    assert(all.take(n - 3 + 1) =~= events.take(n - 2));
    lemma_predecessor(run(UpdateCycle::Idle, events.take(n - 3)), events[n - 3]);
    // the scheduled minute
    assert(n >= 4);
    lemma_before(all, n - 4);
    assert(all.take(n - 4) =~= events.take(n - 4));
    assert(all[n - 4] == events[n - 4]);
    assert(all.take(n - 4 + 1) =~= events.take(n - 3));
    lemma_predecessor(run(UpdateCycle::Idle, events.take(n - 4)), events[n - 4]);
}

/// RAUC accepted the bundle.
pub open spec fn installed_ok(e: UpdateEvent) -> bool {
    e matches UpdateEvent::Installed(r) && r is Ok
}

/// RAUC reported an operation other than idle.
pub open spec fn busy_poll(e: UpdateEvent) -> bool {
    e matches UpdateEvent::Operation(op) && op@ != "idle"@
}

proof fn lemma_completion_predecessor(s: UpdateCycle, e: UpdateEvent)
    requires
        accepts(s, e),
        next(s, e).0 is AwaitCompletion,
    ensures
        (s is AwaitInstall && installed_ok(e)) || (s is AwaitCompletion && busy_poll(e)),
{
}

proof fn lemma_completion_after_install(evs: Seq<UpdateEvent>)
    requires
        forall|k: int| 0 <= k < evs.len() ==> accepts(#[trigger] run(UpdateCycle::Idle, evs.take(k)), evs[k]),
        run(UpdateCycle::Idle, evs) is AwaitCompletion,
    ensures
        exists|k: int|
            0 <= k < evs.len() && installed_ok(#[trigger] evs[k]) && forall|j: int|
                k < j < evs.len() ==> busy_poll(#[trigger] evs[j]),
    decreases evs.len(),
{
    let n = evs.len() as int;
    assert(n > 0);
    lemma_last_step(evs);
    let p = evs.take(n - 1);
    let s = run(UpdateCycle::Idle, p);
    assert(accepts(run(UpdateCycle::Idle, evs.take(n - 1)), evs[n - 1]));
    lemma_completion_predecessor(s, evs[n - 1]);
    if s is AwaitInstall {
        assert(installed_ok(evs[n - 1]));
        assert(forall|j: int| n - 1 < j < evs.len() ==> busy_poll(#[trigger] evs[j]));
    } else {
        assert forall|k: int| 0 <= k < p.len() implies accepts(
            #[trigger] run(UpdateCycle::Idle, p.take(k)),
            p[k],
        ) by {
            assert(p.take(k) =~= evs.take(k));
            assert(p[k] == evs[k]);
            assert(accepts(run(UpdateCycle::Idle, evs.take(k)), evs[k]));
        }
        lemma_completion_after_install(p);
        let k = choose|k: int|
            0 <= k < p.len() && installed_ok(#[trigger] p[k]) && forall|j: int|
                k < j < p.len() ==> busy_poll(#[trigger] p[j]);
        assert(p[k] == evs[k]);
        assert forall|j: int| k < j < evs.len() implies busy_poll(#[trigger] evs[j]) by {
            if j < n - 1 {
                assert(p[j] == evs[j]);
            }
        }
    }
}

/// Auto-update reboots only once RAUC reports idle again after it accepted
/// a bundle for installation, with nothing but polls that found RAUC still
/// busy in between; a refused bundle (which ends the cycle) is never
/// followed by a reboot of the same cycle.
pub proof fn law_reboot_only_after_install(events: Seq<UpdateEvent>, e: UpdateEvent)
    requires
        well_formed_run(UpdateCycle::Idle, events.push(e)),
        next(run(UpdateCycle::Idle, events), e).1 is Reboot,
    ensures
        e matches UpdateEvent::Operation(op) && op@ == "idle"@,
        exists|k: int|
            0 <= k < events.len() && installed_ok(#[trigger] events[k]) && forall|j: int|
                k < j < events.len() ==> busy_poll(#[trigger] events[j]),
{
    let all = events.push(e);
    let n = events.len() as int;
    assert(all.take(n) =~= events);
    lemma_wf_prefix(UpdateCycle::Idle, all, n);
    assert(run(UpdateCycle::Idle, events) is AwaitCompletion);
    assert forall|k: int| 0 <= k < events.len() implies accepts(
        #[trigger] run(UpdateCycle::Idle, events.take(k)),
        events[k],
    ) by {
        lemma_wf_prefix(UpdateCycle::Idle, all, k);
        assert(all.take(k) =~= events.take(k));
        assert(all[k] == events[k]);
    }
    lemma_completion_after_install(events);
}

} // verus!
