//! The snapdog-client settings and the environment file
//! (`/etc/default/snapdog-client`) that carries them.
use vstd::prelude::*;
use crate::text;
use crate::error::CtrlError;

verus! {

/// The client settings shown and edited in the web UI.
pub struct ClientConfig {
    pub server_url: String,
    pub host_id: String,
    pub soundcard: String,
    pub mixer: String,
    pub latency: i32,
    pub mdns_name: String,
    pub running: bool,
    pub available_soundcards: Vec<String>,
}

/// The settings read back from the client's environment file.
pub struct ParsedClientArgs {
    pub server_url: String,
    pub host_id: String,
    pub soundcard: String,
    pub mixer: String,
    pub latency: i32,
}

/// The client settings as values.
pub ghost struct ClientArgsModel {
    pub server_url: Seq<char>,
    pub host_id: Seq<char>,
    pub soundcard: Seq<char>,
    pub mixer: Seq<char>,
    pub latency: int,
}

impl ParsedClientArgs {
    pub open spec fn model(&self) -> ClientArgsModel {
        ClientArgsModel {
            server_url: self.server_url@,
            host_id: self.host_id@,
            soundcard: self.soundcard@,
            mixer: self.mixer@,
            latency: self.latency as int,
        }
    }
}

impl ClientConfig {
    pub open spec fn model(&self) -> ClientArgsModel {
        ClientArgsModel {
            server_url: self.server_url@,
            host_id: self.host_id@,
            soundcard: self.soundcard@,
            mixer: self.mixer@,
            latency: self.latency as int,
        }
    }
}

/// The variable of the environment file that holds the client's arguments.
pub open spec fn args_key() -> Seq<char> {
    "SNAPDOG_CLIENT_ARGS="@
}

/// The settings the client runs with when its arguments say nothing.
pub open spec fn default_args() -> ClientArgsModel {
    ClientArgsModel {
        server_url: seq![],
        host_id: seq![],
        soundcard: "default"@,
        mixer: "software"@,
        latency: 0,
    }
}

/// Reads the argument words from left to right: `--hostID`, `--soundcard`,
/// `--mixer` and `--latency` take the next word as their value (a latency
/// that is no `i32` counts as 0); the first other word that does not start
/// with `-` is the server URL; everything else is skipped.
pub open spec fn scan_args(t: Seq<Seq<char>>, acc: ClientArgsModel) -> ClientArgsModel
    decreases t.len(),
{
    if t.len() == 0 {
        acc
    } else if t[0] == "--hostID"@ && t.len() > 1 {
        scan_args(t.skip(2), ClientArgsModel { host_id: t[1], ..acc })
    } else if t[0] == "--soundcard"@ && t.len() > 1 {
        scan_args(t.skip(2), ClientArgsModel { soundcard: t[1], ..acc })
    } else if t[0] == "--mixer"@ && t.len() > 1 {
        scan_args(t.skip(2), ClientArgsModel { mixer: t[1], ..acc })
    } else if t[0] == "--latency"@ && t.len() > 1 {
        scan_args(
            t.skip(2),
            ClientArgsModel {
                latency: match text::parse_signed(t[1], i32::MAX as nat) {
                    Some(x) => x,
                    None => 0,
                },
                ..acc
            },
        )
    } else if !text::starts_with(t[0], seq!['-']) && acc.server_url.len() == 0 {
        scan_args(t.skip(1), ClientArgsModel { server_url: t[0], ..acc })
    } else {
        scan_args(t.skip(1), acc)
    }
}

/// The first line that starts with `p`; empty when none does.
pub open spec fn line_with_prefix(ls: Seq<Seq<char>>, p: Seq<char>) -> Seq<char>
    decreases ls.len(),
{
    if ls.len() == 0 {
        seq![]
    } else if text::starts_with(ls[0], p) {
        ls[0]
    } else {
        line_with_prefix(ls.drop_first(), p)
    }
}

/// `s` without all repetitions of `p` at its start (`trim_start_matches`).
pub open spec fn strip_prefixes(s: Seq<char>, p: Seq<char>) -> Seq<char>
    decreases s.len(),
{
    if p.len() > 0 && text::starts_with(s, p) {
        strip_prefixes(s.skip(p.len() as int), p)
    } else {
        s
    }
}

pub open spec fn trim_start_char(s: Seq<char>, c: char) -> Seq<char>
    decreases s.len(),
{
    if s.len() > 0 && s[0] == c {
        trim_start_char(s.drop_first(), c)
    } else {
        s
    }
}

pub open spec fn trim_end_char(s: Seq<char>, c: char) -> Seq<char>
    decreases s.len(),
{
    if s.len() > 0 && s.last() == c {
        trim_end_char(s.drop_last(), c)
    } else {
        s
    }
}

/// The argument text of the environment file: the value of the first
/// `SNAPDOG_CLIENT_ARGS=` line without the surrounding quotes.
pub open spec fn args_text(content: Seq<char>) -> Seq<char> {
    trim_end_char(
        trim_start_char(
            strip_prefixes(line_with_prefix(text::lines(content), args_key()), args_key()),
            '"',
        ),
        '"',
    )
}

/// The client settings that an environment file holds.
pub open spec fn client_args(content: Seq<char>) -> ClientArgsModel {
    scan_args(text::words(args_text(content)), default_args())
}

fn line_with_prefix_chars(ls: &Vec<Vec<char>>, p: &str) -> (r: Vec<char>)
    ensures
        r@ == line_with_prefix(ls.deep_view(), p@),
{
    let ghost dv = ls.deep_view();
    let mut i: usize = 0;
    assert(dv.skip(0) =~= dv);
    while i < ls.len()
        invariant
            i <= ls.len(),
            dv == ls.deep_view(),
            line_with_prefix(dv, p@) == line_with_prefix(dv.skip(i as int), p@),
        decreases ls.len() - i,
    {
        proof {
            text::lemma_deep_view_chars(&ls@[i as int]);
            assert(dv.skip(i as int)[0] == ls@[i as int]@);
            assert(dv.skip(i as int).drop_first() =~= dv.skip(i + 1));
        }
        if text::starts_with_text(&ls[i], p) {
            return text::copy_chars(&ls[i]);
        }
        i = i + 1;
    }
    Vec::new()
}

fn strip_prefixes_chars(v: &Vec<char>, p: &str) -> (r: Vec<char>)
    ensures
        r@ == strip_prefixes(v@, p@),
{
    let pv = text::chars_of(p);
    if pv.len() == 0 {
        return text::slice(v, 0, v.len());
    }
    let mut at: usize = 0;
    assert(v@.skip(0) =~= v@);
    while text::matches_at(v, at, &pv)
        invariant
            at <= v.len(),
            pv@ == p@,
            pv.len() > 0,
            strip_prefixes(v@.skip(at as int), p@) == strip_prefixes(v@, p@),
        decreases v.len() - at,
    {
        assert(v@.skip(at as int).take(pv.len() as int) =~= v@.subrange(at as int, at + pv.len()));
        assert(v@.skip(at as int).skip(pv.len() as int) =~= v@.skip(at + pv.len()));
        at = at + pv.len();
    }
    proof {
        if pv.len() <= v.len() - at {
            assert(v@.skip(at as int).take(pv.len() as int) =~= v@.subrange(
                at as int,
                at + pv.len(),
            ));
        }
    }
    text::slice(v, at, v.len())
}

fn trim_char_chars(v: &Vec<char>, c: char) -> (r: Vec<char>)
    ensures
        r@ == trim_end_char(trim_start_char(v@, c), c),
{
    let mut a: usize = 0;
    assert(v@.skip(0) =~= v@);
    while a < v.len() && v[a] == c
        invariant
            a <= v.len(),
            trim_start_char(v@.skip(a as int), c) == trim_start_char(v@, c),
        decreases v.len() - a,
    {
        assert(v@.skip(a as int).drop_first() =~= v@.skip(a + 1));
        a = a + 1;
    }
    let ghost t = v@.skip(a as int);
    let mut b: usize = v.len();
    assert(v@.subrange(a as int, b as int) =~= t);
    while b > a && v[b - 1] == c
        invariant
            a <= b <= v.len(),
            trim_end_char(v@.subrange(a as int, b as int), c) == trim_end_char(t, c),
        decreases b - a,
    {
        assert(v@.subrange(a as int, b as int).drop_last() =~= v@.subrange(a as int, b - 1));
        b = b - 1;
    }
    text::slice(v, a, b)
}

/// Reads the client settings from the content of its environment file.
pub fn parse_client_args(defaults_file: &str) -> (r: ParsedClientArgs)
    ensures
        r.model() == client_args(defaults_file@),
{
    let v = text::chars_of(defaults_file);
    let ls = text::split_lines(&v);
    let line = line_with_prefix_chars(&ls, "SNAPDOG_CLIENT_ARGS=");
    let stripped = strip_prefixes_chars(&line, "SNAPDOG_CLIENT_ARGS=");
    let args = trim_char_chars(&stripped, '"');
    let parts = text::split_words(&args);
    let ghost t = parts.deep_view();
    let mut server_url: Vec<char> = Vec::new();
    let mut host_id: Vec<char> = Vec::new();
    let mut soundcard: Vec<char> = text::chars_of("default");
    let mut mixer: Vec<char> = text::chars_of("software");
    let mut latency: i32 = 0;
    let mut i: usize = 0;
    assert(t.skip(0) =~= t);
    while i < parts.len()
        invariant
            i <= parts.len(),
            t == parts.deep_view(),
            client_args(defaults_file@) == scan_args(
                t.skip(i as int),
                ClientArgsModel {
                    server_url: server_url@,
                    host_id: host_id@,
                    soundcard: soundcard@,
                    mixer: mixer@,
                    latency: latency as int,
                },
            ),
        decreases parts.len() - i,
    {
        let ghost s = t.skip(i as int);
        proof {
            text::lemma_deep_view_chars(&parts@[i as int]);
            assert(s[0] == parts@[i as int]@);
            if i + 1 < parts.len() {
                text::lemma_deep_view_chars(&parts@[i + 1]);
                assert(s[1] == parts@[i + 1]@);
                assert(s.skip(2) =~= t.skip(i + 2));
            }
            assert(s.skip(1) =~= t.skip(i + 1));
        }
        let has_value = i + 1 < parts.len();
        if has_value && text::is_text(&parts[i], "--hostID") {
            host_id = text::copy_chars(&parts[i + 1]);
            i = i + 2;
        } else if has_value && text::is_text(&parts[i], "--soundcard") {
            soundcard = text::copy_chars(&parts[i + 1]);
            i = i + 2;
        } else if has_value && text::is_text(&parts[i], "--mixer") {
            mixer = text::copy_chars(&parts[i + 1]);
            i = i + 2;
        } else if has_value && text::is_text(&parts[i], "--latency") {
            latency = match text::parse_i32_chars(&parts[i + 1]) {
                Some(x) => x,
                None => 0,
            };
            i = i + 2;
        } else if !(parts[i].len() > 0 && parts[i][0] == '-') && server_url.len() == 0 {
            proof {
                assert(text::starts_with(s[0], seq!['-']) == (s[0].len() > 0 && s[0][0] == '-'))
                    by {
                    if s[0].len() > 0 {
                        assert(s[0].take(1) =~= seq![s[0][0]]);
                        if s[0][0] != '-' {
                            assert(s[0].take(1)[0] != seq!['-'][0]);
                        }
                    }
                }
            }
            server_url = text::copy_chars(&parts[i]);
            i = i + 1;
        } else {
            proof {
                assert(text::starts_with(s[0], seq!['-']) == (s[0].len() > 0 && s[0][0] == '-'))
                    by {
                    if s[0].len() > 0 {
                        assert(s[0].take(1) =~= seq![s[0][0]]);
                        if s[0][0] != '-' {
                            assert(s[0].take(1)[0] != seq!['-'][0]);
                        }
                    }
                }
            }
            i = i + 1;
        }
    }
    proof {
        assert(t.skip(i as int) =~= Seq::<Seq<char>>::empty());
    }
    ParsedClientArgs {
        server_url: text::string_of(&server_url),
        host_id: text::string_of(&host_id),
        soundcard: text::string_of(&soundcard),
        mixer: text::string_of(&mixer),
        latency,
    }
}

// ---------------------------------------------------------------------------
// Writing the environment file
// ---------------------------------------------------------------------------
/// Characters that a client setting may hold: ASCII letters and digits and
/// `-`, `_`, `.`, `:`, `/`.
pub open spec fn arg_char_allowed(c: char) -> bool {
    let u = c as u32;
    (48 <= u && u <= 57) || (65 <= u && u <= 90) || (97 <= u && u <= 122) || c == '-' || c
        == '_' || c == '.' || c == ':' || c == '/'
}

pub open spec fn arg_allowed(s: Seq<char>) -> bool {
    forall|i: int| 0 <= i < s.len() ==> arg_char_allowed(#[trigger] s[i])
}

/// A value that passes the check cannot leave its place in the environment
/// file: it holds no quote, backslash, dollar sign, whitespace or line break.
pub proof fn law_accepted_arg_cannot_break_out(value: Seq<char>)
    requires
        arg_allowed(value),
    ensures
        forall|i: int|
            0 <= i < value.len() ==> {
                &&& #[trigger] value[i] != '"'
                &&& value[i] != '\\'
                &&& value[i] != '$'
                &&& !text::is_ws(value[i])
            },
{
    assert forall|i: int| 0 <= i < value.len() implies {
        &&& #[trigger] value[i] != '"'
        &&& value[i] != '\\'
        &&& value[i] != '$'
        &&& !text::is_ws(value[i])
    } by {
        assert(arg_char_allowed(value[i]));
    }
}

fn arg_char_ok(c: char) -> (r: bool)
    ensures
        r == arg_char_allowed(c),
{
    let u = c as u32;
    (48 <= u && u <= 57) || (65 <= u && u <= 90) || (97 <= u && u <= 122) || c == '-' || c
        == '_' || c == '.' || c == ':' || c == '/'
}

fn arg_ok(v: &Vec<char>) -> (r: bool)
    ensures
        r == arg_allowed(v@),
{
    let mut i: usize = 0;
    while i < v.len()
        invariant
            i <= v.len(),
            forall|k: int| 0 <= k < i ==> arg_char_allowed(#[trigger] v@[k]),
        decreases v.len() - i,
    {
        if !arg_char_ok(v[i]) {
            return false;
        }
        i = i + 1;
    }
    true
}

/// Checks that a client setting can stand in the environment file: only
/// ASCII letters, digits and `-_.:/`, so that it can neither split into
/// several arguments nor end the quoted value.
pub fn validate_client_arg(field: &str, value: &str) -> (r: Result<(), CtrlError>)
    ensures
        arg_allowed(value@) ==> r is Ok,
        !arg_allowed(value@) ==> (r matches Err(CtrlError::UnsupportedCharacters { field: f })
            && f@ == field@),
{
    let v = text::chars_of(value);
    if arg_ok(&v) {
        Ok(())
    } else {
        Err(CtrlError::UnsupportedCharacters { field: text::string_of(&text::chars_of(field)) })
    }
}

/// The sound card is written unless it is empty or `default`.
pub open spec fn sends_soundcard(c: ClientArgsModel) -> bool {
    c.soundcard.len() > 0 && c.soundcard != "default"@
}

/// The mixer is written unless it is empty or `software`.
pub open spec fn sends_mixer(c: ClientArgsModel) -> bool {
    c.mixer.len() > 0 && c.mixer != "software"@
}

/// The first setting, in the order server URL, host ID, sound card, mixer,
/// that is written and holds a character the file cannot carry.
pub open spec fn first_invalid_field(c: ClientArgsModel) -> Option<Seq<char>> {
    if c.server_url.len() > 0 && !arg_allowed(c.server_url) {
        Some("server_url"@)
    } else if c.host_id.len() > 0 && !arg_allowed(c.host_id) {
        Some("host_id"@)
    } else if sends_soundcard(c) && !arg_allowed(c.soundcard) {
        Some("soundcard"@)
    } else if sends_mixer(c) && !arg_allowed(c.mixer) {
        Some("mixer"@)
    } else {
        None
    }
}

/// The argument words written for the settings: the server URL, then
/// `--hostID`, `--soundcard`, `--mixer` and `--latency` with their values,
/// each left out when it has its default.
pub open spec fn client_arg_words(c: ClientArgsModel) -> Seq<Seq<char>> {
    (if c.server_url.len() > 0 {
        seq![c.server_url]
    } else {
        seq![]
    }) + (if c.host_id.len() > 0 {
        seq!["--hostID"@, c.host_id]
    } else {
        seq![]
    }) + (if sends_soundcard(c) {
        seq!["--soundcard"@, c.soundcard]
    } else {
        seq![]
    }) + (if sends_mixer(c) {
        seq!["--mixer"@, c.mixer]
    } else {
        seq![]
    }) + (if c.latency != 0 {
        seq!["--latency"@, text::signed_decimal(c.latency)]
    } else {
        seq![]
    })
}

/// The environment file for the settings:
/// `SNAPDOG_CLIENT_ARGS="<words separated by spaces>"` and a newline.
pub open spec fn client_defaults_text(c: ClientArgsModel) -> Seq<char> {
    args_key() + seq!['"'] + text::join(client_arg_words(c), seq![' ']) + seq!['"', '\n']
}

fn push_word(ws: &mut Vec<Vec<char>>, w: Vec<char>)
    ensures
        final(ws).deep_view() == old(ws).deep_view().push(w@),
{
    let ghost before = ws.deep_view();
    proof {
        text::lemma_deep_view_chars(&w);
    }
    ws.push(w);
    assert(ws.deep_view() =~= before.push(w@));
}

/// The content of the client's environment file for the settings, or the
/// first setting that cannot be written.
#[verifier::rlimit(40)]
pub fn client_defaults_file(config: &ClientConfig) -> (r: Result<String, CtrlError>)
    ensures
        match first_invalid_field(config.model()) {
            None => r matches Ok(s) && s@ == client_defaults_text(config.model()),
            Some(f) => r matches Err(CtrlError::UnsupportedCharacters { field: g }) && g@ == f,
        },
{
    let ghost c = config.model();
    let url = text::chars_of(config.server_url.as_str());
    let host = text::chars_of(config.host_id.as_str());
    let card = text::chars_of(config.soundcard.as_str());
    let mixer = text::chars_of(config.mixer.as_str());
    let mut ws: Vec<Vec<char>> = Vec::new();
    if url.len() > 0 {
        validate_client_arg("server_url", config.server_url.as_str())?;
        push_word(&mut ws, text::copy_chars(&url));
    }
    assert(ws.deep_view() =~= if c.server_url.len() > 0 {
        seq![c.server_url]
    } else {
        seq![]
    });
    let ghost w1 = ws.deep_view();
    if host.len() > 0 {
        validate_client_arg("host_id", config.host_id.as_str())?;
        push_word(&mut ws, text::chars_of("--hostID"));
        push_word(&mut ws, text::copy_chars(&host));
    }
    assert(ws.deep_view() =~= w1 + if c.host_id.len() > 0 {
        seq!["--hostID"@, c.host_id]
    } else {
        seq![]
    });
    let ghost w2 = ws.deep_view();
    let send_card = card.len() > 0 && !text::is_text(&card, "default");
    if send_card {
        validate_client_arg("soundcard", config.soundcard.as_str())?;
        push_word(&mut ws, text::chars_of("--soundcard"));
        push_word(&mut ws, text::copy_chars(&card));
    }
    assert(ws.deep_view() =~= w2 + if sends_soundcard(c) {
        seq!["--soundcard"@, c.soundcard]
    } else {
        seq![]
    });
    let ghost w3 = ws.deep_view();
    let send_mixer = mixer.len() > 0 && !text::is_text(&mixer, "software");
    if send_mixer {
        validate_client_arg("mixer", config.mixer.as_str())?;
        push_word(&mut ws, text::chars_of("--mixer"));
        push_word(&mut ws, text::copy_chars(&mixer));
    }
    assert(ws.deep_view() =~= w3 + if sends_mixer(c) {
        seq!["--mixer"@, c.mixer]
    } else {
        seq![]
    });
    let ghost w4 = ws.deep_view();
    if config.latency != 0 {
        push_word(&mut ws, text::chars_of("--latency"));
        let mut lat: Vec<char> = Vec::new();
        text::push_signed_decimal(&mut lat, config.latency as i64);
        assert(lat@ =~= text::signed_decimal(c.latency));
        push_word(&mut ws, lat);
    }
    assert(ws.deep_view() =~= w4 + if c.latency != 0 {
        seq!["--latency"@, text::signed_decimal(c.latency)]
    } else {
        seq![]
    });
    assert(ws.deep_view() == client_arg_words(c));
    let body = text::join_chars(&ws, " ");
    proof {
        reveal_strlit(" ");
        assert(" "@ =~= seq![' ']);
    }
    let mut out: Vec<char> = text::chars_of("SNAPDOG_CLIENT_ARGS=");
    out.push('"');
    text::push_all(&mut out, &body);
    out.push('"');
    out.push('\n');
    assert(out@ =~= client_defaults_text(c));
    Ok(text::string_of(&out))
}

// ---------------------------------------------------------------------------
// Reading back what was written
// ---------------------------------------------------------------------------
/// A word that the environment file carries unchanged: not empty, and free
/// of whitespace, double quotes and line breaks.
pub open spec fn plain_word(w: Seq<char>) -> bool {
    w.len() > 0 && forall|i: int|
        0 <= i < w.len() ==> !text::is_ws(#[trigger] w[i]) && w[i] != '"' && w[i] != '\n'
}

/// Text without double quotes and line breaks.
pub open spec fn quiet(s: Seq<char>) -> bool {
    forall|i: int| 0 <= i < s.len() ==> #[trigger] s[i] != '"' && s[i] != '\n'
}

proof fn lemma_join_front(ws: Seq<Seq<char>>, sep: Seq<char>)
    requires
        ws.len() >= 2,
    ensures
        text::join(ws, sep) == ws[0] + sep + text::join(ws.drop_first(), sep),
    decreases ws.len(),
{
    if ws.len() == 2 {
        assert(ws.drop_last()[0] == ws[0]);
        assert(ws.drop_first()[0] == ws[1]);
        assert(text::join(ws.drop_last(), sep) == ws[0]);
        assert(text::join(ws.drop_first(), sep) == ws[1]);
    } else {
        lemma_join_front(ws.drop_last(), sep);
        assert(ws.drop_last().drop_first() =~= ws.drop_first().drop_last());
        assert(ws.drop_first().last() == ws.last());
        assert(ws.drop_last()[0] == ws[0]);
        assert(text::join(ws.drop_first(), sep) == text::join(ws.drop_first().drop_last(), sep)
            + sep + ws.drop_first().last());
        assert(text::join(ws, sep) =~= ws[0] + sep + (text::join(ws.drop_first().drop_last(), sep)
            + sep + ws.last()));
    }
}

proof fn lemma_words_plain(w: Seq<char>)
    requires
        plain_word(w),
    ensures
        text::words(w) == seq![w],
{
    text::lemma_word_len(w, w.len() as int);
    assert(w.take(w.len() as int) =~= w);
    assert(w.skip(w.len() as int) =~= Seq::<char>::empty());
    assert(text::words(Seq::<char>::empty()) =~= Seq::<Seq<char>>::empty());
    assert(text::words(w) == seq![w.take(w.len() as int)] + text::words(w.skip(w.len() as int)));
    assert(seq![w] + Seq::<Seq<char>>::empty() =~= seq![w]);
}

proof fn lemma_words_sep(w: Seq<char>, rest: Seq<char>)
    requires
        plain_word(w),
    ensures
        text::words(w + seq![' '] + rest) == seq![w] + text::words(rest),
{
    let s = w + seq![' '] + rest;
    assert(s[w.len() as int] == ' ');
    assert forall|k: int| 0 <= k < w.len() implies !text::is_ws(s[k]) by {
        assert(s[k] == w[k]);
    }
    text::lemma_word_len(s, w.len() as int);
    assert(s[0] == w[0]);
    assert(s.take(w.len() as int) =~= w);
    let t = s.skip(w.len() as int);
    assert(t =~= seq![' '] + rest);
    assert(t.drop_first() =~= rest);
    assert(t[0] == ' ');
    assert(text::words(t) == text::words(rest));
    assert(text::words(s) == seq![s.take(w.len() as int)] + text::words(t));
}

proof fn lemma_words_join(ws: Seq<Seq<char>>)
    requires
        forall|i: int| 0 <= i < ws.len() ==> plain_word(#[trigger] ws[i]),
    ensures
        text::words(text::join(ws, seq![' '])) == ws,
        quiet(text::join(ws, seq![' '])),
    decreases ws.len(),
{
    if ws.len() == 0 {
        assert(text::words(Seq::<char>::empty()) =~= Seq::<Seq<char>>::empty());
    } else if ws.len() == 1 {
        assert(plain_word(ws[0]));
        lemma_words_plain(ws[0]);
        assert(seq![ws[0]] =~= ws);
    } else {
        lemma_join_front(ws, seq![' ']);
        assert forall|i: int| 0 <= i < ws.drop_first().len() implies plain_word(
            #[trigger] ws.drop_first()[i],
        ) by {
            assert(ws.drop_first()[i] == ws[i + 1]);
        }
        lemma_words_join(ws.drop_first());
        assert(plain_word(ws[0]));
        lemma_words_sep(ws[0], text::join(ws.drop_first(), seq![' ']));
        assert(seq![ws[0]] + ws.drop_first() =~= ws);
        let j = text::join(ws, seq![' ']);
        let r = text::join(ws.drop_first(), seq![' ']);
        assert forall|i: int| 0 <= i < j.len() implies #[trigger] j[i] != '"' && j[i] != '\n' by {
            if i < ws[0].len() {
                assert(j[i] == ws[0][i]);
            } else if i == ws[0].len() {
                assert(j[i] == ' ');
            } else {
                assert(j[i] == r[i - ws[0].len() - 1]);
            }
        }
    }
}

/// Reading back a decimal representation of an `i32` gives the number.
proof fn lemma_signed_decimal_roundtrip(x: int)
    requires
        i32::MIN <= x <= i32::MAX,
    ensures
        text::parse_signed(text::signed_decimal(x), i32::MAX as nat) == Some(x),
        plain_word(text::signed_decimal(x)),
{
    if x < 0 {
        let d = text::decimal((-x) as nat);
        text::lemma_decimal_roundtrip((-x) as nat);
        let s = text::signed_decimal(x);
        assert(s.drop_first() =~= d);
        assert forall|i: int| 0 <= i < s.len() implies !text::is_ws(#[trigger] s[i]) && s[i] != '"'
            && s[i] != '\n' by {
            if i > 0 {
                assert(s[i] == d[i - 1]);
                assert(text::is_digit(d[i - 1]));
            }
        }
    } else {
        let d = text::decimal(x as nat);
        text::lemma_decimal_roundtrip(x as nat);
        assert(text::is_digit(d[0]));
        assert forall|i: int| 0 <= i < d.len() implies !text::is_ws(#[trigger] d[i]) && d[i] != '"'
            && d[i] != '\n' by {
            assert(text::is_digit(d[i]));
        }
    }
}

proof fn lemma_allowed_plain(w: Seq<char>)
    requires
        w.len() > 0,
        arg_allowed(w),
    ensures
        plain_word(w),
{
    assert forall|i: int| 0 <= i < w.len() implies !text::is_ws(#[trigger] w[i]) && w[i] != '"'
        && w[i] != '\n' by {
        assert(arg_char_allowed(w[i]));
    }
}

proof fn lemma_keywords()
    ensures
        plain_word("--hostID"@),
        plain_word("--soundcard"@),
        plain_word("--mixer"@),
        plain_word("--latency"@),
        text::starts_with("--hostID"@, seq!['-']),
        text::starts_with("--soundcard"@, seq!['-']),
        text::starts_with("--mixer"@, seq!['-']),
        text::starts_with("--latency"@, seq!['-']),
        "--hostID"@ != "--soundcard"@,
        "--hostID"@ != "--mixer"@,
        "--hostID"@ != "--latency"@,
        "--soundcard"@ != "--mixer"@,
        "--soundcard"@ != "--latency"@,
        "--mixer"@ != "--latency"@,
{
    reveal_strlit("--hostID");
    reveal_strlit("--soundcard");
    reveal_strlit("--mixer");
    reveal_strlit("--latency");
    assert("--hostID"@.take(1) =~= seq!['-']);
    assert("--soundcard"@.take(1) =~= seq!['-']);
    assert("--mixer"@.take(1) =~= seq!['-']);
    assert("--latency"@.take(1) =~= seq!['-']);
    assert("--hostID"@[2] != "--soundcard"@[2]);
    assert("--hostID"@[2] != "--mixer"@[2]);
    assert("--hostID"@[2] != "--latency"@[2]);
    assert("--soundcard"@[2] != "--mixer"@[2]);
    assert("--soundcard"@[2] != "--latency"@[2]);
    assert("--mixer"@[2] != "--latency"@[2]);
}

/// Scanning a keyword and its value sets the setting it names.
proof fn lemma_scan_pair(k: Seq<char>, v: Seq<char>, rest: Seq<Seq<char>>, acc: ClientArgsModel)
    ensures
        k == "--hostID"@ ==> scan_args(seq![k, v] + rest, acc) == scan_args(
            rest,
            ClientArgsModel { host_id: v, ..acc },
        ),
        k == "--soundcard"@ ==> scan_args(seq![k, v] + rest, acc) == scan_args(
            rest,
            ClientArgsModel { soundcard: v, ..acc },
        ),
        k == "--mixer"@ ==> scan_args(seq![k, v] + rest, acc) == scan_args(
            rest,
            ClientArgsModel { mixer: v, ..acc },
        ),
        k == "--latency"@ ==> scan_args(seq![k, v] + rest, acc) == scan_args(
            rest,
            ClientArgsModel {
                latency: match text::parse_signed(v, i32::MAX as nat) {
                    Some(x) => x,
                    None => 0,
                },
                ..acc
            },
        ),
{
    lemma_keywords();
    let t = seq![k, v] + rest;
    assert(t[0] == k);
    assert(t[1] == v);
    assert(t.skip(2) =~= rest);
}

/// The argument text of a written file is the argument words joined by
/// spaces, and the words read back from it are the words written.
proof fn lemma_written_args_text(c: ClientArgsModel)
    requires
        first_invalid_field(c) is None,
        i32::MIN <= c.latency <= i32::MAX,
    ensures
        args_text(client_defaults_text(c)) == text::join(client_arg_words(c), seq![' ']),
        text::words(text::join(client_arg_words(c), seq![' '])) == client_arg_words(c),
{
    lemma_keywords();
    let w = client_arg_words(c);
    assert forall|i: int| 0 <= i < w.len() implies plain_word(#[trigger] w[i]) by {
        if c.server_url.len() > 0 {
            lemma_allowed_plain(c.server_url);
        }
        if c.host_id.len() > 0 {
            lemma_allowed_plain(c.host_id);
        }
        if sends_soundcard(c) {
            lemma_allowed_plain(c.soundcard);
        }
        if sends_mixer(c) {
            lemma_allowed_plain(c.mixer);
        }
        if c.latency != 0 {
            lemma_signed_decimal_roundtrip(c.latency);
        }
    }
    lemma_words_join(w);
    let body = text::join(w, seq![' ']);
    // The file is a single line.
    let key = args_key();
    reveal_strlit("SNAPDOG_CLIENT_ARGS=");
    let content = client_defaults_text(c);
    let line = key + seq!['"'] + body + seq!['"'];
    assert(content =~= line + seq!['\n']);
    assert forall|k: int| 0 <= k < line.len() implies line[k] != '\n' by {
        if k < key.len() {
        } else if k == key.len() {
        } else if k < key.len() + 1 + body.len() {
            assert(line[k] == body[k - key.len() - 1]);
        } else {
        }
    }
    assert forall|k: int| 0 <= k < line.len() implies content[k] != '\n' by {
        assert(content[k] == line[k]);
    }
    text::lemma_find_char_found(content, '\n', line.len() as int);
    assert(content.take(line.len() as int) =~= line);
    assert(content.skip(line.len() as int + 1) =~= Seq::<char>::empty());
    assert(text::lines(content.skip(line.len() as int + 1)) =~= Seq::<Seq<char>>::empty());
    assert(text::strip_cr(line) == line);
    assert(text::lines(content) =~= seq![line]);
    // The line is found, and its value is the body.
    assert(line.take(key.len() as int) =~= key);
    assert(line_with_prefix(seq![line], key) == line);
    let q = seq!['"'] + body + seq!['"'];
    assert(line.skip(key.len() as int) =~= q);
    assert(!text::starts_with(q, key)) by {
        if key.len() <= q.len() {
            assert(q.take(key.len() as int)[0] != key[0]);
        }
    }
    assert(strip_prefixes(q, key) == q);
    assert(strip_prefixes(line, key) == q);
    assert(q.drop_first() =~= body + seq!['"']);
    let b2 = body + seq!['"'];
    if body.len() > 0 {
        assert(b2[0] == body[0]);
        assert(trim_start_char(b2, '"') == b2);
        assert(b2.drop_last() =~= body);
        assert(trim_end_char(body, '"') == body);
    } else {
        assert(b2.drop_first() =~= Seq::<char>::empty());
        assert(b2[0] == '"');
        assert(trim_start_char(Seq::<char>::empty(), '"') == Seq::<char>::empty());
        assert(trim_start_char(b2, '"') == trim_start_char(b2.drop_first(), '"'));
        assert(trim_end_char(Seq::<char>::empty(), '"') == Seq::<char>::empty());
        assert(body =~= Seq::<char>::empty());
    }
    assert(args_text(content) == body);
}

/// Writing client settings to the environment file and reading the file
/// back gives the settings again, with the defaults standing for settings
/// that were left out; this holds whenever the file can be written and the
/// server URL does not start with `-`.
pub proof fn law_client_file_roundtrip(c: ClientArgsModel)
    requires
        first_invalid_field(c) is None,
        !text::starts_with(c.server_url, seq!['-']),
        i32::MIN <= c.latency <= i32::MAX,
    ensures
        client_args(client_defaults_text(c)) == (ClientArgsModel {
            server_url: c.server_url,
            host_id: c.host_id,
            soundcard: if sends_soundcard(c) {
                c.soundcard
            } else {
                "default"@
            },
            mixer: if sends_mixer(c) {
                c.mixer
            } else {
                "software"@
            },
            latency: c.latency,
        }),
{
    lemma_written_args_text(c);
    lemma_keywords();
    let w = client_arg_words(c);
    let body = text::join(w, seq![' ']);
    let content = client_defaults_text(c);
    assert(args_text(content) == body);
    // Scanning the words sets each setting.
    let s1: Seq<Seq<char>> = if c.server_url.len() > 0 {
        seq![c.server_url]
    } else {
        seq![]
    };
    let s2: Seq<Seq<char>> = if c.host_id.len() > 0 {
        seq!["--hostID"@, c.host_id]
    } else {
        seq![]
    };
    let s3: Seq<Seq<char>> = if sends_soundcard(c) {
        seq!["--soundcard"@, c.soundcard]
    } else {
        seq![]
    };
    let s4: Seq<Seq<char>> = if sends_mixer(c) {
        seq!["--mixer"@, c.mixer]
    } else {
        seq![]
    };
    let s5: Seq<Seq<char>> = if c.latency != 0 {
        seq!["--latency"@, text::signed_decimal(c.latency)]
    } else {
        seq![]
    };
    let acc0 = default_args();
    let acc1 = ClientArgsModel { server_url: c.server_url, ..acc0 };
    let acc2 = ClientArgsModel { host_id: c.host_id, ..acc1 };
    let acc3 = ClientArgsModel {
        soundcard: if sends_soundcard(c) {
            c.soundcard
        } else {
            "default"@
        },
        ..acc2
    };
    let acc4 = ClientArgsModel {
        mixer: if sends_mixer(c) {
            c.mixer
        } else {
            "software"@
        },
        ..acc3
    };
    let acc5 = ClientArgsModel { latency: c.latency, ..acc4 };
    let r4 = s5;
    let r3 = s4 + r4;
    let r2 = s3 + r3;
    let r1 = s2 + r2;
    assert(w =~= s1 + r1);
    // server URL
    if c.server_url.len() > 0 {
        let t = s1 + r1;
        assert(t[0] == c.server_url);
        assert(t.skip(1) =~= r1);
        assert(scan_args(t, acc0) == scan_args(r1, acc1));
    } else {
        assert(s1 + r1 =~= r1);
        assert(c.server_url =~= acc0.server_url);
        assert(acc1 == acc0);
    }
    if c.host_id.len() > 0 {
        lemma_scan_pair("--hostID"@, c.host_id, r2, acc1);
    } else {
        assert(s2 + r2 =~= r2);
        assert(c.host_id =~= acc1.host_id);
        assert(acc2 == acc1);
    }
    if sends_soundcard(c) {
        lemma_scan_pair("--soundcard"@, c.soundcard, r3, acc2);
    } else {
        assert(s3 + r3 =~= r3);
        assert(acc3 == acc2);
    }
    if sends_mixer(c) {
        lemma_scan_pair("--mixer"@, c.mixer, r4, acc3);
    } else {
        assert(s4 + r4 =~= r4);
        assert(acc4 == acc3);
    }
    if c.latency != 0 {
        lemma_signed_decimal_roundtrip(c.latency);
        lemma_scan_pair("--latency"@, text::signed_decimal(c.latency), seq![], acc4);
        assert(s5 =~= seq!["--latency"@, text::signed_decimal(c.latency)] + Seq::<
            Seq<char>,
        >::empty());
    } else {
        assert(acc5 == acc4);
    }
    assert(scan_args(Seq::<Seq<char>>::empty(), acc5) == acc5);
}

/// The client settings shown in the web UI: those of the environment file,
/// the mDNS service type the client browses, whether its unit runs, and the
/// sound cards on offer.
pub fn client_config(defaults_file: &str, running: bool, available_soundcards: Vec<String>) -> (r: ClientConfig)
    ensures
        r.model() == client_args(defaults_file@),
        r.mdns_name@ == "_snapdog._tcp"@,
        r.running == running,
        r.available_soundcards@ == available_soundcards@,
{
    let args = parse_client_args(defaults_file);
    ClientConfig {
        server_url: args.server_url,
        host_id: args.host_id,
        soundcard: args.soundcard,
        mixer: args.mixer,
        latency: args.latency,
        mdns_name: text::string_of(&text::chars_of("_snapdog._tcp")),
        running,
        available_soundcards,
    }
}

} // verus!
