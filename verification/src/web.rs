//! Decisions of the web front end: which embedded asset a request names and
//! its media type, bearer tokens, password changes and the soft access
//! point's password rule.
use vstd::prelude::*;
use crate::text;
use crate::error::CtrlError;

verus! {

fn text_string(s: &str) -> (r: String)
    ensures
        r@ == s@,
{
    text::string_of(&text::chars_of(s))
}

/// `s` without any leading `'/'`.
pub open spec fn without_slashes(s: Seq<char>) -> Seq<char>
    decreases s.len(),
{
    if s.len() > 0 && s[0] == '/' {
        without_slashes(s.drop_first())
    } else {
        s
    }
}

/// The embedded asset a request path names: the path without its leading
/// slashes, `index.html` when nothing is left.
pub open spec fn asset_path_of(uri_path: Seq<char>) -> Seq<char> {
    if without_slashes(uri_path).len() == 0 {
        "index.html"@
    } else {
        without_slashes(uri_path)
    }
}

/// The embedded asset a request path names.
pub fn asset_path(uri_path: &str) -> (r: String)
    ensures
        r@ == asset_path_of(uri_path@),
{
    let v = text::chars_of(uri_path);
    let mut a: usize = 0;
    assert(v@.skip(0) =~= v@);
    while a < v.len() && v[a] == '/'
        invariant
            a <= v.len(),
            without_slashes(v@.skip(a as int)) == without_slashes(v@),
        decreases v.len() - a,
    {
        assert(v@.skip(a as int).drop_first() =~= v@.skip(a + 1));
        a = a + 1;
    }
    let rest = text::slice(&v, a, v.len());
    assert(rest@ =~= v@.skip(a as int));
    if rest.len() == 0 {
        text_string("index.html")
    } else {
        text::string_of(&rest)
    }
}

/// The media type `mime_guess` gives a path (by its extension).
pub uninterp spec fn mime_for_path(path: Seq<char>) -> Seq<char>;

/// Calls `mime_guess::from_path(path).first_or_octet_stream()` and gives the
/// media type as text. Claimed: the result is named `mime_for_path`, and a
/// path without any `'.'` has no extension and gets
/// `application/octet-stream`.
#[verifier::external_body]
fn guess_mime(path: &str) -> (r: String)
    ensures
        r@ == mime_for_path(path@),
        (forall|i: int| 0 <= i < path@.len() ==> path@[i] != '.') ==> r@
            == "application/octet-stream"@,
{
    mime_guess::from_path(path).first_or_octet_stream().as_ref().to_string()
}

/// The embedded asset a request path names and the media type it is served
/// with.
pub fn asset_for(uri_path: &str) -> (r: (String, String))
    ensures
        r.0@ == asset_path_of(uri_path@),
        r.1@ == mime_for_path(asset_path_of(uri_path@)),
{
    let path = asset_path(uri_path);
    let mime = guess_mime(path.as_str());
    (path, mime)
}

/// The token of an `Authorization: Bearer TOKEN` header value.
pub fn bearer_token(header: &str) -> (r: Option<String>)
    ensures
        text::starts_with(header@, "Bearer "@) ==> (r matches Some(t) && t@ == header@.skip(7)),
        !text::starts_with(header@, "Bearer "@) ==> r is None,
{
    proof {
        reveal_strlit("Bearer ");
    }
    let v = text::chars_of(header);
    if text::starts_with_text(&v, "Bearer ") {
        let t = text::slice(&v, 7, v.len());
        assert(t@ =~= header@.skip(7));
        Some(text::string_of(&t))
    } else {
        None
    }
}

/// What a request to change the web UI password does: set a new password,
/// or remove it (and with it the login requirement).
pub enum PasswordChange {
    Replace(String),
    Remove,
}

/// A non-empty new password is set; an empty or missing one removes the
/// password.
pub fn password_change(new: Option<String>) -> (r: PasswordChange)
    ensures
        match new {
            Some(pw) => if pw@.len() > 0 {
                r matches PasswordChange::Replace(p) && p@ == pw@
            } else {
                r is Remove
            },
            None => r is Remove,
        },
{
    match new {
        Some(pw) => {
            if pw.as_str().is_empty() {
                PasswordChange::Remove
            } else {
                PasswordChange::Replace(pw)
            }
        },
        None => PasswordChange::Remove,
    }
}

/// The root password of the console that goes with a password change: the
/// new password, or `snapdog` when the password is removed.
pub fn system_password(change: &PasswordChange) -> (r: String)
    ensures
        match change {
            PasswordChange::Replace(p) => r@ == p@,
            PasswordChange::Remove => r@ == "snapdog"@,
        },
{
    match change {
        PasswordChange::Replace(p) => text_string(p.as_str()),
        PasswordChange::Remove => text_string("snapdog"),
    }
}

/// The line `chpasswd` reads to set the root password.
pub fn chpasswd_input(password: &str) -> (r: String)
    ensures
        r@ == "root:"@ + password@ + seq!['\n'],
{
    let mut out: Vec<char> = Vec::new();
    text::push_str(&mut out, "root:");
    text::push_str(&mut out, password);
    out.push('\n');
    assert(out@ =~= "root:"@ + password@ + seq!['\n']);
    text::string_of(&out)
}

/// The number of bytes UTF-8 takes for a character.
pub open spec fn utf8_width(c: char) -> nat {
    let u = c as u32;
    if u < 0x80 {
        1
    } else if u < 0x800 {
        2
    } else if u < 0x10000 {
        3
    } else {
        4
    }
}

/// The number of bytes UTF-8 takes for a text.
pub open spec fn utf8_len(s: Seq<char>) -> nat
    decreases s.len(),
{
    if s.len() == 0 {
        0
    } else {
        utf8_len(s.drop_last()) + utf8_width(s.last())
    }
}

/// The soft access point's password must be at least 8 bytes long (in
/// UTF-8).
pub fn check_softap_password(password: &str) -> (r: Result<(), CtrlError>)
    ensures
        utf8_len(password@) >= 8 ==> r is Ok,
        utf8_len(password@) < 8 ==> r matches Err(CtrlError::PasswordTooShort),
{
    let v = text::chars_of(password);
    let mut bytes: u64 = 0;
    let mut i: usize = 0;
    while i < v.len() && bytes < 8
        invariant
            i <= v.len(),
            bytes == utf8_len(v@.take(i as int)),
        decreases v.len() - i,
    {
        let u = v[i] as u32;
        let w: u64 = if u < 0x80 {
            1
        } else if u < 0x800 {
            2
        } else if u < 0x10000 {
            3
        } else {
            4
        };
        assert(v@.take(i + 1).drop_last() =~= v@.take(i as int));
        bytes = bytes + w;
        i = i + 1;
    }
    proof {
        if bytes >= 8 {
            lemma_utf8_len_prefix(v@, i as int);
        } else {
            assert(v@.take(i as int) =~= v@);
        }
    }
    if bytes < 8 {
        Err(CtrlError::PasswordTooShort)
    } else {
        Ok(())
    }
}

proof fn lemma_utf8_len_prefix(s: Seq<char>, i: int)
    requires
        0 <= i <= s.len(),
    ensures
        utf8_len(s.take(i)) <= utf8_len(s),
    decreases s.len(),
{
    if i < s.len() {
        assert(s.drop_last().take(i) =~= s.take(i));
        lemma_utf8_len_prefix(s.drop_last(), i);
    } else {
        assert(s.take(i) =~= s);
    }
}

/// Whether the update status asks RAUC for install progress: only while an
/// installation runs.
pub fn wants_progress(operation: &str) -> (r: bool)
    ensures
        r == (operation@ == "installing"@),
{
    text::is_text(&text::chars_of(operation), "installing")
}

/// The port the web server listens on: `SNAPDOG_SETUP_PORT` when it is set
/// to a `u16`, else 80.
pub fn listen_port(setting: Option<&str>) -> (r: u16)
    ensures
        r == match setting {
            Some(s) => match text::parse_unsigned(s@, 65535) {
                Some(p) => p,
                None => 80,
            },
            None => 80,
        },
{
    match setting {
        Some(s) => match text::parse_unsigned_chars(&text::chars_of(s), 65535) {
            Some(p) => p as u16,
            None => 80,
        },
        None => 80,
    }
}

} // verus!
