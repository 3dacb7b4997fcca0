//! Settings archives: the gzip-compressed tar files of `/data` that the web
//! UI exports, previews and imports.
use vstd::prelude::*;
use crate::text;
use crate::error::CtrlError;

verus! {

/// The largest archive accepted for preview or import (10 MB).
pub const MAX_UPLOAD_SIZE: usize = 10485760;

/// Summary of an archive's contents for preview.
pub struct SettingsPreview {
    pub hostname: Option<String>,
    pub wifi_configured: bool,
    pub ssh_keys_present: bool,
    pub has_auth: bool,
    pub files: Vec<String>,
}

/// One member of an archive: its path, and its content when that is UTF-8
/// text that could be read.
pub struct ArchiveEntry {
    pub path: String,
    pub content: Option<String>,
}

/// Why listing an archive stopped.
#[derive(Clone, Copy, PartialEq, Eq, Structural)]
pub enum ArchiveFault {
    /// The data is no archive that can be read at all.
    Unreadable,
    /// An entry could not be read.
    CorruptEntry,
    /// An entry's path could not be decoded.
    InvalidPath,
}

pub open spec fn entry_model(e: ArchiveEntry) -> (Seq<char>, Option<Seq<char>>) {
    (
        e.path@,
        match e.content {
            Some(c) => Some(c@),
            None => None,
        },
    )
}

pub open spec fn entries_model(es: Seq<ArchiveEntry>) -> Seq<(Seq<char>, Option<Seq<char>>)> {
    es.map_values(|e: ArchiveEntry| entry_model(e))
}

/// What reading `data` as a gzip-compressed tar archive yields: the entries
/// (path, UTF-8 content) up to the first that cannot be read, and why
/// reading stopped early, if it did.
pub uninterp spec fn archive_listing(data: Seq<u8>) -> (
    Seq<(Seq<char>, Option<Seq<char>>)>,
    Option<ArchiveFault>,
);

/// Lists a gzip-compressed tar archive with `flate2::read::GzDecoder` and
/// `tar::Archive::entries`: each entry's path (`Entry::path`, converted
/// lossily to UTF-8) and its content (`Read::read_to_string`, absent when
/// that fails); listing stops at the first entry or path that cannot be
/// read. The contract claims only that the result is a function of the
/// bytes, named `archive_listing`.
#[verifier::external_body]
fn list_archive(data: &[u8]) -> (r: (Vec<ArchiveEntry>, Option<ArchiveFault>))
    ensures
        (entries_model(r.0@), r.1) == archive_listing(data@),
{
    let mut ar = tar::Archive::new(flate2::read::GzDecoder::new(data));
    let mut out = Vec::new();
    let Ok(entries) = ar.entries() else { return (out, Some(ArchiveFault::Unreadable)) };
    for item in entries {
        let Ok(mut e) = item else { return (out, Some(ArchiveFault::CorruptEntry)) };
        let Ok(p) = e.path() else { return (out, Some(ArchiveFault::InvalidPath)) };
        let path = p.to_string_lossy().to_string();
        let mut s = String::new();
        let content = std::io::Read::read_to_string(&mut e, &mut s).ok().map(|_| s);
        out.push(ArchiveEntry { path, content });
    }
    (out, None)
}

/// The error a listing fault is reported as.
pub open spec fn fault_error(f: ArchiveFault) -> CtrlError {
    match f {
        ArchiveFault::Unreadable => CtrlError::InvalidArchive,
        ArchiveFault::CorruptEntry => CtrlError::CorruptEntry,
        ArchiveFault::InvalidPath => CtrlError::InvalidEntryPath,
    }
}

fn fault_to_error(f: ArchiveFault) -> (r: CtrlError)
    ensures
        r == fault_error(f),
{
    match f {
        ArchiveFault::Unreadable => CtrlError::InvalidArchive,
        ArchiveFault::CorruptEntry => CtrlError::CorruptEntry,
        ArchiveFault::InvalidPath => CtrlError::InvalidEntryPath,
    }
}

// ---------------------------------------------------------------------------
// Validation
// ---------------------------------------------------------------------------
/// Refuses archives above the size limit.
pub fn validate_size(data: &[u8]) -> (r: Result<(), CtrlError>)
    ensures
        r is Ok <==> data@.len() <= MAX_UPLOAD_SIZE,
        r is Err ==> r == Err::<(), CtrlError>(CtrlError::ArchiveTooLarge),
{
    if data.len() > MAX_UPLOAD_SIZE {
        Err(CtrlError::ArchiveTooLarge)
    } else {
        Ok(())
    }
}

/// A path that could leave the data directory: it holds `..` or is absolute.
pub open spec fn escapes(path: Seq<char>) -> bool {
    text::contains(path, ".."@) || text::starts_with(path, seq!['/'])
}

/// Refuses paths that contain `..` or are absolute.
pub fn validate_path(path: &str) -> (r: Result<(), CtrlError>)
    ensures
        r is Ok <==> !escapes(path@),
        r is Err ==> (r matches Err(CtrlError::PathTraversal { path: p }) && p@ == path@),
{
    let v = text::chars_of(path);
    let absolute = v.len() > 0 && v[0] == '/';
    proof {
        if v@.len() > 0 {
            assert(v@.take(1) =~= seq![v@[0]]);
            if v@[0] != '/' {
                assert(v@.take(1)[0] != seq!['/'][0]);
            }
        }
    }
    if text::contains_text(&v, "..") || absolute {
        Err(CtrlError::PathTraversal { path: text::string_of(&v) })
    } else {
        Ok(())
    }
}

/// The path of the first entry that escapes the data directory.
pub open spec fn first_escape(es: Seq<(Seq<char>, Option<Seq<char>>)>) -> Option<Seq<char>>
    decreases es.len(),
{
    if es.len() == 0 {
        None
    } else if escapes(es[0].0) {
        Some(es[0].0)
    } else {
        first_escape(es.drop_first())
    }
}

/// A listing without a first escaping path has no escaping path at all: an
/// archive that passes the check names only paths inside the data
/// directory.
pub proof fn law_checked_paths_stay_inside(es: Seq<(Seq<char>, Option<Seq<char>>)>)
    requires
        first_escape(es) is None,
    ensures
        forall|i: int| 0 <= i < es.len() ==> !escapes(#[trigger] es[i].0),
    decreases es.len(),
{
    if es.len() > 0 {
        law_checked_paths_stay_inside(es.drop_first());
        assert forall|i: int| 0 <= i < es.len() implies !escapes(#[trigger] es[i].0) by {
            if i > 0 {
                assert(es[i] == es.drop_first()[i - 1]);
            }
        }
    }
}

/// Checks every path of a listing, then the listing's fault: the first
/// escaping path is refused, else the fault that stopped the listing.
pub fn check_listing(entries: &Vec<ArchiveEntry>, fault: Option<ArchiveFault>) -> (r: Result<(), CtrlError>)
    ensures
        match first_escape(entries_model(entries@)) {
            Some(p) => r matches Err(CtrlError::PathTraversal { path }) && path@ == p,
            None => match fault {
                Some(f) => r == Err::<(), CtrlError>(fault_error(f)),
                None => r is Ok,
            },
        },
{
    let ghost m = entries_model(entries@);
    let mut i: usize = 0;
    assert(m.skip(0) =~= m);
    while i < entries.len()
        invariant
            i <= entries.len(),
            m == entries_model(entries@),
            first_escape(m) == first_escape(m.skip(i as int)),
        decreases entries.len() - i,
    {
        assert(m.skip(i as int)[0] == entry_model(entries@[i as int]));
        assert(m.skip(i as int).drop_first() =~= m.skip(i + 1));
        validate_path(entries[i].path.as_str())?;
        i = i + 1;
    }
    assert(m.skip(i as int) =~= Seq::<(Seq<char>, Option<Seq<char>>)>::empty());
    match fault {
        Some(f) => Err(fault_to_error(f)),
        None => Ok(()),
    }
}

/// Checks an uploaded archive before it is unpacked: its size, then every
/// entry's path, then that the whole archive could be read.
pub fn check_settings_archive(data: &[u8]) -> (r: Result<(), CtrlError>)
    ensures
        data@.len() > MAX_UPLOAD_SIZE ==> r == Err::<(), CtrlError>(CtrlError::ArchiveTooLarge),
        data@.len() <= MAX_UPLOAD_SIZE ==> ({
            let (es, fault) = archive_listing(data@);
            match first_escape(es) {
                Some(p) => r matches Err(CtrlError::PathTraversal { path }) && path@ == p,
                None => match fault {
                    Some(f) => r == Err::<(), CtrlError>(fault_error(f)),
                    None => r is Ok,
                },
            }
        }),
{
    validate_size(data)?;
    let (entries, fault) = list_archive(data);
    check_listing(&entries, fault)
}

// ---------------------------------------------------------------------------
// Preview
// ---------------------------------------------------------------------------
/// How the preview counts an entry, by its path, in this order: the
/// hostname file (0), a wpa_supplicant `.conf` file (1), an SSH
/// `authorized_keys` file (2), the controller's `ctrl.toml` (3), other (4).
pub open spec fn entry_kind(path: Seq<char>) -> nat {
    if path == "hostname"@ {
        0
    } else if text::contains(path, "wpa_supplicant"@) && text::ends_with(path, ".conf"@) {
        1
    } else if text::contains(path, "ssh/"@) && text::contains(path, "authorized_keys"@) {
        2
    } else if text::contains(path, "ctrl.toml"@) {
        3
    } else {
        4
    }
}

/// The trimmed content of the last hostname entry (empty if unreadable).
pub open spec fn hostname_in(es: Seq<(Seq<char>, Option<Seq<char>>)>) -> Option<Seq<char>>
    decreases es.len(),
{
    if es.len() == 0 {
        None
    } else if entry_kind(es.last().0) == 0 {
        Some(
            text::trim(
                match es.last().1 {
                    Some(c) => c,
                    None => seq![],
                },
            ),
        )
    } else {
        hostname_in(es.drop_last())
    }
}

/// Whether the last readable entry of the given kind contains `needle`;
/// false when there is none.
pub open spec fn last_readable_contains(
    es: Seq<(Seq<char>, Option<Seq<char>>)>,
    kind: nat,
    needle: Seq<char>,
) -> bool
    decreases es.len(),
{
    if es.len() == 0 {
        false
    } else if entry_kind(es.last().0) == kind && es.last().1 is Some {
        text::contains(es.last().1->0, needle)
    } else {
        last_readable_contains(es.drop_last(), kind, needle)
    }
}

/// The preview of a listing whose paths all stay in the data directory.
pub open spec fn preview_matches(p: SettingsPreview, es: Seq<(Seq<char>, Option<Seq<char>>)>) -> bool {
    &&& match p.hostname {
        Some(h) => hostname_in(es) == Some(h@),
        None => hostname_in(es) is None,
    }
    &&& p.wifi_configured == last_readable_contains(es, 1, "network="@)
    &&& p.ssh_keys_present == exists|i: int| 0 <= i < es.len() && entry_kind(#[trigger] es[i].0) == 2
    &&& p.has_auth == last_readable_contains(es, 3, "password_hash"@)
    &&& p.files@.map_values(|f: String| f@) == es.map_values(|e: (Seq<char>, Option<Seq<char>>)| e.0)
}

fn kind_of(path: &Vec<char>) -> (r: u64)
    ensures
        r == entry_kind(path@),
{
    if text::is_text(path, "hostname") {
        0
    } else if text::contains_text(path, "wpa_supplicant") && text::ends_with_text(path, ".conf") {
        1
    } else if text::contains_text(path, "ssh/") && text::contains_text(path, "authorized_keys") {
        2
    } else if text::contains_text(path, "ctrl.toml") {
        3
    } else {
        4
    }
}

/// The preview of a listed archive: refused at the first escaping path,
/// else at the fault that stopped the listing; otherwise the hostname, the
/// WiFi, SSH and password facts and all paths.
pub fn preview_from_listing(entries: &Vec<ArchiveEntry>, fault: Option<ArchiveFault>) -> (r: Result<SettingsPreview, CtrlError>)
    ensures
        match first_escape(entries_model(entries@)) {
            Some(p) => r matches Err(CtrlError::PathTraversal { path }) && path@ == p,
            None => match fault {
                Some(f) => r matches Err(e) && e == fault_error(f),
                None => r matches Ok(pv) && preview_matches(pv, entries_model(entries@)),
            },
        },
{
    let ghost m = entries_model(entries@);
    let mut files: Vec<String> = Vec::new();
    let mut hostname: Option<String> = None;
    let mut wifi = false;
    let mut ssh = false;
    let mut auth = false;
    let mut i: usize = 0;
    assert(m.skip(0) =~= m);
    assert(m.take(0) =~= Seq::<(Seq<char>, Option<Seq<char>>)>::empty());
    while i < entries.len()
        invariant
            i <= entries.len(),
            m == entries_model(entries@),
            first_escape(m) == first_escape(m.skip(i as int)),
            forall|k: int| 0 <= k < i ==> !escapes(#[trigger] m[k].0),
            match hostname {
                Some(h) => hostname_in(m.take(i as int)) == Some(h@),
                None => hostname_in(m.take(i as int)) is None,
            },
            wifi == last_readable_contains(m.take(i as int), 1, "network="@),
            ssh == exists|k: int| 0 <= k < i && entry_kind(#[trigger] m[k].0) == 2,
            auth == last_readable_contains(m.take(i as int), 3, "password_hash"@),
            files@.map_values(|f: String| f@) == m.take(i as int).map_values(
                |e: (Seq<char>, Option<Seq<char>>)| e.0,
            ),
        decreases entries.len() - i,
    {
        let ghost t = m.take(i + 1);
        let ghost before = files@.map_values(|f: String| f@);
        proof {
            assert(m[i as int] == entry_model(entries@[i as int]));
            assert(m.skip(i as int)[0] == m[i as int]);
            assert(m.skip(i as int).drop_first() =~= m.skip(i + 1));
            assert(t.drop_last() =~= m.take(i as int));
            assert(t.last() == m[i as int]);
        }
        let e = &entries[i];
        validate_path(e.path.as_str())?;
        let p = text::chars_of(e.path.as_str());
        let kind = kind_of(&p);
        if kind == 0 {
            let c = match &e.content {
                Some(c) => text::chars_of(c.as_str()),
                None => Vec::new(),
            };
            let h = text::trim_chars(&c);
            hostname = Some(text::string_of(&h));
        } else if kind == 1 {
            match &e.content {
                Some(c) => {
                    wifi = text::str_contains(c.as_str(), "network=");
                },
                None => {},
            }
        } else if kind == 2 {
            ssh = true;
        } else if kind == 3 {
            match &e.content {
                Some(c) => {
                    auth = text::str_contains(c.as_str(), "password_hash");
                },
                None => {},
            }
        }
        let f = text::string_of(&p);
        files.push(f);
        assert(files@.map_values(|f: String| f@) =~= before.push(m[i as int].0));
        assert(t.map_values(|e: (Seq<char>, Option<Seq<char>>)| e.0) =~= m.take(i as int).map_values(
            |e: (Seq<char>, Option<Seq<char>>)| e.0,
        ).push(m[i as int].0));
        i = i + 1;
    }
    assert(m.skip(i as int) =~= Seq::<(Seq<char>, Option<Seq<char>>)>::empty());
    assert(m.take(i as int) =~= m);
    match fault {
        Some(f) => Err(fault_to_error(f)),
        None => Ok(
            SettingsPreview {
                hostname,
                wifi_configured: wifi,
                ssh_keys_present: ssh,
                has_auth: auth,
                files,
            },
        ),
    }
}

/// Parses a settings archive and summarises it without extracting it.
pub fn preview_settings(data: &[u8]) -> (r: Result<SettingsPreview, CtrlError>)
    ensures
        data@.len() > MAX_UPLOAD_SIZE ==> r matches Err(CtrlError::ArchiveTooLarge),
        data@.len() <= MAX_UPLOAD_SIZE ==> ({
            let (es, fault) = archive_listing(data@);
            match first_escape(es) {
                Some(p) => r matches Err(CtrlError::PathTraversal { path }) && path@ == p,
                None => match fault {
                    Some(f) => r matches Err(e) && e == fault_error(f),
                    None => r matches Ok(pv) && preview_matches(pv, es),
                },
            }
        }),
{
    validate_size(data)?;
    let (entries, fault) = list_archive(data);
    preview_from_listing(&entries, fault)
}

} // verus!
