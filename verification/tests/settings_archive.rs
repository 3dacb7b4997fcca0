use snapdog_ctrl::error::CtrlError;
use snapdog_ctrl::settings::{
    check_listing, check_settings_archive, preview_from_listing, preview_settings, validate_path,
    validate_size, ArchiveEntry, ArchiveFault, MAX_UPLOAD_SIZE,
};

fn archive(files: &[(&str, &str)]) -> Vec<u8> {
    let enc = flate2::write::GzEncoder::new(Vec::new(), flate2::Compression::default());
    let mut builder = tar::Builder::new(enc);
    for (path, content) in files {
        let mut header = tar::Header::new_gnu();
        header.set_size(content.len() as u64);
        header.set_mode(0o644);
        header.set_cksum();
        builder.append_data(&mut header, path, content.as_bytes()).unwrap();
    }
    builder.into_inner().unwrap().finish().unwrap()
}

fn entry(path: &str, content: Option<&str>) -> ArchiveEntry {
    ArchiveEntry { path: path.to_string(), content: content.map(|c| c.to_string()) }
}

#[test]
fn size_limit_is_ten_megabytes() {
    assert_eq!(MAX_UPLOAD_SIZE, 10 * 1024 * 1024);
    assert!(validate_size(&vec![0u8; MAX_UPLOAD_SIZE]).is_ok());
    match validate_size(&vec![0u8; MAX_UPLOAD_SIZE + 1]) {
        Err(e) => assert_eq!(e.message(), "archive too large (max 10 MB)"),
        Ok(()) => panic!("too large"),
    }
}

#[test]
fn path_validation() {
    assert!(validate_path("snapdog/ctrl.toml").is_ok());
    assert!(validate_path("hostname").is_ok());
    match validate_path("../etc/passwd") {
        Err(e) => assert_eq!(e.message(), "path traversal detected: ../etc/passwd"),
        Ok(()) => panic!("escape"),
    }
    assert!(validate_path("/etc/shadow").is_err());
}

#[test]
fn preview_of_real_archive() {
    let data = archive(&[
        ("hostname", "living-room\n"),
        ("wpa_supplicant/wpa_supplicant-wlan0.conf", "network={\n ssid=\"x\"\n}\n"),
        ("ssh/authorized_keys", "ssh-ed25519 AAAA\n"),
        ("snapdog/ctrl.toml", "[auth]\npassword_hash = \"abc\"\n"),
        ("default/snapdog-client", "SNAPDOG_CLIENT_ARGS=\"\"\n"),
    ]);
    let p = preview_settings(&data).ok().unwrap();
    assert_eq!(p.hostname, Some("living-room".to_string()));
    assert!(p.wifi_configured);
    assert!(p.ssh_keys_present);
    assert!(p.has_auth);
    assert_eq!(
        p.files,
        vec![
            "hostname".to_string(),
            "wpa_supplicant/wpa_supplicant-wlan0.conf".to_string(),
            "ssh/authorized_keys".to_string(),
            "snapdog/ctrl.toml".to_string(),
            "default/snapdog-client".to_string(),
        ]
    );
    assert!(check_settings_archive(&data).is_ok());
}

#[test]
fn preview_of_sparse_archive() {
    let data = archive(&[("snapdog-os.channel", "beta\n")]);
    let p = preview_settings(&data).ok().unwrap();
    assert_eq!(p.hostname, None);
    assert!(!p.wifi_configured);
    assert!(!p.ssh_keys_present);
    assert!(!p.has_auth);
    assert_eq!(p.files, vec!["snapdog-os.channel".to_string()]);
}

#[test]
fn garbage_is_no_archive() {
    match preview_settings(b"definitely not gzip") {
        Err(e) => assert!(matches!(
            e,
            CtrlError::InvalidArchive | CtrlError::CorruptEntry | CtrlError::InvalidEntryPath
        )),
        Ok(_) => panic!("garbage accepted"),
    }
    assert!(check_settings_archive(b"definitely not gzip").is_err());
}

#[test]
fn listing_checks_paths_before_faults() {
    let es = vec![entry("hostname", Some("a")), entry("../x", None)];
    match check_listing(&es, Some(ArchiveFault::CorruptEntry)) {
        Err(CtrlError::PathTraversal { path }) => assert_eq!(path, "../x"),
        _ => panic!("expected traversal"),
    }
    match check_listing(&es[..1].iter().map(|e| entry(&e.path, None)).collect(), Some(ArchiveFault::CorruptEntry)) {
        Err(e) => assert_eq!(e.message(), "corrupt archive entry"),
        Ok(()) => panic!("expected fault"),
    }
    match check_listing(&Vec::new(), Some(ArchiveFault::Unreadable)) {
        Err(e) => assert_eq!(e.message(), "invalid tar.gz archive"),
        Ok(()) => panic!("expected fault"),
    }
    match check_listing(&Vec::new(), Some(ArchiveFault::InvalidPath)) {
        Err(e) => assert_eq!(e.message(), "invalid path in archive"),
        Ok(()) => panic!("expected fault"),
    }
}

#[test]
fn preview_from_listing_rules() {
    let es = vec![
        entry("hostname", None),
        entry("wpa_supplicant/a.conf", Some("network={}")),
        entry("wpa_supplicant/b.conf", None),
        entry("snapdog/ctrl.toml", Some("[auth]\n")),
    ];
    let p = preview_from_listing(&es, None).ok().unwrap();
    assert_eq!(p.hostname, Some(String::new()));
    assert!(p.wifi_configured);
    assert!(!p.has_auth);
    assert!(!p.ssh_keys_present);
    assert_eq!(p.files.len(), 4);
    match preview_from_listing(&vec![entry("/abs", None)], None) {
        Err(CtrlError::PathTraversal { path }) => assert_eq!(path, "/abs"),
        _ => panic!("expected traversal"),
    }
}
