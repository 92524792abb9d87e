use clarion::plugin::discovery::{
    extract_plugin_suffix, manifest_search_order, DiscoveryError, ManifestLocation, PathScan,
};
use clarion::plugin::jail::{is_within_root, jail_offender, jail_verdict, JailError};

#[test]
fn plugin_suffix_rules() {
    assert_eq!(extract_plugin_suffix("clarion-plugin-python"), Some("python"));
    assert_eq!(extract_plugin_suffix("clarion-plugin-a_b-C9"), Some("a_b-C9"));
    assert_eq!(extract_plugin_suffix("clarion-plugin-"), None);
    assert_eq!(extract_plugin_suffix("clarion-plugin"), None);
    assert_eq!(extract_plugin_suffix("clarion-plugin-py.exe"), None);
    assert_eq!(extract_plugin_suffix("xclarion-plugin-python"), None);
    assert_eq!(extract_plugin_suffix("clarion-plugin-pÿ"), None);
}

#[test]
fn jail_offender_and_messages() {
    let e = JailError::EscapedRoot { offending: b"/etc/passwd".to_vec() };
    assert_eq!(jail_offender(&e, "sent"), "/etc/passwd");
    assert_eq!(e.message(), "path escape: \"/etc/passwd\" resolves outside the jail root");
    let io = JailError::Io(std::io::Error::new(std::io::ErrorKind::NotFound, "gone"));
    assert_eq!(jail_offender(&io, "sent/path"), "sent/path");
    assert_eq!(io.message(), "jail canonicalize error: gone");
    let n = JailError::NonUtf8Path { offending: b"a\xff".to_vec() };
    assert_eq!(n.message(), "path is not valid UTF-8: \"a\u{fffd}\"");
}

#[test]
fn path_scan_first_occurrence_of_a_name_wins() {
    let mut scan = PathScan::new();
    assert!(scan.enter_dir(b"/opt/a/bin", b"/opt/a/bin".to_vec()));
    assert_eq!(scan.take_name("clarion-plugin-python", true), Some("python".to_owned()));
    assert_eq!(scan.take_name("ls", true), None);
    assert!(scan.enter_dir(b"/opt/b/bin", b"/opt/b/bin".to_vec()));
    assert_eq!(scan.take_name("clarion-plugin-python", true), None);
    assert_eq!(scan.take_name("clarion-plugin-rust", true), Some("rust".to_owned()));
    assert_eq!(scan.take_name("clarion-plugin-rust", true), None);
    // A file without an exec bit neither counts nor shadows a later one.
    assert_eq!(scan.take_name("clarion-plugin-go", false), None);
    assert_eq!(scan.take_name("clarion-plugin-go", true), Some("go".to_owned()));
}

#[test]
fn path_scan_skips_empty_and_repeated_directories() {
    let mut scan = PathScan::new();
    assert!(!scan.enter_dir(b"", b"".to_vec()));
    assert!(scan.enter_dir(b"/usr/bin", b"/usr/bin".to_vec()));
    assert!(!scan.enter_dir(b"/usr/bin", b"/usr/bin".to_vec()));
    // A different spelling that canonicalises to a scanned directory.
    assert!(!scan.enter_dir(b"/usr/./bin", b"/usr/bin".to_vec()));
    assert!(scan.enter_dir(b"/usr/local/bin", b"/usr/local/bin".to_vec()));
    // A name that is not a plugin executable takes nothing and shadows nothing.
    assert_eq!(scan.take_name("clarion-plugin-", true), None);
    assert_eq!(scan.take_name("clarion-plugin-x", true), Some("x".to_owned()));
}

#[test]
fn manifest_is_looked_for_next_to_the_executable_first() {
    assert_eq!(
        manifest_search_order(Some("bin")),
        vec![ManifestLocation::Neighbor, ManifestLocation::InstallPrefix]
    );
    assert_eq!(manifest_search_order(Some("plugins")), vec![ManifestLocation::Neighbor]);
    assert_eq!(manifest_search_order(Some("Bin")), vec![ManifestLocation::Neighbor]);
    assert_eq!(manifest_search_order(None), vec![ManifestLocation::Neighbor]);
}

#[test]
fn discovery_error_messages() {
    let e = DiscoveryError::ManifestNotFound { executable: "/opt/bin/clarion-plugin-x".to_owned() };
    assert_eq!(
        e.message(),
        "no plugin.toml found for /opt/bin/clarion-plugin-x (searched neighbor dir and install-prefix share/)"
    );
    let e = DiscoveryError::ManifestInvalid {
        path: "/opt/bin/plugin.toml".to_owned(),
        source: "missing field `plugin`".to_owned(),
    };
    assert_eq!(e.message(), "plugin.toml at /opt/bin/plugin.toml failed to parse: missing field `plugin`");
    let e = DiscoveryError::Io {
        path: "/opt/bin/plugin.toml".to_owned(),
        source: std::io::Error::new(std::io::ErrorKind::PermissionDenied, "denied"),
    };
    assert_eq!(e.message(), "io error reading /opt/bin/plugin.toml: denied");
}

#[test]
fn within_root_is_a_whole_component_prefix() {
    assert!(is_within_root(b"/proj", b"/proj"));
    assert!(is_within_root(b"/proj", b"/proj/src/a.py"));
    assert!(!is_within_root(b"/proj", b"/project/a.py"));
    assert!(!is_within_root(b"/proj", b"/etc/passwd"));
    assert!(!is_within_root(b"/proj/src", b"/proj"));
    assert!(is_within_root(b"/", b"/etc/passwd"));
}

#[test]
fn jail_verdicts() {
    assert_eq!(jail_verdict(b"/proj", b"/proj/a.py".to_vec()).unwrap(), "/proj/a.py");
    match jail_verdict(b"/proj", b"/etc/passwd".to_vec()) {
        Err(JailError::EscapedRoot { offending }) => assert_eq!(offending, b"/etc/passwd".to_vec()),
        other => panic!("expected an escape, got {other:?}"),
    }
    match jail_verdict(b"/proj", b"/proj/\xff.py".to_vec()) {
        Err(JailError::NonUtf8Path { offending }) => assert_eq!(offending, b"/proj/\xff.py".to_vec()),
        other => panic!("expected a non-UTF-8 refusal, got {other:?}"),
    }
}
