use knope_core::cargo::{get_version, set_version};
use knope_core::errors::Error;
use knope_core::semver::Version;

#[test]
fn test_get_version() {
    let content = r#"
        [package]
        name = "tester"
        version = "0.1.0-rc.0"
        "#;

    let found = get_version(content, "").unwrap();
    let expected = Version::parse("0.1.0-rc.0").unwrap();
    assert!(found.same(&expected));
}

#[test]
fn test_set_version() {
    let content = r#"
        [package]
        name = "tester"
        version = "0.1.0-rc.0"
        "#;

    let new = set_version(content, &Version::parse("1.2.3-rc.4").unwrap(), "").unwrap();

    let expected = content.replace("0.1.0-rc.0", "1.2.3-rc.4");
    assert_eq!(new, expected);
}

#[test]
fn cargo_round_trip_preserves_content() {
    let content = "[package]\nname = \"x\" # a comment\nversion = \"1.2.3\"  # pinned\n\n[dependencies]\nserde = \"1\"\n";
    let found = get_version(content, "Cargo.toml").unwrap();
    let back = set_version(content, &found, "Cargo.toml").unwrap();
    assert_eq!(back, content);
}

#[test]
fn cargo_write_then_read_yields_written_version() {
    let content = "[package]\nname = \"x\"\nversion = \"0.9.0\"\n";
    let next = Version::parse("10.20.30-beta.7").unwrap();
    let written = set_version(content, &next, "Cargo.toml").unwrap();
    let found = get_version(&written, "Cargo.toml").unwrap();
    assert!(found.same(&next));
}

#[test]
fn cargo_version_outside_package_table_is_not_found() {
    let content = "[dependencies]\nversion = \"1.0.0\"\n";
    let err = get_version(content, "Cargo.toml").unwrap_err();
    assert!(matches!(err, Error::ManifestMissingVersion { .. }));
}

#[test]
fn cargo_missing_version_error() {
    let content = "[package]\nname = \"x\"\n";
    let err = get_version(content, "Cargo.toml").unwrap_err();
    assert!(matches!(err, Error::ManifestMissingVersion { .. }));
    let err2 = set_version(content, &Version::parse("1.0.0").unwrap(), "Cargo.toml").unwrap_err();
    assert!(matches!(err2, Error::ManifestMissingVersion { .. }));
}

#[test]
fn cargo_invalid_version_text_error() {
    let content = "[package]\nversion = \"not-a-version\"\n";
    let err = get_version(content, "Cargo.toml").unwrap_err();
    assert!(matches!(err, Error::SemverParse { .. }));
}

#[test]
fn cargo_only_version_bytes_change() {
    let content = "# top\n[package]\nname   =  \"odd  spacing\"\nversion = \"1.0.0\" # keep me\n";
    let new = set_version(content, &Version::parse("2.0.0").unwrap(), "").unwrap();
    assert_eq!(new, content.replace("\"1.0.0\"", "\"2.0.0\""));
}
