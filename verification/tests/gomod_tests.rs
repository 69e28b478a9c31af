use knope_core::errors::Error;
use knope_core::go_mod::{get_version, set_version};
use knope_core::semver::Version;

fn v(text: &str) -> Version {
    Version::parse(text).unwrap()
}

#[test]
fn go_modules() {
    // A breaking change moves a v1 module to v2: the path gains the /v2
    // suffix and the line gains a version comment.
    let content = "module github.com/knope-dev/go-sample\n\ngo 1.21\n";
    let written = set_version(content, &v("2.0.0"), "go.mod").unwrap();
    assert_eq!(
        written,
        "module github.com/knope-dev/go-sample/v2 // v2.0.0\n\ngo 1.21\n"
    );
}

#[test]
fn go_mod_version_determination() {
    // The comment overrides everything for reads.
    let comment = "module example.com/m/v2 // v2.5.1\n";
    assert!(get_version(comment, "go.mod").unwrap().same(&v("2.5.1")));

    // Without a comment the path suffix carries the major.
    let suffix = "module example.com/m/v3\n";
    assert!(get_version(suffix, "go.mod").unwrap().same(&v("3.0.0")));

    // Without either the module is still on its zero version.
    let bare = "module example.com/m\n";
    assert!(get_version(bare, "go.mod").unwrap().same(&v("0.0.0")));
}

#[test]
fn go_mod_comment_update_preserves_rest() {
    let content = "module example.com/m/v2 // v2.0.0\n\ngo 1.21\n\nrequire example.com/dep v1.0.0\n";
    let written = set_version(content, &v("2.1.0"), "go.mod").unwrap();
    assert_eq!(
        written,
        "module example.com/m/v2 // v2.1.0\n\ngo 1.21\n\nrequire example.com/dep v1.0.0\n"
    );
}

#[test]
fn go_mod_round_trip_of_normalized_file() {
    let content = "module example.com/m/v2 // v2.3.4\n\ngo 1.21\n";
    let found = get_version(content, "go.mod").unwrap();
    let written = set_version(content, &found, "go.mod").unwrap();
    assert_eq!(written, content);
}

#[test]
fn go_mod_suffix_dropped_below_two() {
    let content = "module example.com/m/v2 // v2.0.0\n";
    let written = set_version(content, &v("1.9.0"), "go.mod").unwrap();
    assert_eq!(written, "module example.com/m // v1.9.0\n");
}

#[test]
fn go_mod_missing_module_line_error() {
    let content = "go 1.21\n";
    let err = get_version(content, "go.mod").unwrap_err();
    assert!(matches!(err, Error::ManifestParse { .. }));
    let err2 = set_version(content, &v("1.0.0"), "go.mod").unwrap_err();
    assert!(matches!(err2, Error::ManifestParse { .. }));
}

#[test]
fn go_mod_bad_comment_version_error() {
    let content = "module example.com/m // vnope\n";
    let err = get_version(content, "go.mod").unwrap_err();
    assert!(matches!(err, Error::SemverParse { .. }));
}

#[test]
fn go_mod_write_then_read_yields_written_version() {
    let content = "module example.com/m\n\ngo 1.21\n";
    let next = v("3.1.4");
    let written = set_version(content, &next, "go.mod").unwrap();
    let found = get_version(&written, "go.mod").unwrap();
    assert!(found.same(&next));
}
