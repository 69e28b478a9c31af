use knope_core::errors::Error;
use knope_core::semver::{Ident, Rule, Version};

fn v(text: &str) -> Version {
    Version::parse(text).unwrap()
}

#[test]
fn parse_then_display_is_identity() {
    for text in ["0.0.0", "1.2.3", "10.20.30", "1.2.3-rc.0", "1.2.3-alpha.beta.11", "2.0.0-rc.4"] {
        assert_eq!(v(text).display(), text);
    }
}

#[test]
fn parse_rejects_malformed_text() {
    for text in [
        "", "1", "1.2", "1.2.3.4", "01.2.3", "1.02.3", "1.2.3-", "1.2.3-rc..1", "1.2.3-01",
        "v1.2.3", "1.2.3 ", " 1.2.3", "1.2.3+build", "1.2.3-rc.1!",
    ] {
        let err = Version::parse(text).unwrap_err();
        assert!(matches!(err, Error::SemverParse { .. }));
    }
}

#[test]
fn parse_classifies_identifiers() {
    let parsed = v("1.2.3-rc.4");
    assert_eq!(parsed.pre.len(), 2);
    assert!(matches!(&parsed.pre[0], Ident::Alpha(s) if s == "rc"));
    assert!(matches!(&parsed.pre[1], Ident::Num(4)));
}

#[test]
fn bump_major_resets_lesser_components() {
    let bumped = v("1.2.3-rc.4").bump(&Rule::Major).unwrap();
    assert_eq!(bumped.display(), "2.0.0");
}

#[test]
fn bump_minor_resets_patch() {
    let bumped = v("1.2.3-rc.4").bump(&Rule::Minor).unwrap();
    assert_eq!(bumped.display(), "1.3.0");
}

#[test]
fn bump_patch_clears_pre() {
    let bumped = v("1.2.3-rc.4").bump(&Rule::Patch).unwrap();
    assert_eq!(bumped.display(), "1.2.4");
}

#[test]
fn bump_release_clears_pre() {
    let bumped = v("1.2.3-rc.4").bump(&Rule::Release).unwrap();
    assert_eq!(bumped.display(), "1.2.3");
}

#[test]
fn bump_pre_increments_counter() {
    let bumped = v("1.2.3-rc.4").bump(&Rule::Pre(String::from("rc"))).unwrap();
    assert_eq!(bumped.display(), "1.2.3-rc.5");
}

#[test]
fn bump_pre_starts_at_zero() {
    let bumped = v("1.2.3").bump(&Rule::Pre(String::from("rc"))).unwrap();
    assert_eq!(bumped.display(), "1.2.3-rc.0");
}

#[test]
fn bump_pre_label_mismatch_error() {
    let err = v("1.2.3-rc.4").bump(&Rule::Pre(String::from("alpha"))).unwrap_err();
    assert!(matches!(err, Error::PreLabelMismatch { existing, requested }
        if existing == "rc" && requested == "alpha"));
}

#[test]
fn bump_pre_bad_layout_error() {
    let one_ident = Version {
        major: 1,
        minor: 2,
        patch: 3,
        pre: vec![Ident::Alpha(String::from("rc"))],
    };
    let err = one_ident.bump(&Rule::Pre(String::from("rc"))).unwrap_err();
    assert!(matches!(err, Error::PreReleaseLayout));

    let swapped = Version {
        major: 1,
        minor: 2,
        patch: 3,
        pre: vec![Ident::Num(1), Ident::Alpha(String::from("rc"))],
    };
    let err2 = swapped.bump(&Rule::Pre(String::from("rc"))).unwrap_err();
    assert!(matches!(err2, Error::PreReleaseLayout));
}

#[test]
fn reset_pre_keeps_triple() {
    assert_eq!(v("1.2.3-rc.4").reset_pre().display(), "1.2.3");
    assert_eq!(v("1.2.3").reset_pre().display(), "1.2.3");
}

#[test]
fn order_follows_semver() {
    let pairs = [
        ("1.0.0", "2.0.0"),
        ("1.9.0", "1.10.0"),
        ("1.0.0-alpha", "1.0.0"),
        ("1.0.0-rc.1", "1.0.0-rc.2"),
        ("1.0.0-1", "1.0.0-alpha"),
        ("1.0.0-rc", "1.0.0-rc.1"),
        ("1.0.0-alpha.beta", "1.0.0-beta"),
        ("1.2.3", "2.0.0-rc.0"),
    ];
    for (small, large) in pairs {
        assert!(v(small).lt(&v(large)), "{} should sort below {}", small, large);
        assert!(!v(large).lt(&v(small)), "{} should not sort below {}", large, small);
    }
}

#[test]
fn order_is_irreflexive() {
    for text in ["1.2.3", "1.2.3-rc.4"] {
        assert!(!v(text).lt(&v(text)));
    }
}

#[test]
fn same_compares_every_component() {
    assert!(v("1.2.3-rc.4").same(&v("1.2.3-rc.4")));
    assert!(!v("1.2.3-rc.4").same(&v("1.2.3-rc.5")));
    assert!(!v("1.2.3").same(&v("1.2.4")));
    assert!(!v("1.2.3-rc").same(&v("1.2.3")));
}

#[test]
fn error_messages_name_the_labels() {
    let err = v("1.2.3-rc.4").bump(&Rule::Pre(String::from("alpha"))).unwrap_err();
    assert_eq!(
        err.message(),
        "found pre-release label rc which does not match requested label alpha"
    );
    let parse_err = Version::parse("nope").unwrap_err();
    assert_eq!(parse_err.message(), "invalid semantic version: nope");
}
