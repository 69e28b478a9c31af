use knope_core::changeset::parse_changeset;
use knope_core::commits::parse_commit;
use knope_core::errors::Error;
use knope_core::prepare::prepare_release;
use knope_core::semver::Version;
use knope_core::versioned_file::VersionedFile;

fn v(text: &str) -> Version {
    Version::parse(text).unwrap()
}

#[test]
fn prerelease_after_release_full_run() {
    // Releases 1.0.0 and 1.1.0 exist; a breaking commit arrives and an rc
    // pre-release is requested.  The manifest moves to 2.0.0-rc.0 and the
    // changelog gains the new section on top.
    let cargo = "[package]\nname = \"demo\"\nversion = \"1.1.0\"\n";
    let files = vec![VersionedFile::new(
        String::from("Cargo.toml"),
        String::from(cargo),
    )
    .unwrap()];
    let commits = vec![parse_commit("feat!: Breaking").unwrap()];
    let tags = vec![v("1.0.0"), v("1.1.0")];
    let label = String::from("rc");
    let changelog = String::from("# Changelog\n\n## 1.1.0 (2023-01-01)\n\n### Features\n\n- Old\n");

    let plan = prepare_release(
        files,
        &String::from("demo"),
        &vec![],
        &commits,
        &vec![],
        &vec![],
        &tags,
        Some(&label),
        Some(&changelog),
        "2024-05-05",
    )
    .unwrap();

    assert!(plan.current.same(&v("1.1.0")));
    assert_eq!(plan.new_version.display(), "2.0.0-rc.0");
    assert_eq!(
        plan.files[0].content().as_str(),
        "[package]\nname = \"demo\"\nversion = \"2.0.0-rc.0\"\n"
    );
    assert_eq!(
        plan.changelog.as_deref(),
        Some(
            "# Changelog\n\n## 2.0.0-rc.0 (2024-05-05)\n\n### Breaking Changes\n\n- Breaking\n\n## 1.1.0 (2023-01-01)\n\n### Features\n\n- Old\n"
        )
    );
    assert!(plan.consumed.is_empty());
}

#[test]
fn no_version_change() {
    let cargo = "[package]\nversion = \"1.0.0\"\n";
    let files = vec![VersionedFile::new(
        String::from("Cargo.toml"),
        String::from(cargo),
    )
    .unwrap()];
    let commits = vec![parse_commit("docs: nothing that bumps").unwrap()];
    let err = prepare_release(
        files,
        &String::from("demo"),
        &vec![],
        &commits,
        &vec![],
        &vec![],
        &vec![],
        None,
        None,
        "2024-05-05",
    )
    .unwrap_err();
    assert!(matches!(err, Error::NoChange { .. }));
}

#[test]
fn multiple_packages() {
    // The same change feed, prepared once per package with its own scopes,
    // bumps each package by its own rule.
    let commits = vec![
        parse_commit("fix(first): a bug").unwrap(),
        parse_commit("feat(second): a feature").unwrap(),
    ];
    let first_files = vec![VersionedFile::new(
        String::from("first/Cargo.toml"),
        String::from("[package]\nversion = \"1.0.0\"\n"),
    )
    .unwrap()];
    let second_files = vec![VersionedFile::new(
        String::from("second/package.json"),
        String::from("{\n  \"version\": \"3.0.0\"\n}\n"),
    )
    .unwrap()];

    let first_plan = prepare_release(
        first_files,
        &String::from("first"),
        &vec![String::from("first")],
        &commits,
        &vec![],
        &vec![],
        &vec![],
        None,
        None,
        "2024-05-05",
    )
    .unwrap();
    assert_eq!(first_plan.new_version.display(), "1.0.1");

    let second_plan = prepare_release(
        second_files,
        &String::from("second"),
        &vec![String::from("second")],
        &commits,
        &vec![],
        &vec![],
        &vec![],
        None,
        None,
        "2024-05-05",
    )
    .unwrap();
    assert_eq!(second_plan.new_version.display(), "3.1.0");
    assert_eq!(
        second_plan.files[0].content().as_str(),
        "{\n  \"version\": \"3.1.0\"\n}\n"
    );
}

#[test]
fn changesets_consumed_and_rendered() {
    let cargo = "[package]\nversion = \"0.1.0\"\n";
    let files = vec![VersionedFile::new(
        String::from("Cargo.toml"),
        String::from(cargo),
    )
    .unwrap()];
    let changeset = parse_changeset(
        "---\n\"demo\": minor\n---\nA change described by hand.",
        ".changeset/one.md",
    )
    .unwrap();
    let other = parse_changeset(
        "---\n\"unrelated\": major\n---\nFor someone else.",
        ".changeset/two.md",
    )
    .unwrap();
    let plan = prepare_release(
        files,
        &String::from("demo"),
        &vec![],
        &vec![],
        &vec![changeset, other],
        &vec![String::from(".changeset/one.md"), String::from(".changeset/two.md")],
        &vec![],
        None,
        Some(&String::from("")),
        "2024-05-05",
    )
    .unwrap();
    assert_eq!(plan.new_version.display(), "0.2.0");
    assert_eq!(plan.consumed, vec![String::from(".changeset/one.md")]);
    assert_eq!(
        plan.changelog.as_deref(),
        Some("# Changelog\n\n## 0.2.0 (2024-05-05)\n\n### Features\n\n- A change described by hand.\n")
    );
}

#[test]
fn test_prepare_release_inconsistent_manifest_versions() {
    let files = vec![
        VersionedFile::new(
            String::from("Cargo.toml"),
            String::from("[package]\nversion = \"1.0.0\"\n"),
        )
        .unwrap(),
        VersionedFile::new(
            String::from("package.json"),
            String::from("{ \"version\": \"2.0.0\" }"),
        )
        .unwrap(),
    ];
    let commits = vec![parse_commit("fix: a bug").unwrap()];
    let err = prepare_release(
        files,
        &String::from("demo"),
        &vec![],
        &commits,
        &vec![],
        &vec![],
        &vec![],
        None,
        None,
        "2024-05-05",
    )
    .unwrap_err();
    assert!(matches!(err, Error::InconsistentVersions { .. }));
}

#[test]
fn stable_release_strips_prerelease_manifest() {
    // A stable release after an rc: the pre-release is stripped and the
    // rule applied to the stable part.
    let cargo = "[package]\nversion = \"1.1.0-rc.1\"\n";
    let files = vec![VersionedFile::new(
        String::from("Cargo.toml"),
        String::from(cargo),
    )
    .unwrap()];
    let commits = vec![parse_commit("feat: X").unwrap()];
    let plan = prepare_release(
        files,
        &String::from("demo"),
        &vec![],
        &commits,
        &vec![],
        &vec![],
        &vec![v("1.0.0"), v("1.1.0-rc.1")],
        None,
        None,
        "2024-05-05",
    )
    .unwrap();
    assert_eq!(plan.new_version.display(), "1.2.0");
}
