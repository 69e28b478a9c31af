use knope_core::changelog::{insert_release, release_text, Section};
use knope_core::changeset::parse_changeset;
use knope_core::commits::{package_rule, parse_commit, CommitKind};
use knope_core::errors::Error;
use knope_core::semver::{Rule, Version};

#[test]
fn parse_plain_commit() {
    let commit = parse_commit("feat: Add something").unwrap();
    assert!(matches!(commit.kind, CommitKind::Feat));
    assert!(commit.scope.is_none());
    assert!(!commit.breaking);
    assert_eq!(commit.description, "Add something");
}

#[test]
fn parse_scoped_breaking_commit() {
    let commit = parse_commit("fix(parser)!: Rework everything").unwrap();
    assert!(matches!(commit.kind, CommitKind::Fix));
    assert_eq!(commit.scope.as_deref(), Some("parser"));
    assert!(commit.breaking);
    assert_eq!(commit.description, "Rework everything");
}

#[test]
fn parse_commit_with_breaking_footer() {
    let message = "feat: New API\n\nSome explanation.\n\nBREAKING CHANGE: the old call is gone\nReviewed-by: someone";
    let commit = parse_commit(message).unwrap();
    assert!(commit.breaking);
    assert_eq!(commit.footers.len(), 2);
    assert_eq!(commit.footers[0].token, "BREAKING CHANGE");
    assert_eq!(commit.footers[0].value, "the old call is gone");
    assert_eq!(commit.footers[1].token, "Reviewed-by");
    assert_eq!(commit.footers[1].value, "someone");
}

#[test]
fn parse_commit_hash_footer_form() {
    let message = "fix: Off by one\n\nCloses #17";
    let commit = parse_commit(message).unwrap();
    assert_eq!(commit.footers.len(), 1);
    assert_eq!(commit.footers[0].token, "Closes");
    assert_eq!(commit.footers[0].value, "17");
}

#[test]
fn non_conventional_message_is_rejected() {
    assert!(parse_commit("just fixed some stuff").is_none());
    assert!(parse_commit(": no type").is_none());
    assert!(parse_commit("feat(unclosed: scope").is_none());
    assert!(parse_commit("feat:   ").is_none());
}

#[test]
fn commit_rules_follow_kind_and_breaking() {
    assert!(matches!(
        parse_commit("feat: X").unwrap().rule(),
        Some(Rule::Minor)
    ));
    assert!(matches!(
        parse_commit("fix: X").unwrap().rule(),
        Some(Rule::Patch)
    ));
    assert!(matches!(
        parse_commit("chore!: X").unwrap().rule(),
        Some(Rule::Major)
    ));
    assert!(parse_commit("docs: X").unwrap().rule().is_none());
}

#[test]
fn apply_scopes() {
    // Two packages: `first` listens on scopes first and both, `second` on
    // second and both.  The fix lands only in first, the breaking feature
    // only in second, and the shared feature in both.
    let commits = vec![
        parse_commit("fix(first): a bug").unwrap(),
        parse_commit("feat(both): a feature").unwrap(),
        parse_commit("feat(second)!: breaking change").unwrap(),
    ];
    let first_scopes = vec![String::from("first"), String::from("both")];
    let second_scopes = vec![String::from("second"), String::from("both")];
    let none: Vec<Rule> = vec![];

    let first_rule = package_rule(&commits, &first_scopes, &none);
    assert!(matches!(first_rule, Some(Rule::Minor)));

    let second_rule = package_rule(&commits, &second_scopes, &none);
    assert!(matches!(second_rule, Some(Rule::Major)));
}

#[test]
fn unscoped_commits_apply_to_all_packages() {
    let commits = vec![parse_commit("fix: shared bug").unwrap()];
    let scoped = vec![String::from("first")];
    let none: Vec<Rule> = vec![];
    assert!(matches!(package_rule(&commits, &scoped, &none), Some(Rule::Patch)));
}

#[test]
fn no_scopes_defined() {
    // A package without scopes takes every commit.
    let commits = vec![
        parse_commit("feat(other): scoped elsewhere").unwrap(),
        parse_commit("fix: plain").unwrap(),
    ];
    let unscoped: Vec<String> = vec![];
    let none: Vec<Rule> = vec![];
    assert!(matches!(package_rule(&commits, &unscoped, &none), Some(Rule::Minor)));
}

#[test]
fn changeset_rules_join_commit_rules() {
    let commits = vec![parse_commit("fix: small").unwrap()];
    let scopes: Vec<String> = vec![];
    let extra = vec![Rule::Major];
    assert!(matches!(package_rule(&commits, &scopes, &extra), Some(Rule::Major)));
}

#[test]
fn no_change_gives_no_rule() {
    let commits = vec![parse_commit("docs: readme").unwrap()];
    let scopes: Vec<String> = vec![];
    let none: Vec<Rule> = vec![];
    assert!(package_rule(&commits, &scopes, &none).is_none());
}

#[test]
fn changesets() {
    let content = "---\n\"first\": minor\n\"second\": patch\n---\nAdded a cool new feature.\n";
    let changeset = parse_changeset(content, "x.md").unwrap();
    assert_eq!(changeset.entries.len(), 2);
    assert_eq!(changeset.entries[0].package, "first");
    assert!(matches!(changeset.entries[0].rule, Rule::Minor));
    assert_eq!(changeset.entries[1].package, "second");
    assert!(matches!(changeset.entries[1].rule, Rule::Patch));
    assert_eq!(changeset.summary, "Added a cool new feature.\n");
}

#[test]
fn output_of_invalid_changesets() {
    for content in [
        "",
        "no front matter",
        "---\n\"pkg\": minor\n",
        "---\n\"pkg\": enormous\n---\n",
        "---\npkg: minor\n---\n",
    ] {
        let err = parse_changeset(content, "bad.md").unwrap_err();
        assert!(matches!(err, Error::ChangesetParse { .. }));
    }
}

#[test]
fn release_text_renders_sections() {
    let version = Version::parse("2.0.0-rc.0").unwrap();
    let sections = vec![Section {
        title: String::from("Breaking Changes"),
        entries: vec![String::from("Breaking")],
    }];
    let text = release_text(&version, "2024-05-05", &sections);
    assert_eq!(
        text,
        "## 2.0.0-rc.0 (2024-05-05)\n\n### Breaking Changes\n\n- Breaking\n"
    );
}

#[test]
fn prepare_release_inserts_before_previous_release() {
    let existing = "# Changelog\n\nSome notes about the project.\n\n## 1.1.0 (2023-01-01)\n\n### Features\n\n- Old\n";
    let updated = insert_release(existing, "## 2.0.0-rc.0 (2024-05-05)\n\n### Breaking Changes\n\n- Breaking\n");
    assert_eq!(
        updated,
        "# Changelog\n\nSome notes about the project.\n\n## 2.0.0-rc.0 (2024-05-05)\n\n### Breaking Changes\n\n- Breaking\n\n## 1.1.0 (2023-01-01)\n\n### Features\n\n- Old\n"
    );
}

#[test]
fn prepare_release_creates_missing_changelog() {
    let updated = insert_release("", "## 1.0.0 (2024-05-05)\n\n### Features\n\n- New\n");
    assert_eq!(updated, "# Changelog\n\n## 1.0.0 (2024-05-05)\n\n### Features\n\n- New\n");
}

#[test]
fn insert_appends_when_no_release_heading() {
    let existing = "# Changelog\n\nJust a preamble.\n";
    let updated = insert_release(existing, "## 1.0.0 (2024-05-05)\n");
    assert_eq!(
        updated,
        "# Changelog\n\nJust a preamble.\n\n## 1.0.0 (2024-05-05)\n"
    );
}
