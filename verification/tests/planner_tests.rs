use knope_core::planner::plan_version;
use knope_core::semver::{Rule, Version};

fn v(text: &str) -> Version {
    Version::parse(text).unwrap()
}

#[test]
fn prerelease_after_release() {
    // Released 1.0.0 and 1.1.0; a breaking change begins the 2.0.0 line.
    let tags = vec![v("1.0.0"), v("1.1.0")];
    let label = String::from("rc");
    let planned = plan_version(&v("1.1.0"), &Rule::Major, Some(&label), &tags);
    assert_eq!(planned.display(), "2.0.0-rc.0");
}

#[test]
fn second_prerelease() {
    // Two release candidates for 1.1.0 are out; the next one counts on.
    let tags = vec![v("1.0.0"), v("1.1.0-rc.1"), v("1.1.0-rc.2")];
    let label = String::from("rc");
    let planned = plan_version(&v("1.0.0"), &Rule::Minor, Some(&label), &tags);
    assert_eq!(planned.display(), "1.1.0-rc.3");
}

#[test]
fn handle_pre_versions_that_are_too_new() {
    // A pre-release already targets the future stable 2.0.0; the plan for a
    // mere feature must still sort above it.
    let tags = vec![v("2.0.0-rc.0"), v("1.2.3")];
    let label = String::from("rc");
    let planned = plan_version(&v("1.2.3"), &Rule::Minor, Some(&label), &tags);
    assert_eq!(planned.display(), "2.0.0-rc.1");
    assert!(v("2.0.0-rc.0").lt(&planned));
}

#[test]
fn stable_release_strips_pre() {
    let tags = vec![v("1.0.0"), v("1.1.0-rc.1")];
    let planned = plan_version(&v("1.0.0"), &Rule::Minor, None, &tags);
    assert_eq!(planned.display(), "1.1.0");
}

#[test]
fn stable_release_from_prerelease_current() {
    let tags: Vec<Version> = vec![];
    let planned = plan_version(&v("1.1.0-rc.1"), &Rule::Patch, None, &tags);
    assert_eq!(planned.display(), "1.1.1");
}

#[test]
fn plan_is_monotonic() {
    let tags = vec![v("0.5.0-rc.9"), v("1.0.0")];
    let label = String::from("rc");
    let current = v("1.0.0");
    let planned = plan_version(&current, &Rule::Patch, Some(&label), &tags);
    assert_eq!(planned.display(), "1.0.1-rc.0");
    assert!(current.lt(&planned));
}

#[test]
fn plan_ignores_other_labels() {
    let tags = vec![v("1.1.0-alpha.3")];
    let label = String::from("rc");
    let planned = plan_version(&v("1.0.0"), &Rule::Minor, Some(&label), &tags);
    assert_eq!(planned.display(), "1.1.0-rc.0");
}

#[test]
fn plan_is_deterministic() {
    let tags = vec![v("1.0.0"), v("1.1.0-rc.1")];
    let label = String::from("rc");
    let first = plan_version(&v("1.0.0"), &Rule::Minor, Some(&label), &tags);
    let second = plan_version(&v("1.0.0"), &Rule::Minor, Some(&label), &tags);
    assert_eq!(first.display(), second.display());
    assert!(first.same(&second));
}
