use knope_core::errors::Error;
use knope_core::semver::Version;
use knope_core::versioned_file::{PackageFormat, VersionedFile};

fn v(text: &str) -> Version {
    Version::parse(text).unwrap()
}

#[test]
fn format_detection_by_file_name() {
    assert!(matches!(
        PackageFormat::try_from_path("Cargo.toml").unwrap(),
        PackageFormat::Cargo
    ));
    assert!(matches!(
        PackageFormat::try_from_path("sub/dir/go.mod").unwrap(),
        PackageFormat::Go
    ));
    assert!(matches!(
        PackageFormat::try_from_path("a/package.json").unwrap(),
        PackageFormat::JavaScript
    ));
    assert!(matches!(
        PackageFormat::try_from_path("pyproject.toml").unwrap(),
        PackageFormat::Poetry
    ));
}

#[test]
fn test_prepare_release_invalid_versioned_file_format() {
    let err = PackageFormat::try_from_path("project/README.md").unwrap_err();
    assert!(matches!(err, Error::UnsupportedFormat { .. }));
}

#[test]
fn path_without_file_name_is_no_file() {
    let err = PackageFormat::try_from_path("project/").unwrap_err();
    assert!(matches!(err, Error::NotAFile { .. }));
    let err2 = PackageFormat::try_from_path("").unwrap_err();
    assert!(matches!(err2, Error::NotAFile { .. }));
}

#[test]
fn versioned_file_reads_and_writes() {
    let content = "[package]\nname = \"demo\"\nversion = \"1.0.0\"\n";
    let mut file = VersionedFile::new(
        String::from("Cargo.toml"),
        String::from(content),
    )
    .unwrap();
    let found = file.get_version().unwrap();
    assert!(found.version.same(&v("1.0.0")));
    assert_eq!(found.source, "Cargo.toml");

    file.set_version(&v("1.1.0")).unwrap();
    assert_eq!(file.content().as_str(), "[package]\nname = \"demo\"\nversion = \"1.1.0\"\n");
}

#[test]
fn versioned_file_error_leaves_content_unchanged() {
    let content = "[package]\nname = \"demo\"\n";
    let mut file = VersionedFile::new(
        String::from("Cargo.toml"),
        String::from(content),
    )
    .unwrap();
    let err = file.set_version(&v("1.1.0")).unwrap_err();
    assert!(matches!(err, Error::ManifestMissingVersion { .. }));
    assert_eq!(file.content().as_str(), content);
}

#[test]
fn pyproject_poetry_table() {
    let content = "[tool.poetry]\nname = \"demo\"\nversion = \"0.3.0\"\n";
    let found = knope_core::pyproject::get_version(content, "pyproject.toml").unwrap();
    assert!(found.same(&v("0.3.0")));
    let written =
        knope_core::pyproject::set_version(content, &v("0.4.0"), "pyproject.toml").unwrap();
    assert_eq!(written, content.replace("0.3.0", "0.4.0"));
}

#[test]
fn pyproject_pep621_table() {
    let content = "[project]\nname = \"demo\"\nversion = \"0.3.0\"\n";
    let found = knope_core::pyproject::get_version(content, "pyproject.toml").unwrap();
    assert!(found.same(&v("0.3.0")));
}

#[test]
fn pyproject_both_tables_rewritten() {
    let content = "[tool.poetry]\nversion = \"0.3.0\"\n\n[project]\nversion = \"0.3.0\"\n";
    let found = knope_core::pyproject::get_version(content, "pyproject.toml").unwrap();
    assert!(found.same(&v("0.3.0")));
    let written =
        knope_core::pyproject::set_version(content, &v("1.0.0"), "pyproject.toml").unwrap();
    assert_eq!(written, "[tool.poetry]\nversion = \"1.0.0\"\n\n[project]\nversion = \"1.0.0\"\n");
}

#[test]
fn test_prepare_release_multiple_files_inconsistent_versions() {
    let content = "[tool.poetry]\nversion = \"0.3.0\"\n\n[project]\nversion = \"0.4.0\"\n";
    let err = knope_core::pyproject::get_version(content, "pyproject.toml").unwrap_err();
    assert!(matches!(err, Error::InconsistentVersions { .. }));
}

#[test]
fn pyproject_neither_table_error() {
    let content = "[build-system]\nrequires = [\"poetry-core\"]\n";
    let err = knope_core::pyproject::get_version(content, "pyproject.toml").unwrap_err();
    assert!(matches!(err, Error::ManifestMissingVersion { .. }));
}

#[test]
fn package_json_reads_top_level_version() {
    let content = "{\n  \"name\": \"demo\",\n  \"version\": \"1.2.3\",\n  \"dependencies\": {\n    \"version\": \"9.9.9\"\n  }\n}\n";
    let found = knope_core::package_json::get_version(content, "package.json").unwrap();
    assert!(found.same(&v("1.2.3")));
}

#[test]
fn package_json_write_preserves_layout() {
    let content = "{\n  \"name\": \"demo\",\n  \"version\": \"1.2.3\"\n}\n";
    let written =
        knope_core::package_json::set_version(content, &v("2.0.0"), "package.json").unwrap();
    assert_eq!(written, "{\n  \"name\": \"demo\",\n  \"version\": \"2.0.0\"\n}\n");
}

#[test]
fn package_json_round_trip() {
    let content = "{ \"version\": \"0.1.0\", \"name\": \"demo\" }";
    let found = knope_core::package_json::get_version(content, "package.json").unwrap();
    let written =
        knope_core::package_json::set_version(content, &found, "package.json").unwrap();
    assert_eq!(written, content);
}

#[test]
fn package_json_version_as_value_is_not_a_key() {
    let content = "{ \"name\": \"version\", \"version\": \"3.1.4\" }";
    let found = knope_core::package_json::get_version(content, "package.json").unwrap();
    assert!(found.same(&v("3.1.4")));
}

#[test]
fn package_json_missing_version_error() {
    let content = "{ \"name\": \"demo\" }";
    let err = knope_core::package_json::get_version(content, "package.json").unwrap_err();
    assert!(matches!(err, Error::ManifestMissingVersion { .. }));
}

#[test]
fn pyproject_write_then_read_yields_written_version() {
    let content = "[tool.poetry]\nversion = \"0.3.0\"\n\n[project]\nversion = \"0.3.0\"\n";
    let next = v("4.5.6-beta.2");
    let written =
        knope_core::pyproject::set_version(content, &next, "pyproject.toml").unwrap();
    let found = knope_core::pyproject::get_version(&written, "pyproject.toml").unwrap();
    assert!(found.same(&next));
}

#[test]
fn package_json_write_then_read_yields_written_version() {
    let content = "{\n  \"version\": \"0.1.0\"\n}\n";
    let next = v("7.8.9");
    let written =
        knope_core::package_json::set_version(content, &next, "package.json").unwrap();
    let found = knope_core::package_json::get_version(&written, "package.json").unwrap();
    assert!(found.same(&next));
}
