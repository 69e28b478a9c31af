//! The PyProject manifest adapter: a `pyproject.toml` may declare its
//! version under `[tool.poetry]`, under the PEP-621 `[project]` table, or
//! under both.  When both are present they must agree on read, and both are
//! rewritten on write.

use vstd::prelude::*;

use crate::chars::{lemma_splice_identity, range_to_string, splice, str_to_chars};
use crate::errors::Error;
use crate::semver::{
    lemma_parse_sound, spec_parse, version_chars, wf_version, Version, VersionV,
};
use crate::toml_scan::{lemma_toml_span_bounds, toml_version_span, toml_version_span_exec};

verus! {

/// The span of the `[tool.poetry]` version value.
pub open spec fn poetry_span(c: Seq<char>) -> Option<(int, int)> {
    toml_version_span(c, "tool.poetry"@)
}

/// The span of the `[project]` version value.
pub open spec fn project_span(c: Seq<char>) -> Option<(int, int)> {
    toml_version_span(c, "project"@)
}

/// The version a PyProject manifest declares: from whichever of the two
/// tables is present, and only when both tables, if both are present,
/// declare the same version.
pub open spec fn pyproject_read(c: Seq<char>) -> Option<VersionV> {
    match (poetry_span(c), project_span(c)) {
        (Some((a, b)), Some((a2, b2))) => match (
            spec_parse(c.subrange(a, b)),
            spec_parse(c.subrange(a2, b2)),
        ) {
            (Some(v1), Some(v2)) => if v1 == v2 {
                Some(v1)
            } else {
                None
            },
            _ => None,
        },
        (Some((a, b)), None) => spec_parse(c.subrange(a, b)),
        (None, Some((a2, b2))) => spec_parse(c.subrange(a2, b2)),
        (None, None) => None,
    }
}

/// The manifest with every present version value replaced by the canonical
/// text of `v`: first the `[tool.poetry]` value, then the `[project]` value
/// of the intermediate text.
pub open spec fn pyproject_write(c: Seq<char>, v: VersionV) -> Option<Seq<char>> {
    let t = version_chars(v);
    match poetry_span(c) {
        Some((a, b)) => {
            let c1 = splice(c, a, b, t);
            match project_span(c1) {
                Some((a2, b2)) => Some(splice(c1, a2, b2, t)),
                None => Some(c1),
            }
        },
        None => match project_span(c) {
            Some((a2, b2)) => Some(splice(c, a2, b2, t)),
            None => None,
        },
    }
}

/// The version declared by `content`, or the error that pins down why it
/// has none: no version value in either table, a value that is not a
/// version, or two tables that disagree.
pub fn get_version(content: &str, path: &str) -> (r: Result<Version, Error>)
    ensures
        match r {
            Ok(ver) => pyproject_read(content@) == Some(ver@) && wf_version(ver@),
            Err(e) => pyproject_read(content@) is None && match e {
                Error::ManifestMissingVersion { path: p } => poetry_span(content@) is None
                    && project_span(content@) is None && p@ == path@,
                Error::SemverParse { text } => (poetry_span(content@) matches Some((a, b))
                    && text@ == content@.subrange(a, b) && spec_parse(text@) is None) || (
                project_span(content@) matches Some((a2, b2)) && text@ == content@.subrange(
                    a2,
                    b2,
                ) && spec_parse(text@) is None),
                Error::InconsistentVersions { path: p } => p@ == path@ && (poetry_span(
                    content@,
                ) matches Some((a, b)) && (project_span(content@) matches Some((a2, b2))
                    && spec_parse(content@.subrange(a, b)) is Some && spec_parse(
                    content@.subrange(a2, b2),
                ) is Some && spec_parse(content@.subrange(a, b)) != spec_parse(
                    content@.subrange(a2, b2),
                ))),
                _ => false,
            },
        },
{
    let v = str_to_chars(content);
    let poetry = toml_version_span_exec(&v, "tool.poetry");
    let project = toml_version_span_exec(&v, "project");
    match (poetry, project) {
        (None, None) => Err(Error::ManifestMissingVersion { path: String::from_str(path) }),
        (Some((a, b)), None) => {
            let text = range_to_string(&v, a, b);
            Version::parse(text.as_str())
        },
        (None, Some((a2, b2))) => {
            let text = range_to_string(&v, a2, b2);
            Version::parse(text.as_str())
        },
        (Some((a, b)), Some((a2, b2))) => {
            let text1 = range_to_string(&v, a, b);
            let text2 = range_to_string(&v, a2, b2);
            let v1 = Version::parse(text1.as_str())?;
            let v2 = Version::parse(text2.as_str())?;
            if v1.same(&v2) {
                Ok(v1)
            } else {
                Err(Error::InconsistentVersions { path: String::from_str(path) })
            }
        },
    }
}

/// `content` with every present version value replaced by `new_version`,
/// or a `ManifestMissingVersion` error when neither table has one.
pub fn set_version(content: &str, new_version: &Version, path: &str) -> (r: Result<String, Error>)
    requires
        wf_version(new_version@),
    ensures
        match r {
            Ok(out) => pyproject_write(content@, new_version@) == Some(out@),
            Err(e) => pyproject_write(content@, new_version@) is None && (e matches
                Error::ManifestMissingVersion { path: p } && p@ == path@),
        },
{
    let v = str_to_chars(content);
    let vs = new_version.display();
    match toml_version_span_exec(&v, "tool.poetry") {
        Some((a, b)) => {
            let n = content.unicode_len();
            let prefix = content.substring_char(0, a);
            let suffix = content.substring_char(b, n);
            let mut c1 = String::from_str(prefix);
            c1.append(vs.as_str());
            c1.append(suffix);
            assert(c1@ =~= splice(content@, a as int, b as int, version_chars(new_version@)));
            let v1 = str_to_chars(c1.as_str());
            match toml_version_span_exec(&v1, "project") {
                Some((a2, b2)) => {
                    let n1 = c1.as_str().unicode_len();
                    let prefix2 = c1.as_str().substring_char(0, a2);
                    let suffix2 = c1.as_str().substring_char(b2, n1);
                    let mut out = String::from_str(prefix2);
                    out.append(vs.as_str());
                    out.append(suffix2);
                    assert(out@ =~= splice(c1@, a2 as int, b2 as int, version_chars(
                        new_version@,
                    )));
                    Ok(out)
                },
                None => Ok(c1),
            }
        },
        None => {
            match toml_version_span_exec(&v, "project") {
                Some((a2, b2)) => {
                    let n = content.unicode_len();
                    let prefix = content.substring_char(0, a2);
                    let suffix = content.substring_char(b2, n);
                    let mut out = String::from_str(prefix);
                    out.append(vs.as_str());
                    out.append(suffix);
                    assert(out@ =~= splice(content@, a2 as int, b2 as int, version_chars(
                        new_version@,
                    )));
                    Ok(out)
                },
                None => Err(Error::ManifestMissingVersion { path: String::from_str(path) }),
            }
        },
    }
}

/// Reading a manifest's version and writing that same version back yields
/// the manifest unchanged, character for character, whichever of the two
/// tables carry it.
pub proof fn lemma_pyproject_round_trip(c: Seq<char>)
    requires
        pyproject_read(c) is Some,
    ensures
        pyproject_write(c, pyproject_read(c)->Some_0) == Some(c),
{
    let v = pyproject_read(c)->Some_0;
    let t = version_chars(v);
    match (poetry_span(c), project_span(c)) {
        (Some((a, b)), Some((a2, b2))) => {
            lemma_toml_span_bounds(c, "tool.poetry"@);
            lemma_toml_span_bounds(c, "project"@);
            lemma_parse_sound(c.subrange(a, b));
            lemma_parse_sound(c.subrange(a2, b2));
            assert(c.subrange(a, b) == t);
            lemma_splice_identity(c, a, b);
            assert(splice(c, a, b, t) == c);
            assert(c.subrange(a2, b2) == t);
            lemma_splice_identity(c, a2, b2);
        },
        (Some((a, b)), None) => {
            lemma_toml_span_bounds(c, "tool.poetry"@);
            lemma_parse_sound(c.subrange(a, b));
            lemma_splice_identity(c, a, b);
            assert(splice(c, a, b, t) == c);
        },
        (None, Some((a2, b2))) => {
            lemma_toml_span_bounds(c, "project"@);
            lemma_parse_sound(c.subrange(a2, b2));
            lemma_splice_identity(c, a2, b2);
        },
        (None, None) => {},
    }
}

} // verus!
