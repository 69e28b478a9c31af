//! The Cargo manifest adapter: reads `package.version` from a `Cargo.toml`
//! text and rewrites exactly the characters between the quotes of that
//! value, leaving every other character of the manifest unchanged.

use vstd::prelude::*;

use crate::chars::{lemma_splice_identity, range_to_string, splice, str_to_chars};
use crate::errors::Error;
use crate::semver::{
    lemma_parse_sound, spec_parse, version_chars, wf_version, Version, VersionV,
};
use crate::toml_scan::{lemma_toml_span_bounds, toml_version_span, toml_version_span_exec};

verus! {

/// The span of the `package.version` value within a Cargo manifest.
pub open spec fn cargo_version_span(c: Seq<char>) -> Option<(int, int)> {
    toml_version_span(c, "package"@)
}

/// The version a Cargo manifest declares, when its span is found and its
/// text is a valid version.
pub open spec fn cargo_read(c: Seq<char>) -> Option<VersionV> {
    match cargo_version_span(c) {
        None => None,
        Some((a, b)) => spec_parse(c.subrange(a, b)),
    }
}

/// The manifest with the version value replaced by the canonical text of
/// `v`, when the span is found.
pub open spec fn cargo_write(c: Seq<char>, v: VersionV) -> Option<Seq<char>> {
    match cargo_version_span(c) {
        None => None,
        Some((a, b)) => Some(splice(c, a, b, version_chars(v))),
    }
}

/// The version declared by `content`, or the error that pins down why it
/// has none: no `package.version` value, or one that is not a version.
pub fn get_version(content: &str, path: &str) -> (r: Result<Version, Error>)
    ensures
        match r {
            Ok(ver) => cargo_read(content@) == Some(ver@) && wf_version(ver@),
            Err(e) => cargo_read(content@) is None && match e {
                Error::ManifestMissingVersion { path: p } => cargo_version_span(content@) is None
                    && p@ == path@,
                Error::SemverParse { text } => (cargo_version_span(content@) matches Some((a, b))
                    && text@ == content@.subrange(a, b)),
                _ => false,
            },
        },
{
    let v = str_to_chars(content);
    match toml_version_span_exec(&v, "package") {
        None => Err(Error::ManifestMissingVersion { path: String::from_str(path) }),
        Some((a, b)) => {
            let text = range_to_string(&v, a, b);
            Version::parse(text.as_str())
        },
    }
}

/// `content` with the version value replaced by `new_version`, or a
/// `ManifestMissingVersion` error when no span is found.  Only the
/// characters between the quotes change.
pub fn set_version(content: &str, new_version: &Version, path: &str) -> (r: Result<String, Error>)
    requires
        wf_version(new_version@),
    ensures
        match r {
            Ok(out) => cargo_write(content@, new_version@) == Some(out@),
            Err(e) => cargo_write(content@, new_version@) is None && (e matches
                Error::ManifestMissingVersion { path: p } && p@ == path@),
        },
{
    let v = str_to_chars(content);
    match toml_version_span_exec(&v, "package") {
        None => Err(Error::ManifestMissingVersion { path: String::from_str(path) }),
        Some((a, b)) => {
            let n = content.unicode_len();
            let prefix = content.substring_char(0, a);
            let suffix = content.substring_char(b, n);
            let vs = new_version.display();
            let mut out = String::from_str(prefix);
            out.append(vs.as_str());
            out.append(suffix);
            assert(out@ =~= splice(content@, a as int, b as int, version_chars(new_version@)));
            Ok(out)
        },
    }
}

/// Reading a manifest's version and writing that same version back yields
/// the manifest unchanged, character for character.
pub proof fn lemma_cargo_round_trip(c: Seq<char>)
    requires
        cargo_read(c) is Some,
    ensures
        cargo_write(c, cargo_read(c)->Some_0) == Some(c),
{
    let (a, b) = cargo_version_span(c)->Some_0;
    lemma_toml_span_bounds(c, "package"@);
    let text = c.subrange(a, b);
    lemma_parse_sound(text);
    lemma_splice_identity(c, a, b);
}

} // verus!
