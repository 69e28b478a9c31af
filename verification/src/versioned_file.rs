//! A versioned manifest file: its format, detected from the file name
//! alone, its path, and its in-memory content.  Reading and writing the
//! version dispatch to the adapter of the detected format.

use vstd::prelude::*;

use crate::cargo;
use crate::chars::{scan_back_to_slash, scan_back_to_slash_exec, str_eq, str_to_chars};
use crate::errors::Error;
use crate::go_mod;
use crate::package_json;
use crate::pyproject;
use crate::semver::{spec_parse, wf_version, Version, VersionV};

verus! {

/// The supported manifest formats, detected by file name and never by
/// contents.
#[derive(Clone, Copy, Debug, PartialEq, Eq, Structural)]
pub enum PackageFormat {
    Cargo,
    Go,
    JavaScript,
    Poetry,
}

/// A version and where it came from.
#[derive(Debug)]
pub struct VersionFromSource {
    pub version: Version,
    pub source: String,
}

/// The file name of a path: the characters after the last slash.
pub open spec fn spec_file_name(path: Seq<char>) -> Seq<char> {
    path.subrange(scan_back_to_slash(path, path.len() as int), path.len() as int)
}

/// The format a file name names, if any.
pub open spec fn format_of(name: Seq<char>) -> Option<PackageFormat> {
    if name == "Cargo.toml"@ {
        Some(PackageFormat::Cargo)
    } else if name == "go.mod"@ {
        Some(PackageFormat::Go)
    } else if name == "package.json"@ {
        Some(PackageFormat::JavaScript)
    } else if name == "pyproject.toml"@ {
        Some(PackageFormat::Poetry)
    } else {
        None
    }
}

/// What reading a manifest of format `f` yields.
pub open spec fn read_spec(f: PackageFormat, c: Seq<char>) -> Option<VersionV> {
    match f {
        PackageFormat::Cargo => cargo::cargo_read(c),
        PackageFormat::Go => go_mod::gomod_read(c),
        PackageFormat::JavaScript => package_json::json_read(c),
        PackageFormat::Poetry => pyproject::pyproject_read(c),
    }
}

/// What writing a version into a manifest of format `f` yields.
pub open spec fn write_spec(f: PackageFormat, c: Seq<char>, v: VersionV) -> Option<Seq<char>> {
    match f {
        PackageFormat::Cargo => cargo::cargo_write(c, v),
        PackageFormat::Go => go_mod::gomod_write(c, v),
        PackageFormat::JavaScript => package_json::json_write(c, v),
        PackageFormat::Poetry => pyproject::pyproject_write(c, v),
    }
}

/// The error a failed read of format `f` carries, exactly as the adapters
/// pin it down.
pub open spec fn read_err_ok(f: PackageFormat, c: Seq<char>, path: Seq<char>, e: Error) -> bool {
    match f {
        PackageFormat::Cargo => match e {
            Error::ManifestMissingVersion { path: p } => cargo::cargo_version_span(c) is None
                && p@ == path,
            Error::SemverParse { text } => (cargo::cargo_version_span(c) matches Some((a, b))
                && text@ == c.subrange(a, b)),
            _ => false,
        },
        PackageFormat::Go => match e {
            Error::ManifestParse { path: p } => !go_mod::gomod_line_ok(c) && p@ == path,
            Error::SemverParse { text } => go_mod::gomod_line_ok(c) && (go_mod::comment_vspan(
                c,
                go_mod::find_module_line(c, 0)->Some_0,
            ) matches Some((a, b)) && text@ == c.subrange(a, b)),
            _ => false,
        },
        PackageFormat::JavaScript => match e {
            Error::ManifestMissingVersion { path: p } => package_json::json_version_span(
                c,
            ) is None && p@ == path,
            Error::SemverParse { text } => (package_json::json_version_span(c) matches Some(
                (a, b),
            ) && text@ == c.subrange(a, b)),
            _ => false,
        },
        PackageFormat::Poetry => match e {
            Error::ManifestMissingVersion { path: p } => pyproject::poetry_span(c) is None
                && pyproject::project_span(c) is None && p@ == path,
            Error::SemverParse { text } => ((pyproject::poetry_span(c) matches Some((a, b))
                && text@ == c.subrange(a, b) && spec_parse(text@) is None) || (
            pyproject::project_span(c) matches Some((a2, b2)) && text@ == c.subrange(a2, b2)
                && spec_parse(text@) is None)),
            Error::InconsistentVersions { path: p } => p@ == path && (pyproject::poetry_span(
                c,
            ) matches Some((a, b)) && (pyproject::project_span(c) matches Some((a2, b2))
                && spec_parse(c.subrange(a, b)) is Some && spec_parse(c.subrange(a2, b2)) is Some
                && spec_parse(c.subrange(a, b)) != spec_parse(c.subrange(a2, b2)))),
            _ => false,
        },
    }
}

/// The error a failed write of format `f` carries.
pub open spec fn write_err_ok(f: PackageFormat, path: Seq<char>, e: Error) -> bool {
    match f {
        PackageFormat::Go => e matches Error::ManifestParse { path: p } && p@ == path,
        _ => e matches Error::ManifestMissingVersion { path: p } && p@ == path,
    }
}

/// Round trip over every format: reading a manifest's version and writing
/// that same version back yields the manifest unchanged.  For `go.mod` this
/// holds of the normalized form, whose version comes from its comment and
/// whose path suffix already agrees with it; a file without a comment gains
/// one on write.
pub proof fn lemma_versioned_round_trip(f: PackageFormat, c: Seq<char>)
    requires
        read_spec(f, c) is Some,
        f is Go ==> go_mod::comment_vspan(c, go_mod::find_module_line(c, 0)->Some_0) is Some,
        f is Go ==> (read_spec(f, c)->Some_0.major >= 2 ==> go_mod::has_suffix(
            c,
            go_mod::find_module_line(c, 0)->Some_0,
        ) && c.subrange(
            go_mod::suffix_digits_start(c, go_mod::find_module_line(c, 0)->Some_0),
            go_mod::path_end(c, go_mod::find_module_line(c, 0)->Some_0),
        ) == crate::semver::dec_chars(read_spec(f, c)->Some_0.major)),
        f is Go ==> (read_spec(f, c)->Some_0.major < 2 ==> !go_mod::has_suffix(
            c,
            go_mod::find_module_line(c, 0)->Some_0,
        )),
    ensures
        write_spec(f, c, read_spec(f, c)->Some_0) == Some(c),
{
    match f {
        PackageFormat::Cargo => {
            cargo::lemma_cargo_round_trip(c);
        },
        PackageFormat::Go => {
            go_mod::lemma_gomod_round_trip(c);
        },
        PackageFormat::JavaScript => {
            package_json::lemma_json_round_trip(c);
        },
        PackageFormat::Poetry => {
            pyproject::lemma_pyproject_round_trip(c);
        },
    }
}

impl PackageFormat {
    /// Detect the format from the file name of `path`.  A path without a
    /// file name is no file; an unrecognized file name is unsupported.
    pub fn try_from_path(path: &str) -> (r: Result<PackageFormat, Error>)
        ensures
            match r {
                Ok(f) => format_of(spec_file_name(path@)) == Some(f),
                Err(e) => format_of(spec_file_name(path@)) is None && match e {
                    Error::NotAFile { path: p } => spec_file_name(path@).len() == 0 && p@
                        == path@,
                    Error::UnsupportedFormat { path: p } => spec_file_name(path@).len() > 0 && p@
                        == path@,
                    _ => false,
                },
            },
    {
        let v = str_to_chars(path);
        let n = v.len();
        let start = scan_back_to_slash_exec(&v, n);
        let name = crate::chars::range_to_string(&v, start, n);
        assert(name@ == spec_file_name(path@));
        if name.as_str().unicode_len() == 0 {
            proof {
                reveal_strlit("Cargo.toml");
                reveal_strlit("go.mod");
                reveal_strlit("package.json");
                reveal_strlit("pyproject.toml");
            }
            assert(format_of(name@) is None);
            return Err(Error::NotAFile { path: String::from_str(path) });
        }
        if str_eq(name.as_str(), "Cargo.toml") {
            return Ok(PackageFormat::Cargo);
        }
        if str_eq(name.as_str(), "go.mod") {
            return Ok(PackageFormat::Go);
        }
        if str_eq(name.as_str(), "package.json") {
            return Ok(PackageFormat::JavaScript);
        }
        if str_eq(name.as_str(), "pyproject.toml") {
            return Ok(PackageFormat::Poetry);
        }
        Err(Error::UnsupportedFormat { path: String::from_str(path) })
    }

    /// The version that `content` declares under this format, with the
    /// path it came from.
    pub fn get_version(self, content: &str, path: &str) -> (r: Result<VersionFromSource, Error>)
        ensures
            match r {
                Ok(vs) => read_spec(self, content@) == Some(vs.version@) && wf_version(
                    vs.version@,
                ) && vs.source@ == path@,
                Err(e) => read_spec(self, content@) is None && read_err_ok(
                    self,
                    content@,
                    path@,
                    e,
                ),
            },
    {
        let version = match self {
            PackageFormat::Cargo => cargo::get_version(content, path)?,
            PackageFormat::Go => go_mod::get_version(content, path)?,
            PackageFormat::JavaScript => package_json::get_version(content, path)?,
            PackageFormat::Poetry => pyproject::get_version(content, path)?,
        };
        Ok(VersionFromSource { version, source: String::from_str(path) })
    }

    /// `content` rewritten so that it declares `new_version`, under this
    /// format.  Only the characters that encode the version change.
    pub fn set_version(self, content: &str, new_version: &Version, path: &str) -> (r: Result<
        String,
        Error,
    >)
        requires
            wf_version(new_version@),
        ensures
            match r {
                Ok(out) => write_spec(self, content@, new_version@) == Some(out@),
                Err(e) => write_spec(self, content@, new_version@) is None && write_err_ok(
                    self,
                    path@,
                    e,
                ),
            },
    {
        match self {
            PackageFormat::Cargo => cargo::set_version(content, new_version, path),
            PackageFormat::Go => go_mod::set_version(content, new_version, path),
            PackageFormat::JavaScript => package_json::set_version(content, new_version, path),
            PackageFormat::Poetry => pyproject::set_version(content, new_version, path),
        }
    }
}

/// A manifest file held in memory for the duration of a run.
#[derive(Debug)]
pub struct VersionedFile {
    /// The format that `content` is in.
    pub format: PackageFormat,
    /// The path the content was read from.
    pub path: String,
    /// The raw content of the manifest.
    pub content: String,
}

impl VersionedFile {
    /// Build a versioned file from a path and the content read from it.
    pub fn new(path: String, content: String) -> (r: Result<VersionedFile, Error>)
        ensures
            match r {
                Ok(f) => format_of(spec_file_name(path@)) == Some(f.format) && f.path@ == path@
                    && f.content@ == content@,
                Err(e) => format_of(spec_file_name(path@)) is None && match e {
                    Error::NotAFile { path: p } => spec_file_name(path@).len() == 0 && p@
                        == path@,
                    Error::UnsupportedFormat { path: p } => spec_file_name(path@).len() > 0 && p@
                        == path@,
                    _ => false,
                },
            },
    {
        let format = PackageFormat::try_from_path(path.as_str())?;
        Ok(VersionedFile { format, path, content })
    }

    /// The current content of the manifest.
    pub fn content(&self) -> (r: &String)
        ensures
            r@ == self.content@,
    {
        &self.content
    }

    /// The version this manifest declares.
    pub fn get_version(&self) -> (r: Result<VersionFromSource, Error>)
        ensures
            match r {
                Ok(vs) => read_spec(self.format, self.content@) == Some(vs.version@)
                    && wf_version(vs.version@) && vs.source@ == self.path@,
                Err(e) => read_spec(self.format, self.content@) is None && read_err_ok(
                    self.format,
                    self.content@,
                    self.path@,
                    e,
                ),
            },
    {
        self.format.get_version(self.content.as_str(), self.path.as_str())
    }

    /// Rewrite the content so that it declares `new_version`.  On an error
    /// the file is left unchanged.
    pub fn set_version(&mut self, new_version: &Version) -> (r: Result<(), Error>)
        requires
            wf_version(new_version@),
        ensures
            final(self).format == old(self).format && final(self).path == old(self).path,
            match r {
                Ok(()) => write_spec(old(self).format, old(self).content@, new_version@)
                    == Some(final(self).content@),
                Err(e) => final(self).content@ == old(self).content@ && write_spec(
                    old(self).format,
                    old(self).content@,
                    new_version@,
                ) is None && write_err_ok(old(self).format, old(self).path@, e),
            },
    {
        let out = self.format.set_version(
            self.content.as_str(),
            new_version,
            self.path.as_str(),
        )?;
        self.content = out;
        Ok(())
    }
}

} // verus!
