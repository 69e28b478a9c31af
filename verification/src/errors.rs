//! The typed errors of the library.  Every fallible public function says in
//! its contract exactly which variant it returns and on which inputs.

use vstd::prelude::*;

verus! {

/// Everything that can go wrong while reading versions, bumping them, or
/// rewriting manifest files.
#[derive(Debug, Clone)]
pub enum Error {
    /// The text is not a valid semantic version.
    SemverParse { text: String },
    /// A pre-release component exists but is not `label.counter`, so it
    /// cannot be incremented.
    PreReleaseLayout,
    /// A pre-release exists under a different label than the one requested.
    PreLabelMismatch { existing: String, requested: String },
    /// The path has no file name component.
    NotAFile { path: String },
    /// The file name is none of the supported manifest formats.
    UnsupportedFormat { path: String },
    /// The manifest could not be scanned down to a version field.
    ManifestParse { path: String },
    /// The manifest has no version field where one is required.
    ManifestMissingVersion { path: String },
    /// Two version fields inside one manifest disagree.
    InconsistentVersions { path: String },
    /// A changeset file could not be parsed.
    ChangesetParse { path: String },
    /// No change calls for a release of the package.
    NoChange { package: String },
}

/// The text of each error, fixed by variant.
pub open spec fn spec_message(e: Error) -> Seq<char> {
    match e {
        Error::SemverParse { text } => "invalid semantic version: "@ + text@,
        Error::PreReleaseLayout => "a pre-release version exists but cannot be incremented"@,
        Error::PreLabelMismatch { existing, requested } => "found pre-release label "@
            + existing@ + " which does not match requested label "@ + requested@,
        Error::NotAFile { path } => "path is not a file: "@ + path@,
        Error::UnsupportedFormat { path } => "not a supported versioned file format: "@ + path@,
        Error::ManifestParse { path } => "could not parse versioned file: "@ + path@,
        Error::ManifestMissingVersion { path } => "no version field found in "@ + path@,
        Error::InconsistentVersions { path } => "inconsistent versions within "@ + path@,
        Error::ChangesetParse { path } => "could not parse changeset "@ + path@,
        Error::NoChange { package } => "no changes to release for "@ + package@,
    }
}

impl Error {
    /// A human-readable description of the error.
    pub fn message(&self) -> (r: String)
        ensures
            r@ == spec_message(*self),
    {
        match self {
            Error::SemverParse { text } => String::from_str(
                "invalid semantic version: ",
            ).concat(text.as_str()),
            Error::PreReleaseLayout => String::from_str(
                "a pre-release version exists but cannot be incremented",
            ),
            Error::PreLabelMismatch { existing, requested } => String::from_str(
                "found pre-release label ",
            ).concat(existing.as_str()).concat(
                " which does not match requested label ",
            ).concat(requested.as_str()),
            Error::NotAFile { path } => String::from_str("path is not a file: ").concat(
                path.as_str(),
            ),
            Error::UnsupportedFormat { path } => String::from_str(
                "not a supported versioned file format: ",
            ).concat(path.as_str()),
            Error::ManifestParse { path } => String::from_str(
                "could not parse versioned file: ",
            ).concat(path.as_str()),
            Error::ManifestMissingVersion { path } => String::from_str(
                "no version field found in ",
            ).concat(path.as_str()),
            Error::InconsistentVersions { path } => String::from_str(
                "inconsistent versions within ",
            ).concat(path.as_str()),
            Error::ChangesetParse { path } => String::from_str(
                "could not parse changeset ",
            ).concat(path.as_str()),
            Error::NoChange { package } => String::from_str(
                "no changes to release for ",
            ).concat(package.as_str()),
        }
    }
}

} // verus!
