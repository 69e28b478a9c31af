//! Core of a release-automation tool: computes and applies coordinated
//! version bumps across the versioned manifest files of a project.
//!
//! The library discovers the current version of a package from its manifest
//! files, applies a semantic bump rule, computes the next (stable or
//! pre-release) version, and rewrites each manifest so that only the bytes
//! that encode the version change.  All of that logic is verified; reading
//! and writing the files themselves is left to the surrounding program.

pub mod cargo;
pub mod changelog;
pub mod changeset;
pub mod chars;
pub mod commits;
pub mod git_history;
pub mod go_mod;
pub mod package_json;
pub mod planner;
pub mod prepare;
pub mod pyproject;
pub mod errors;
pub mod semver;
pub mod toml_scan;
pub mod versioned_file;

use vstd::prelude::*;

verus! {

} // verus!
