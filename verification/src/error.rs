//! Error kinds of a version calculation.

use vstd::prelude::*;
use vstd::string::*;

verus! {

/// What can go wrong while calculating a version.  Only a missing repository
/// is fatal to the strict entry point; per-tag problems never are.
#[derive(Debug)]
pub enum TagVerError {
    /// The path is not inside a usable repository.
    GitRepoNotFound(String),
    /// The repository has no commits.
    NoCommits,
    /// A tag prefix that cannot be used.
    InvalidTagPrefix(String),
    /// An auto-increment part name that is not `major`, `minor` or `patch`.
    InvalidVersionPart(String),
    /// A floor that is not of the form `major.minor`.
    InvalidMajorMinor(String),
    /// A verbosity level name that is not recognized.
    InvalidVerbosity(String),
    /// Text that does not follow the semantic-version grammar.
    InvalidSemver(String),
    /// No tag with the configured prefix parsed as a version.
    NoVersionTags(String),
    /// The repository history is truncated.
    ShallowRepo,
    /// An underlying repository operation failed.
    GitCommand(String),
    /// Any other failure, with context.
    Other(String),
}

impl TagVerError {
    /// A human-readable description of the error.
    pub fn message(&self) -> (r: String)
        ensures
            r@ == match self {
                TagVerError::GitRepoNotFound(p) => "Git repository not found at path: "@ + p@,
                TagVerError::NoCommits => "No commits found in repository"@,
                TagVerError::InvalidTagPrefix(p) => "Invalid tag prefix: "@ + p@,
                TagVerError::InvalidVersionPart(p) => "Invalid version part: "@ + p@,
                TagVerError::InvalidMajorMinor(p) => "Invalid major.minor: "@ + p@,
                TagVerError::InvalidVerbosity(p) => "Invalid verbosity level: "@ + p@,
                TagVerError::InvalidSemver(p) => "Invalid semantic version: "@ + p@,
                TagVerError::NoVersionTags(p) => "No version tags found with prefix '"@ + p@ + "'"@,
                TagVerError::ShallowRepo => "Shallow repository detected - version calculation may be incorrect"@,
                TagVerError::GitCommand(p) => "Git command failed: "@ + p@,
                TagVerError::Other(p) => "Other error: "@ + p@,
            },
    {
        match self {
            TagVerError::GitRepoNotFound(p) => {
                let mut m = String::new();
                m.append("Git repository not found at path: ");
                m.append(p.as_str());
                m
            },
            TagVerError::NoCommits => String::from_str("No commits found in repository"),
            TagVerError::InvalidTagPrefix(p) => {
                let mut m = String::new();
                m.append("Invalid tag prefix: ");
                m.append(p.as_str());
                m
            },
            TagVerError::InvalidVersionPart(p) => {
                let mut m = String::new();
                m.append("Invalid version part: ");
                m.append(p.as_str());
                m
            },
            TagVerError::InvalidMajorMinor(p) => {
                let mut m = String::new();
                m.append("Invalid major.minor: ");
                m.append(p.as_str());
                m
            },
            TagVerError::InvalidVerbosity(p) => {
                let mut m = String::new();
                m.append("Invalid verbosity level: ");
                m.append(p.as_str());
                m
            },
            TagVerError::InvalidSemver(p) => {
                let mut m = String::new();
                m.append("Invalid semantic version: ");
                m.append(p.as_str());
                m
            },
            TagVerError::NoVersionTags(p) => {
                let mut m = String::new();
                m.append("No version tags found with prefix '");
                m.append(p.as_str());
                m.append("'");
                m
            },
            TagVerError::ShallowRepo => String::from_str(
                "Shallow repository detected - version calculation may be incorrect",
            ),
            TagVerError::GitCommand(p) => {
                let mut m = String::new();
                m.append("Git command failed: ");
                m.append(p.as_str());
                m
            },
            TagVerError::Other(p) => {
                let mut m = String::new();
                m.append("Other error: ");
                m.append(p.as_str());
                m
            },
        }
    }
}

} // verus!
