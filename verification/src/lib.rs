//! Tag-driven semantic versioning: derive a deterministic version number for
//! a source tree from its commit history and the tags that look like
//! versions.
//!
//! The library works on plain facts gathered from a repository
//! ([`RepoFacts`]): the first-parent commit chain from `HEAD` and the list of
//! tag references.  A caller that reads a real repository hands those facts
//! in and receives a fully calculated version back.
//!
//! - [`calculate_version`] requires a repository in the facts and errors
//!   otherwise.
//! - [`calculate_version_with_fallback`] returns the default version when no
//!   repository was found.

use vstd::prelude::*;

mod config;
mod error;
mod git;
mod order;
mod parse;
mod tags;
mod text;
mod version;

pub use config::{Config, ConfigView, MajorMinor, Verbosity, VersionPart};
pub use error::TagVerError;
pub use git::{
    calculate_version_fallback, facts_within_limits, lemma_exact_tag_match,
    lemma_height_monotonicity, spec_apply_config, spec_calculate, spec_first_tagged,
    spec_no_tag_version, spec_synthesize, spec_within_limits, CalcOutcome, RepoFacts,
    RepoFactsView,
};
pub use order::{
    lemma_version_lt_asym, lemma_version_lt_irrefl, lemma_version_lt_trans, spec_version_lt,
};
pub use parse::{lemma_render_injective, lemma_render_parse_round_trip, spec_parse};
pub use tags::{
    parse_tags, spec_best, spec_invalid_names, spec_strip_prefix, spec_tag_version,
    spec_versions_at, tag_version_of, CatalogueEntry, TagCatalogue, TagRef, TagRefView, VersionTag,
    VersionTagView,
};
pub use version::{
    lemma_floor_keeps_satisfying, spec_apply_minimum, spec_default_version, spec_increment,
    spec_meets_minimum, spec_merged_build, spec_render, spec_same_version,
    spec_with_prerelease_height, spec_with_rtm_height, Version, VersionView,
};

verus! {

/// Result of a version calculation: the version, the first-parent distance
/// walked to the tag that produced it, whether the version is an exact tag
/// match, and the working directory it was calculated for.
#[derive(Debug)]
pub struct CalculationResult {
    pub version: Version,
    pub height: u32,
    pub is_from_tag: bool,
    pub work_dir: String,
}

impl CalculationResult {
    /// The textual rendering of the result: exactly the version's canonical
    /// form.
    pub fn render(&self) -> (r: String)
        ensures
            r@ == spec_render(self.version@),
    {
        self.version.render()
    }
}

/// Calculate the version for the given repository facts.
///
/// Fails with [`TagVerError::GitRepoNotFound`] exactly when the facts say no
/// repository was found; an empty repository (no commits) yields the default
/// version with height 0 and is never an error.
pub fn calculate_version(facts: &RepoFacts, config: &Config) -> (r: Result<
    CalculationResult,
    TagVerError,
>)
    requires
        spec_within_limits(facts@, config@),
    ensures
        facts@.found ==> match r {
            Ok(res) => {
                let o = spec_calculate(facts@, config@);
                &&& res.version@ == o.version
                &&& res.height == o.height
                &&& res.is_from_tag == o.is_from_tag
                &&& res.work_dir@ == facts@.work_dir
            },
            Err(_) => false,
        },
        !facts@.found ==> match r {
            Ok(_) => false,
            Err(e) => e matches TagVerError::GitRepoNotFound(p) && p@ == facts@.work_dir,
        },
{
    match git::calculate_version(facts, config) {
        Ok((version, height, is_from_tag)) => Ok(
            CalculationResult { version, height, is_from_tag, work_dir: facts.work_dir.clone() },
        ),
        Err(e) => Err(e),
    }
}

/// Calculate the version, falling back to the default version when the facts
/// say no repository was found: versioning works even outside one.
pub fn calculate_version_with_fallback(facts: &RepoFacts, config: &Config) -> (r: Result<
    CalculationResult,
    TagVerError,
>)
    requires
        spec_within_limits(facts@, config@),
    ensures
        facts@.found ==> match r {
            Ok(res) => {
                let o = spec_calculate(facts@, config@);
                &&& res.version@ == o.version
                &&& res.height == o.height
                &&& res.is_from_tag == o.is_from_tag
                &&& res.work_dir@ == facts@.work_dir
            },
            Err(_) => false,
        },
        !facts@.found ==> match r {
            Ok(res) => {
                &&& res.version@ == spec_apply_config(
                    spec_default_version(config@.default_prerelease_identifiers),
                    config@,
                    None,
                    0,
                )
                &&& res.height == 0
                &&& res.is_from_tag == false
                &&& res.work_dir@ == facts@.work_dir
            },
            Err(_) => false,
        },
{
    match git::calculate_version_fallback(facts, config) {
        Ok((version, height, is_from_tag)) => Ok(
            CalculationResult { version, height, is_from_tag, work_dir: facts.work_dir.clone() },
        ),
        Err(e) => Err(e),
    }
}

} // verus!
