//! Walking commit history and synthesizing the final version.
//!
//! The functions here work on plain facts read from a repository: the
//! first-parent commit chain from `HEAD` and the list of tag references.
//! A caller that opens a real repository gathers those facts and hands them
//! in; everything downstream is ordinary computation.

use vstd::prelude::*;

use crate::config::{Config, ConfigView};
use crate::error::TagVerError;
use crate::tags::{
    lemma_best_is_max, parse_tags, spec_best, spec_tag_version, spec_versions_at, TagCatalogue,
    TagRef, TagRefView, VersionTag,
};
use crate::text::digits_of;
use crate::version::{
    push_u32, spec_apply_minimum, spec_default_version, spec_increment_fits, spec_merged_build,
    spec_with_prerelease_height, spec_with_rtm_height, opt_str_view, Version, VersionView,
};

verus! {

/// What a repository reader found: whether a repository exists at the
/// working directory, whether its history is truncated, the first-parent
/// commit chain from `HEAD` (empty when there are no commits), and every
/// tag reference with its peeled target commit.
#[derive(Debug)]
pub struct RepoFacts {
    pub found: bool,
    pub is_shallow: bool,
    pub work_dir: String,
    pub commits: Vec<String>,
    pub tags: Vec<TagRef>,
}

/// The mathematical model of [`RepoFacts`].
pub ghost struct RepoFactsView {
    pub found: bool,
    pub is_shallow: bool,
    pub work_dir: Seq<char>,
    pub commits: Seq<Seq<char>>,
    pub tags: Seq<TagRefView>,
}

impl View for RepoFacts {
    type V = RepoFactsView;

    open spec fn view(&self) -> RepoFactsView {
        RepoFactsView {
            found: self.found,
            is_shallow: self.is_shallow,
            work_dir: self.work_dir@,
            commits: self.commits.deep_view(),
            tags: self.tags.deep_view(),
        }
    }
}

impl RepoFacts {
    /// The facts for a directory that is not inside a repository.
    pub fn not_found(work_dir: String) -> (r: Self)
        ensures
            !r@.found,
            !r@.is_shallow,
            r@.work_dir == work_dir@,
            r@.commits == Seq::<Seq<char>>::empty(),
            r@.tags == Seq::<TagRefView>::empty(),
    {
        let r = RepoFacts {
            found: false,
            is_shallow: false,
            work_dir,
            commits: Vec::new(),
            tags: Vec::new(),
        };
        proof {
            assert(r@.commits =~= Seq::<Seq<char>>::empty());
            assert(r@.tags =~= Seq::<TagRefView>::empty());
        }
        r
    }
}

/// The index of the first commit of the chain that carries at least one
/// accepted version tag, if any.
pub open spec fn spec_first_tagged(
    commits: Seq<Seq<char>>,
    tags: Seq<TagRefView>,
    prefix: Seq<char>,
) -> Option<int>
    decreases commits.len(),
{
    if commits.len() == 0 {
        None
    } else if spec_versions_at(tags, prefix, commits[0]).len() > 0 {
        Some(0)
    } else {
        match spec_first_tagged(commits.skip(1), tags, prefix) {
            Some(i) => Some(i + 1),
            None => None,
        }
    }
}

/// Walking exactly `h` untagged commits before reaching a tagged one gives
/// height exactly `h`: the walk stops at the first tagged commit.
pub proof fn lemma_first_tagged_of(
    commits: Seq<Seq<char>>,
    tags: Seq<TagRefView>,
    prefix: Seq<char>,
    h: int,
)
    requires
        0 <= h < commits.len(),
        spec_versions_at(tags, prefix, commits[h]).len() > 0,
        forall|j: int| 0 <= j < h ==> spec_versions_at(tags, prefix, #[trigger] commits[j]).len() == 0,
    ensures
        spec_first_tagged(commits, tags, prefix) == Some(h),
    decreases commits.len(),
{
    if h > 0 {
        lemma_first_tagged_of(commits.skip(1), tags, prefix, h - 1);
        assert(forall|j: int| 0 <= j < commits.skip(1).len() ==> commits.skip(1)[j] == commits[j + 1]);
    }
}

/// A chain with no tagged commit has no first tagged commit.
pub proof fn lemma_first_tagged_none(
    commits: Seq<Seq<char>>,
    tags: Seq<TagRefView>,
    prefix: Seq<char>,
)
    requires
        forall|j: int|
            0 <= j < commits.len() ==> spec_versions_at(tags, prefix, #[trigger] commits[j]).len()
                == 0,
    ensures
        spec_first_tagged(commits, tags, prefix) is None,
    decreases commits.len(),
{
    if commits.len() > 0 {
        lemma_first_tagged_none(commits.skip(1), tags, prefix);
        assert(forall|j: int| 0 <= j < commits.skip(1).len() ==> commits.skip(1)[j] == commits[j + 1]);
    }
}

/// Every version found at a commit is the version of one of the tag
/// references.
proof fn lemma_versions_at_members(tags: Seq<TagRefView>, prefix: Seq<char>, c: Seq<char>)
    ensures
        forall|j: int|
            0 <= j < spec_versions_at(tags, prefix, c).len() ==> exists|k: int|
                0 <= k < tags.len() && spec_tag_version((#[trigger] tags[k]).name, prefix) == Some(
                    #[trigger] spec_versions_at(tags, prefix, c)[j],
                ),
    decreases tags.len(),
{
    if tags.len() > 0 {
        lemma_versions_at_members(tags.drop_last(), prefix, c);
        let rest = spec_versions_at(tags.drop_last(), prefix, c);
        let whole = spec_versions_at(tags, prefix, c);
        assert(forall|k: int| 0 <= k < tags.len() - 1 ==> tags.drop_last()[k] == tags[k]);
        assert forall|j: int| 0 <= j < whole.len() implies exists|k: int|
            0 <= k < tags.len() && spec_tag_version((#[trigger] tags[k]).name, prefix) == Some(
                #[trigger] whole[j],
            ) by {
            if j < rest.len() {
                assert(whole[j] == rest[j]);
                let k = choose|k: int|
                    0 <= k < tags.drop_last().len() && spec_tag_version(
                        (#[trigger] tags.drop_last()[k]).name,
                        prefix,
                    ) == Some(rest[j]);
                assert(spec_tag_version(tags[k].name, prefix) == Some(whole[j]));
            } else {
                let k = tags.len() - 1;
                assert(tags[k] == tags.last());
                assert(spec_tag_version(tags[k].name, prefix) == Some(whole[j]));
            }
        }
    }
}

/// Machine limits on the facts: heights fit in `u32` and no accepted tag
/// stands at the very edge of the number space, so that an auto-increment
/// cannot overflow.
pub open spec fn spec_within_limits(facts: RepoFactsView, cfg: ConfigView) -> bool {
    &&& facts.commits.len() <= u32::MAX
    &&& forall|k: int|
        0 <= k < facts.tags.len() ==> match spec_tag_version(
            (#[trigger] facts.tags[k]).name,
            cfg.tag_prefix,
        ) {
            Some(v) => v.major < u32::MAX && v.minor < u32::MAX && v.patch < u32::MAX,
            None => true,
        }
}

/// Whether the facts stay within machine limits; callers check this before
/// asking for a calculation.
pub fn facts_within_limits(facts: &RepoFacts, config: &Config) -> (r: bool)
    ensures
        r == spec_within_limits(facts@, config@),
{
    if facts.commits.len() > u32::MAX as usize {
        return false;
    }
    let mut k: usize = 0;
    while k < facts.tags.len()
        invariant
            k <= facts.tags@.len(),
            facts.tags@.len() == facts@.tags.len(),
            forall|j: int|
                0 <= j < k ==> match spec_tag_version(
                    (#[trigger] facts@.tags[j]).name,
                    config@.tag_prefix,
                ) {
                    Some(v) => v.major < u32::MAX && v.minor < u32::MAX && v.patch < u32::MAX,
                    None => true,
                },
        decreases facts.tags@.len() - k,
    {
        proof {
            assert(facts@.tags[k as int] == facts.tags@[k as int]@);
        }
        match crate::tags::tag_version_of(&facts.tags[k].name, &config.tag_prefix) {
            Some(v) => {
                if !(v.major < u32::MAX && v.minor < u32::MAX && v.patch < u32::MAX) {
                    return false;
                }
            },
            None => {},
        }
        k = k + 1;
    }
    true
}

/// Walk the chain from `HEAD` towards the root, stopping at the first commit
/// the catalogue knows: that commit's best tag and the number of steps
/// taken; or no tag and the full chain length when the root is reached.
fn walk_to_tag(
    cat: &TagCatalogue,
    commits: &Vec<String>,
    Ghost(tags): Ghost<Seq<TagRefView>>,
    Ghost(prefix): Ghost<Seq<char>>,
) -> (r: (Option<VersionTag>, u32))
    requires
        cat.consistent_with(tags, prefix),
        commits@.len() > 0,
        commits@.len() <= u32::MAX,
    ensures
        ({
            let ft = spec_first_tagged(commits.deep_view(), tags, prefix);
            match r.0 {
                Some(tag) => {
                    &&& ft == Some(r.1 as int)
                    &&& r.1 < commits@.len()
                    &&& spec_versions_at(tags, prefix, commits.deep_view()[r.1 as int]).len() > 0
                    &&& tag@.version == spec_best(
                        spec_versions_at(tags, prefix, commits.deep_view()[r.1 as int]),
                    )
                    &&& tag@.version.wf()
                    &&& crate::tags::spec_genuine_tag(
                        tags,
                        prefix,
                        commits.deep_view()[r.1 as int],
                        tag@,
                    )
                },
                None => {
                    &&& ft is None
                    &&& r.1 == commits@.len() - 1
                },
            }
        }),
{
    let ghost cv = commits.deep_view();
    let n = commits.len();
    let mut i: usize = 0;
    while i < n
        invariant
            cat.consistent_with(tags, prefix),
            cv == commits.deep_view(),
            n == commits@.len(),
            0 < n <= u32::MAX,
            cv.len() == n,
            i <= n,
            forall|j: int| 0 <= j < i ==> spec_versions_at(tags, prefix, #[trigger] cv[j]).len() == 0,
        decreases n - i,
    {
        proof {
            assert(cv[i as int] == commits@[i as int]@);
        }
        match cat.find_entry(&commits[i]) {
            Some(e) => {
                let tag = cat.entries[e].tags[0].clone();
                proof {
                    let entry = cat.entries@[e as int];
                    let vs = crate::tags::tag_versions(entry.tags.deep_view());
                    assert(vs[0] == entry.tags@[0]@.version);
                    assert(tag@.version == spec_best(spec_versions_at(tags, prefix, cv[i as int])));
                    assert(spec_versions_at(tags, prefix, cv[i as int]).len() > 0);
                    lemma_first_tagged_of(cv, tags, prefix, i as int);
                }
                return (Some(tag), i as u32);
            },
            None => {
                proof {
                    if spec_versions_at(tags, prefix, cv[i as int]).len() > 0 {
                        let w = choose|w: int|
                            0 <= w < cat.entries@.len() && (#[trigger] cat.entries@[w]).commit@
                                == cv[i as int];
                        assert(false);
                    }
                }
            },
        }
        i = i + 1;
    }
    proof {
        lemma_first_tagged_none(cv, tags, prefix);
    }
    (None, (n - 1) as u32)
}

/// The synthesized version before policy application, per the decision
/// table: an exact match is used verbatim; past a pre-release tag the height
/// is appended; past a release tag the version is auto-incremented and given
/// the default identifiers with the height appended.
pub open spec fn spec_synthesize(base: VersionView, eff_height: nat, cfg: ConfigView) -> VersionView {
    if eff_height == 0 {
        base
    } else if base.prerelease.len() > 0 {
        spec_with_prerelease_height(base, eff_height)
    } else {
        spec_with_rtm_height(base, eff_height, cfg.auto_increment, cfg.default_prerelease_identifiers)
    }
}

/// The version used when no tag is found: the default version, with the
/// height appended to its identifiers when the height counts.
pub open spec fn spec_no_tag_version(cfg: ConfigView, eff_height: nat) -> VersionView {
    let d = spec_default_version(cfg.default_prerelease_identifiers);
    if eff_height > 0 {
        VersionView { prerelease: d.prerelease.push(digits_of(eff_height)), ..d }
    } else {
        d
    }
}

/// Policy application after synthesis: the floor is applied unless the
/// commit is an exact tag match, and build metadata is merged, the tag's own
/// metadata counting only on an exact match.
pub open spec fn spec_apply_config(
    v: VersionView,
    cfg: ConfigView,
    tag: Option<VersionView>,
    height: nat,
) -> VersionView {
    let floored = match cfg.minimum_major_minor {
        Some(min) => if height > 0 || tag is None {
            spec_apply_minimum(v, min, cfg.default_prerelease_identifiers)
        } else {
            v
        },
        None => v,
    };
    let tag_meta = match tag {
        Some(t) => t.build,
        None => None,
    };
    if tag_meta is Some || cfg.build_metadata is Some {
        let eff_tag_meta: Option<Seq<char>> = if height == 0 {
            tag_meta
        } else {
            None
        };
        VersionView { build: spec_merged_build(eff_tag_meta, cfg.build_metadata), ..floored }
    } else {
        floored
    }
}

/// The whole calculation: what version, height and exact-match flag the
/// facts and the policy determine.
pub ghost struct CalcOutcome {
    pub version: VersionView,
    pub height: int,
    pub is_from_tag: bool,
}

pub open spec fn spec_calculate(facts: RepoFactsView, cfg: ConfigView) -> CalcOutcome {
    if facts.commits.len() == 0 {
        CalcOutcome {
            version: spec_apply_config(
                spec_default_version(cfg.default_prerelease_identifiers),
                cfg,
                None,
                0,
            ),
            height: 0,
            is_from_tag: false,
        }
    } else {
        let ft = spec_first_tagged(facts.commits, facts.tags, cfg.tag_prefix);
        let h = match ft {
            Some(i) => i,
            None => facts.commits.len() - 1,
        };
        let eff: nat = if cfg.ignore_height {
            0
        } else {
            h as nat
        };
        match ft {
            Some(_) => {
                let base = spec_best(spec_versions_at(facts.tags, cfg.tag_prefix, facts.commits[h]));
                CalcOutcome {
                    version: spec_apply_config(
                        spec_synthesize(base, eff, cfg),
                        cfg,
                        Some(base),
                        h as nat,
                    ),
                    height: h,
                    is_from_tag: h == 0,
                }
            },
            None => CalcOutcome {
                version: spec_apply_config(spec_no_tag_version(cfg, eff), cfg, None, h as nat),
                height: h,
                is_from_tag: false,
            },
        }
    }
}

/// Exact-tag invariant: when the current commit itself carries exactly one
/// version tag and the configuration adds no build metadata, the calculated
/// version is that tag's version verbatim, the height is zero, and the
/// result counts as an exact tag match.
pub proof fn lemma_exact_tag_match(facts: RepoFactsView, cfg: ConfigView, t: VersionView)
    requires
        facts.commits.len() > 0,
        spec_versions_at(facts.tags, cfg.tag_prefix, facts.commits[0]) == seq![t],
        cfg.build_metadata is None,
    ensures
        spec_calculate(facts, cfg).height == 0,
        spec_calculate(facts, cfg).is_from_tag,
        spec_calculate(facts, cfg).version == t,
{
    lemma_first_tagged_of(facts.commits, facts.tags, cfg.tag_prefix, 0);
    assert(spec_best(seq![t]) == t);
    match t.build {
        Some(b) => {
            assert(spec_merged_build(Some(b), None) == Some(b));
            assert(spec_calculate(facts, cfg).version == (VersionView { build: Some(b), ..t }));
        },
        None => {},
    }
}

/// Height monotonicity: when the nearest tagged ancestor stands exactly `k`
/// first-parent steps back, the calculated height is exactly `k`.
pub proof fn lemma_height_monotonicity(facts: RepoFactsView, cfg: ConfigView, k: int)
    requires
        0 <= k < facts.commits.len(),
        spec_versions_at(facts.tags, cfg.tag_prefix, facts.commits[k]).len() > 0,
        forall|j: int|
            0 <= j < k ==> spec_versions_at(
                facts.tags,
                cfg.tag_prefix,
                #[trigger] facts.commits[j],
            ).len() == 0,
    ensures
        spec_calculate(facts, cfg).height == k,
{
    lemma_first_tagged_of(facts.commits, facts.tags, cfg.tag_prefix, k);
}

/// The view of the version carried by an optional tag.
pub open spec fn opt_tag_version(o: Option<&VersionTag>) -> Option<VersionView> {
    match o {
        Some(t) => Some(t@.version),
        None => None,
    }
}

/// Synthesize the version for a tag found `height` commits back.
fn synthesize_version(base: &Version, height: u32, config: &Config) -> (r: Version)
    requires
        height > 0 && base@.prerelease.len() == 0 ==> spec_increment_fits(
            base@,
            config@.auto_increment,
        ),
    ensures
        r@ == spec_synthesize(base@, height as nat, config@),
{
    if height == 0 {
        return base.clone();
    }
    if base.is_prerelease() {
        base.with_prerelease_height(height)
    } else {
        base.with_rtm_height(height, &config.auto_increment, &config.default_prerelease_identifiers)
    }
}

/// Apply the floor and merge build metadata, per the policy.
fn apply_config(version: Version, config: &Config, tag: Option<&VersionTag>, height: u32) -> (r:
    Version)
    ensures
        r@ == spec_apply_config(version@, config@, opt_tag_version(tag), height as nat),
{
    let mut version = version;
    match &config.minimum_major_minor {
        Some(min) => {
            if height > 0 || tag.is_none() {
                version = version.apply_minimum(min, &config.default_prerelease_identifiers);
            }
        },
        None => {},
    }
    let tag_has_metadata = match tag {
        Some(t) => t.version.build_metadata.is_some(),
        None => false,
    };
    if tag_has_metadata || config.build_metadata.is_some() {
        let effective_tag_metadata: Option<&str> = if height == 0 {
            match tag {
                Some(t) => match &t.version.build_metadata {
                    Some(s) => Some(s.as_str()),
                    None => None,
                },
                None => None,
            }
        } else {
            None
        };
        let config_metadata: Option<&str> = match &config.build_metadata {
            Some(s) => Some(s.as_str()),
            None => None,
        };
        proof {
            assert(opt_str_view(config_metadata) == config@.build_metadata);
        }
        version = version.with_merged_build_metadata(effective_tag_metadata, config_metadata);
    }
    version
}

/// Calculate version, height and exact-match flag from repository facts.
///
/// Fails exactly when no repository was found, with the working directory
/// in the error.  An empty chain (no commits) yields the default version.
pub fn calculate_version(facts: &RepoFacts, config: &Config) -> (r: Result<
    (Version, u32, bool),
    TagVerError,
>)
    requires
        spec_within_limits(facts@, config@),
    ensures
        facts@.found ==> match r {
            Ok(t) => {
                let o = spec_calculate(facts@, config@);
                &&& t.0@ == o.version
                &&& t.1 == o.height
                &&& t.2 == o.is_from_tag
            },
            Err(_) => false,
        },
        !facts@.found ==> match r {
            Ok(_) => false,
            Err(e) => e matches TagVerError::GitRepoNotFound(p) && p@ == facts@.work_dir,
        },
{
    if !facts.found {
        return Err(TagVerError::GitRepoNotFound(facts.work_dir.clone()));
    }
    let (tag_catalogue, _invalid_tags) = parse_tags(&facts.tags, config);

    if facts.commits.len() == 0 {
        let version = Version::default(&config.default_prerelease_identifiers);
        let version = apply_config(version, config, None, 0);
        return Ok((version, 0, false));
    }

    let (base_tag, height) = walk_to_tag(
        &tag_catalogue,
        &facts.commits,
        Ghost(facts@.tags),
        Ghost(config@.tag_prefix),
    );

    // Respect ignore_height by zeroing the height used for synthesis; the
    // reported height stays the walked distance.
    let effective_height = if config.ignore_height {
        0
    } else {
        height
    };

    let (version, is_from_tag): (Version, bool) = match &base_tag {
        Some(tag) => {
            proof {
                let c = facts@.commits[height as int];
                let vs = spec_versions_at(facts@.tags, config@.tag_prefix, c);
                lemma_best_is_max(vs);
                lemma_versions_at_members(facts@.tags, config@.tag_prefix, c);
                let j = choose|j: int| 0 <= j < vs.len() && vs[j] == spec_best(vs);
                let k = choose|k: int|
                    0 <= k < facts@.tags.len() && spec_tag_version(
                        (#[trigger] facts@.tags[k]).name,
                        config@.tag_prefix,
                    ) == Some(vs[j]);
                assert(tag@.version.major < u32::MAX && tag@.version.minor < u32::MAX
                    && tag@.version.patch < u32::MAX);
            }
            let synthesized = synthesize_version(&tag.version, effective_height, config);
            (synthesized, height == 0)
        },
        None => {
            let default = Version::default(&config.default_prerelease_identifiers);
            let version = if effective_height > 0 {
                let mut v = default;
                let mut height_ident = String::new();
                push_u32(&mut height_ident, effective_height);
                v.prerelease.push(height_ident);
                proof {
                    assert(v@.prerelease =~= spec_no_tag_version(
                        config@,
                        effective_height as nat,
                    ).prerelease);
                }
                v
            } else {
                default
            };
            (version, false)
        },
    };

    let final_version = apply_config(version, config, base_tag.as_ref(), height);

    Ok((final_version, height, is_from_tag))
}

/// Calculate as [`calculate_version`] does, but fall back to the default
/// version when no repository is found: versioning works even outside one.
pub fn calculate_version_fallback(facts: &RepoFacts, config: &Config) -> (r: Result<
    (Version, u32, bool),
    TagVerError,
>)
    requires
        spec_within_limits(facts@, config@),
    ensures
        facts@.found ==> match r {
            Ok(t) => {
                let o = spec_calculate(facts@, config@);
                &&& t.0@ == o.version
                &&& t.1 == o.height
                &&& t.2 == o.is_from_tag
            },
            Err(_) => false,
        },
        !facts@.found ==> match r {
            Ok(t) => {
                &&& t.0@ == spec_apply_config(
                    spec_default_version(config@.default_prerelease_identifiers),
                    config@,
                    None,
                    0,
                )
                &&& t.1 == 0
                &&& t.2 == false
            },
            Err(_) => false,
        },
{
    if facts.found {
        calculate_version(facts, config)
    } else {
        let version = Version::default(&config.default_prerelease_identifiers);
        let version = apply_config(version, config, None, 0);
        Ok((version, 0, false))
    }
}

} // verus!
