//! Tests of the whole calculation over repository facts: the first-parent
//! commit chain from `HEAD` and the tag references, as a repository reader
//! would gather them.

use tagver::{
    calculate_version, calculate_version_fallback, calculate_version_with_fallback,
    facts_within_limits, parse_tags, Config, MajorMinor, RepoFacts, TagRef, TagVerError,
    VersionPart,
};

/// Repository facts for a chain of commits (`HEAD` first) and a set of tag
/// references `(name, target commit)`.
fn repo(commits: &[&str], tags: &[(&str, &str)]) -> RepoFacts {
    RepoFacts {
        found: true,
        is_shallow: false,
        work_dir: ".".to_string(),
        commits: commits.iter().map(|c| c.to_string()).collect(),
        tags: tags
            .iter()
            .map(|(name, target)| TagRef { name: name.to_string(), target: target.to_string() })
            .collect(),
    }
}

fn config_with_metadata(build_metadata: &str) -> Config {
    let mut config = Config::default();
    if !build_metadata.is_empty() {
        config.build_metadata = Some(build_metadata.to_string());
    }
    config
}

#[test]
fn test_empty_repo() {
    let facts = repo(&[], &[]);
    let result = calculate_version(&facts, &Config::default()).expect("Failed to calculate version");
    assert_eq!(result.render(), "0.0.0-alpha.0");
    assert_eq!(result.height, 0);
    assert!(!result.is_from_tag);
}

#[test]
fn test_no_repo() {
    let facts = RepoFacts::not_found("empty-dir".to_string());
    let result =
        calculate_version_with_fallback(&facts, &Config::default()).expect("Failed to calculate version");
    assert_eq!(result.render(), "0.0.0-alpha.0");
    assert_eq!(result.height, 0);
    assert!(!result.is_from_tag);
}

#[test]
fn test_no_repo_strict_errors() {
    let facts = RepoFacts::not_found("somewhere".to_string());
    let err = calculate_version(&facts, &Config::default()).expect_err("should fail");
    match err {
        TagVerError::GitRepoNotFound(p) => assert_eq!(p, "somewhere"),
        other => panic!("unexpected error: {}", other.message()),
    }
}

#[test]
fn build_metadata_test_no_commits() {
    for (build_metadata, expected_version) in [("", "0.0.0-alpha.0"), ("a", "0.0.0-alpha.0+a")] {
        let facts = repo(&[], &[]);
        let config = config_with_metadata(build_metadata);
        let result =
            calculate_version_with_fallback(&facts, &config).expect("Failed to calculate version");
        assert_eq!(result.render(), expected_version);
    }
}

#[test]
fn test_no_tag() {
    for (build_metadata, expected_version) in [("", "0.0.0-alpha.0"), ("a", "0.0.0-alpha.0+a")] {
        let facts = repo(&["c1"], &[]);
        let config = config_with_metadata(build_metadata);
        let result =
            calculate_version_with_fallback(&facts, &config).expect("Failed to calculate version");
        assert_eq!(result.render(), expected_version);
    }
}

#[test]
fn test_current_tag() {
    for (tag_name, build_metadata, expected_version) in [
        ("1.2.3+a", "", "1.2.3+a"),
        ("1.2.3", "b", "1.2.3+b"),
        ("1.2.3+a", "b", "1.2.3+a.b"),
        ("1.2.3-pre+a", "", "1.2.3-pre+a"),
        ("1.2.3-pre", "b", "1.2.3-pre+b"),
        ("1.2.3-pre+a", "b", "1.2.3-pre+a.b"),
    ] {
        let facts = repo(&["c1"], &[(tag_name, "c1")]);
        let config = config_with_metadata(build_metadata);
        let result =
            calculate_version_with_fallback(&facts, &config).expect("Failed to calculate version");
        assert_eq!(result.render(), expected_version);
        assert!(result.is_from_tag);
        assert_eq!(result.height, 0);
    }
}

#[test]
fn test_previous_tag() {
    for (tag_name, build_metadata, expected_version) in [
        ("1.2.3+a", "", "1.2.4-alpha.0.1"),
        ("1.2.3", "b", "1.2.4-alpha.0.1+b"),
        ("1.2.3+a", "b", "1.2.4-alpha.0.1+b"),
        ("1.2.3-pre+a", "", "1.2.3-pre.1"),
        ("1.2.3-pre", "b", "1.2.3-pre.1+b"),
        ("1.2.3-pre+a", "b", "1.2.3-pre.1+b"),
    ] {
        let facts = repo(&["c2", "c1"], &[(tag_name, "c1")]);
        let config = config_with_metadata(build_metadata);
        let result =
            calculate_version_with_fallback(&facts, &config).expect("Failed to calculate version");
        assert_eq!(result.render(), expected_version);
        assert!(!result.is_from_tag);
        assert_eq!(result.height, 1);
    }
}

#[test]
fn test_rtm_version_increment() {
    for (tag_name, auto_increment, expected_version) in [
        ("1.2.3", VersionPart::Major, "2.0.0-alpha.0.1"),
        ("1.2.3", VersionPart::Minor, "1.3.0-alpha.0.1"),
        ("1.2.3", VersionPart::Patch, "1.2.4-alpha.0.1"),
    ] {
        let facts = repo(&["c2", "c1"], &[(tag_name, "c1")]);
        let mut config = Config::default();
        config.auto_increment = auto_increment;
        let result =
            calculate_version_with_fallback(&facts, &config).expect("Failed to calculate version");
        assert_eq!(result.render(), expected_version);
    }
}

#[test]
fn test_prerelease_tag_three_commits_later() {
    let facts = repo(&["c4", "c3", "c2", "c1"], &[("1.0.0-beta.1", "c1")]);
    let result = calculate_version_with_fallback(&facts, &Config::default())
        .expect("Failed to calculate version");
    assert_eq!(result.render(), "1.0.0-beta.1.3");
    assert_eq!(result.height, 3);
}

#[test]
fn test_various_identifiers() {
    for (identifiers, expected_version) in
        [("alpha.0", "0.0.0-alpha.0"), ("preview.x", "0.0.0-preview.x")] {
        let facts = repo(&["c1"], &[]);
        let mut config = Config::default();
        config.default_prerelease_identifiers =
            identifiers.split('.').map(|s| s.to_string()).collect();
        let result =
            calculate_version_with_fallback(&facts, &config).expect("Failed to calculate version");
        assert_eq!(result.render(), expected_version);
    }
}

#[test]
fn min_major_minor_test_no_commits() {
    let facts = repo(&[], &[]);
    let mut config = Config::default();
    config.minimum_major_minor = Some(MajorMinor::parse("1.2").unwrap());
    let result =
        calculate_version_with_fallback(&facts, &config).expect("Failed to calculate version");
    assert_eq!(result.render(), "1.2.0-alpha.0");
}

#[test]
fn test_tagged() {
    for (tag_name, major, minor, expected_version) in [
        ("4.0.0", 3, 2, "4.0.0"),
        ("4.3.0", 4, 3, "4.3.0"),
        ("4.3.0", 5, 4, "4.3.0"),
    ] {
        let facts = repo(&["c1"], &[(tag_name, "c1")]);
        let mut config = Config::default();
        config.minimum_major_minor =
            Some(MajorMinor::parse(&format!("{}.{}", major, minor)).unwrap());
        let result =
            calculate_version_with_fallback(&facts, &config).expect("Failed to calculate version");
        assert_eq!(result.render(), expected_version);
    }
}

#[test]
fn test_not_tagged() {
    let facts = repo(&["c1"], &[]);
    let mut config = Config::default();
    config.minimum_major_minor = Some(MajorMinor::parse("1.0").unwrap());
    let result =
        calculate_version_with_fallback(&facts, &config).expect("Failed to calculate version");
    assert_eq!(result.render(), "1.0.0-alpha.0");
}

#[test]
fn tag_prefixes_test_tag_prefix() {
    for (tag_name, prefix, expected_version) in [
        ("2.3.4", "", "2.3.4"),
        ("v3.4.5", "v", "3.4.5"),
        ("version5.6.7", "version", "5.6.7"),
    ] {
        let facts = repo(&["c1"], &[(tag_name, "c1")]);
        let mut config = Config::default();
        config.tag_prefix = prefix.to_string();
        let result = calculate_version(&facts, &config).expect("Failed to calculate version");
        assert_eq!(result.render(), expected_version);
    }
}

#[test]
fn test_prefixed_tag_invisible_without_prefix() {
    // `v3.4.5` is not valid on its own, so with an empty prefix the tag is
    // unparseable and the catalogue never sees it
    let facts = repo(&["c1"], &[("v3.4.5", "c1")]);
    let result = calculate_version(&facts, &Config::default()).expect("Failed to calculate version");
    assert_eq!(result.render(), "0.0.0-alpha.0");
    assert!(!result.is_from_tag);
}

#[test]
fn test_minimum_major_minor_after_tag() {
    // merge-heavy history: on the first-parent chain from HEAD, the only
    // version tag sits on a side branch and is never seen
    let facts = repo(
        &["m2", "m1", "c1"],
        &[("not-a-version", "c1"), ("1.0.0-foo.1", "c2-on-foo")],
    );
    let config = Config {
        minimum_major_minor: Some(MajorMinor::new(0, 0)),
        ..Default::default()
    };
    let result =
        calculate_version_with_fallback(&facts, &config).expect("Failed to calculate version");
    assert!(!result.render().is_empty());
}

#[test]
fn test_minimum_major_minor_on_tag() {
    // HEAD sits on the side branch and carries the pre-release tag itself
    let facts = repo(&["c2-on-foo", "c1"], &[("not-a-version", "c1"), ("1.0.0-foo.1", "c2-on-foo")]);
    let config = Config {
        minimum_major_minor: Some(MajorMinor::new(0, 0)),
        ..Default::default()
    };
    let result =
        calculate_version_with_fallback(&facts, &config).expect("Failed to calculate version");
    assert!(!result.render().is_empty());
    assert_eq!(result.render(), "1.0.0-foo.1");
}

#[test]
fn test_ignore_height() {
    let facts = repo(&["c2", "c1"], &[("1.0.0", "c1")]);
    let mut config = Config::default();
    config.ignore_height = true;
    let result =
        calculate_version_with_fallback(&facts, &config).expect("Failed to calculate version");
    // synthesis sees height zero, the reported height stays the distance
    assert_eq!(result.render(), "1.0.0");
    assert_eq!(result.height, 1);
    assert!(!result.is_from_tag);
}

#[test]
fn test_highest_tag_on_commit_wins() {
    let facts = repo(
        &["c1"],
        &[("1.0.0", "c1"), ("2.1.0", "c1"), ("2.0.9", "c1"), ("2.1.0-rc.1", "c1")],
    );
    let result = calculate_version(&facts, &Config::default()).expect("Failed to calculate version");
    assert_eq!(result.render(), "2.1.0");
}

#[test]
fn test_nearest_tag_wins_over_higher_ancestor() {
    // the walk stops at the first tagged commit, not the highest tag anywhere
    let facts = repo(&["c3", "c2", "c1"], &[("9.9.9", "c1"), ("0.1.0", "c2")]);
    let result = calculate_version(&facts, &Config::default()).expect("Failed to calculate version");
    assert_eq!(result.render(), "0.1.1-alpha.0.1");
    assert_eq!(result.height, 1);
}

#[test]
fn test_parse_tags_reports_invalid_names() {
    let facts = repo(
        &["c1"],
        &[("1.0.0", "c1"), ("not-a-version", "c1"), ("v-odd", "c1")],
    );
    let config = Config::default();
    let (_, invalid) = parse_tags(&facts.tags, &config);
    assert_eq!(invalid, vec!["not-a-version".to_string(), "v-odd".to_string()]);

    let mut prefixed = Config::default();
    prefixed.tag_prefix = "v".to_string();
    let (_, invalid) = parse_tags(&facts.tags, &prefixed);
    // names without the prefix are skipped silently, not reported
    assert_eq!(invalid, vec!["v-odd".to_string()]);
}

#[test]
fn test_facts_within_limits() {
    let facts = repo(&["c1"], &[("1.2.3", "c1")]);
    assert!(facts_within_limits(&facts, &Config::default()));
    let extreme = repo(&["c1"], &[("4294967295.0.0", "c1")]);
    assert!(!facts_within_limits(&extreme, &Config::default()));
}

#[test]
fn test_calculate_version_fallback_tuple() {
    let facts = repo(&["c1"], &[("1.2.3", "c1")]);
    let (version, height, is_from_tag) =
        calculate_version_fallback(&facts, &Config::default()).expect("Failed to calculate version");
    assert_eq!(version.render(), "1.2.3");
    assert_eq!(height, 0);
    assert!(is_from_tag);
}

/// The first-parent chain (`HEAD` first) made of the given segments: the
/// segments ordered root-most first, each listed root-first, so the last
/// identifier of the last segment is `HEAD`.
fn chain(segments: &[&[&str]]) -> Vec<String> {
    let mut out: Vec<String> = Vec::new();
    for segment in segments.iter().rev() {
        for id in segment.iter().rev() {
            out.push(id.to_string());
        }
    }
    out
}

#[test]
fn test_repo_with_history() {
    // A merge-heavy history.  Trunk t0..t13 carries the early tags; branch
    // f1..f6 forks at t13 and carries its own; trunk continues a1..a4, merges
    // the branch (first parent a4), and finishes with c1..c3.
    let tags: &[(&str, &str)] = &[
        ("0.0.0-alpha.1", "t3"),
        ("0.0.0", "t5"),
        ("0.1.0-beta.1", "t7"),
        ("0.1.0", "t9"),
        ("1.0.0-alpha.1", "t11"),
        ("1.0.0-rc.1", "t13"),
        ("1.0.0", "t13"),
        ("1.0.1-alpha.1", "f3"),
        ("1.0.1", "f5"),
        ("1.1.0-alpha.1", "a3"),
        ("1.1.0-beta.2", "c1"),
        ("1.1.0-beta.10", "c1"),
        ("1.1.0-rc.1", "c3"),
        ("1.1.0", "c3"),
    ];
    let trunk = [
        "t0", "t1", "t2", "t3", "t4", "t5", "t6", "t7", "t8", "t9", "t10", "t11", "t12", "t13",
    ];
    let branch = ["f1", "f2", "f3", "f4", "f5", "f6"];
    let upper = ["a1", "a2", "a3", "a4"];
    let merged = ["merge"];
    let top = ["c1", "c2", "c3"];

    let mut cases: Vec<(Vec<String>, &str)> = Vec::new();
    let expected_trunk = [
        "0.0.0-alpha.0",
        "0.0.0-alpha.0.1",
        "0.0.0-alpha.0.2",
        "0.0.0-alpha.1",
        "0.0.0-alpha.1.1",
        "0.0.0",
        "0.0.1-alpha.0.1",
        "0.1.0-beta.1",
        "0.1.0-beta.1.1",
        "0.1.0",
        "0.1.1-alpha.0.1",
        "1.0.0-alpha.1",
        "1.0.0-alpha.1.1",
        "1.0.0",
    ];
    for i in 0..trunk.len() {
        cases.push((chain(&[&trunk[..=i]]), expected_trunk[i]));
    }
    let expected_branch = [
        "1.0.1-alpha.0.1",
        "1.0.1-alpha.0.2",
        "1.0.1-alpha.1",
        "1.0.1-alpha.1.1",
        "1.0.1",
        "1.0.2-alpha.0.1",
    ];
    for i in 0..branch.len() {
        cases.push((chain(&[&trunk, &branch[..=i]]), expected_branch[i]));
    }
    let expected_upper = ["1.0.1-alpha.0.1", "1.0.1-alpha.0.2", "1.1.0-alpha.1", "1.1.0-alpha.1.1"];
    for i in 0..upper.len() {
        cases.push((chain(&[&trunk, &upper[..=i]]), expected_upper[i]));
    }
    // the merge commit follows its first parent only: the branch side with
    // tag 1.0.1 on it is never consulted
    cases.push((chain(&[&trunk, &upper, &merged]), "1.1.0-alpha.1.2"));
    let expected_top = ["1.1.0-beta.10", "1.1.0-beta.10.1", "1.1.0"];
    for i in 0..top.len() {
        cases.push((chain(&[&trunk, &upper, &merged, &top[..=i]]), expected_top[i]));
    }

    for (commits, expected) in cases {
        let head = commits[0].clone();
        let facts = RepoFacts {
            found: true,
            is_shallow: false,
            work_dir: ".".to_string(),
            commits,
            tags: tags
                .iter()
                .map(|(name, target)| TagRef {
                    name: name.to_string(),
                    target: target.to_string(),
                })
                .collect(),
        };
        let result = calculate_version_with_fallback(&facts, &Config::default())
            .expect("Failed to calculate version");
        assert_eq!(result.render(), expected, "at commit {}", head);
    }
}

#[test]
fn test_error_messages() {
    let err = TagVerError::GitRepoNotFound("/tmp/nowhere".to_string());
    assert_eq!(err.message(), "Git repository not found at path: /tmp/nowhere");
    assert_eq!(TagVerError::NoCommits.message(), "No commits found in repository");
    assert_eq!(
        TagVerError::InvalidSemver("abc".to_string()).message(),
        "Invalid semantic version: abc"
    );
    assert_eq!(
        TagVerError::NoVersionTags("v".to_string()).message(),
        "No version tags found with prefix 'v'"
    );
}

#[test]
fn test_result_reports_work_dir() {
    let mut facts = repo(&["c1"], &[]);
    facts.work_dir = "proj".to_string();
    let result = calculate_version(&facts, &Config::default()).expect("Failed to calculate version");
    assert_eq!(result.work_dir, "proj");
}
