//! Tests of the version value type: rendering, parsing, derivation
//! operations and precedence.

use tagver::{MajorMinor, Verbosity, Version, VersionPart};

#[test]
fn test_version_display() {
    let version = Version::new(1, 2, 3);
    assert_eq!(version.render(), "1.2.3");
}

#[test]
fn test_render_full_forms() {
    let v = Version::parse("1.2.3-alpha.0+build.77").expect("should parse");
    assert_eq!(v.render(), "1.2.3-alpha.0+build.77");
    let v = Version::parse("0.0.0-alpha.0").expect("should parse");
    assert_eq!(v.render(), "0.0.0-alpha.0");
    let v = Version::parse("10.20.30").expect("should parse");
    assert_eq!(v.render(), "10.20.30");
    let v = Version::parse("1.2.3+a").expect("should parse");
    assert_eq!(v.render(), "1.2.3+a");
}

#[test]
fn test_parse_fields() {
    let v = Version::parse("4294967295.0.7-rc.1.x-y+exp.sha.5114f85").expect("should parse");
    assert_eq!(v.major, 4294967295);
    assert_eq!(v.minor, 0);
    assert_eq!(v.patch, 7);
    assert_eq!(v.prerelease, vec!["rc", "1", "x-y"]);
    assert_eq!(v.build_metadata, Some("exp.sha.5114f85".to_string()));
}

#[test]
fn test_parse_rejections() {
    // not a version at all
    assert!(Version::parse("").is_none());
    assert!(Version::parse("not-a-version").is_none());
    // the prefixed form is not valid without stripping
    assert!(Version::parse("v3.4.5").is_none());
    // wrong number of numeric fields
    assert!(Version::parse("1.2").is_none());
    assert!(Version::parse("1.2.3.4").is_none());
    // leading zeros
    assert!(Version::parse("01.2.3").is_none());
    assert!(Version::parse("1.02.3").is_none());
    assert!(Version::parse("1.2.03").is_none());
    // numeric pre-release identifiers carry no leading zeros either
    assert!(Version::parse("1.2.3-alpha.01").is_none());
    // empty identifiers
    assert!(Version::parse("1.2.3-").is_none());
    assert!(Version::parse("1.2.3-alpha..1").is_none());
    assert!(Version::parse("1.2.3+").is_none());
    assert!(Version::parse("1.2.3+meta..x").is_none());
    // forbidden characters
    assert!(Version::parse("1.2.3-al_pha").is_none());
    assert!(Version::parse(" 1.2.3").is_none());
    // numeric field too large for the version type
    assert!(Version::parse("4294967296.0.0").is_none());
}

#[test]
fn test_parse_render_round_trip() {
    for s in [
        "0.0.0",
        "1.2.3",
        "1.2.3-alpha.0",
        "1.2.3-alpha.0.1+b",
        "1.0.0-x-y-z.7.0a",
        "4294967295.4294967295.4294967295",
    ] {
        let v = Version::parse(s).expect("should parse");
        assert_eq!(v.render(), s);
        let w = Version::parse(&v.render()).expect("round trip should parse");
        assert_eq!(w.render(), s);
    }
}

#[test]
fn test_increment() {
    let v = Version::parse("1.2.3-beta.1+m").expect("should parse");
    assert_eq!(v.increment(&VersionPart::Major).render(), "2.0.0");
    assert_eq!(v.increment(&VersionPart::Minor).render(), "1.3.0");
    assert_eq!(v.increment(&VersionPart::Patch).render(), "1.2.4");
}

#[test]
fn test_is_prerelease_and_rtm() {
    let pre = Version::parse("1.0.0-beta.1").expect("should parse");
    assert!(pre.is_prerelease());
    assert!(!pre.is_rtm());
    let rtm = Version::parse("1.0.0+b").expect("should parse");
    assert!(!rtm.is_prerelease());
    assert!(rtm.is_rtm());
}

#[test]
fn test_with_rtm_height() {
    let v = Version::parse("1.2.3").expect("should parse");
    let defaults = vec!["alpha".to_string(), "0".to_string()];
    assert_eq!(v.with_rtm_height(0, &VersionPart::Patch, &defaults).render(), "1.2.3");
    assert_eq!(v.with_rtm_height(5, &VersionPart::Patch, &defaults).render(), "1.2.4-alpha.0.5");
    assert_eq!(v.with_rtm_height(1, &VersionPart::Major, &defaults).render(), "2.0.0-alpha.0.1");
}

#[test]
fn test_with_prerelease_height() {
    let v = Version::parse("1.0.0-beta.1+m").expect("should parse");
    assert_eq!(v.with_prerelease_height(0).render(), "1.0.0-beta.1+m");
    // metadata is dropped when the height moves the version
    assert_eq!(v.with_prerelease_height(3).render(), "1.0.0-beta.1.3");
}

#[test]
fn test_apply_minimum() {
    let defaults = vec!["alpha".to_string(), "0".to_string()];
    let low = Version::parse("1.1.9").expect("should parse");
    assert_eq!(low.apply_minimum(&MajorMinor::new(1, 2), &defaults).render(), "1.2.0-alpha.0");
    let equal = Version::parse("1.2.0").expect("should parse");
    assert_eq!(equal.apply_minimum(&MajorMinor::new(1, 2), &defaults).render(), "1.2.0");
    let high = Version::parse("4.0.0").expect("should parse");
    assert_eq!(high.apply_minimum(&MajorMinor::new(3, 2), &defaults).render(), "4.0.0");
}

#[test]
fn test_satisfies() {
    let defaults = vec!["alpha".to_string(), "0".to_string()];
    let v = Version::parse("1.1.9").expect("should parse");
    assert_eq!(v.satisfies(&MajorMinor::new(1, 2), &defaults).render(), "1.2.0");
    assert_eq!(v.satisfies(&MajorMinor::new(1, 1), &defaults).render(), "1.1.9");
}

#[test]
fn test_with_merged_build_metadata() {
    let v = Version::parse("1.2.3").expect("should parse");
    assert_eq!(v.with_merged_build_metadata(None, None).render(), "1.2.3");
    assert_eq!(v.with_merged_build_metadata(Some("a"), None).render(), "1.2.3+a");
    assert_eq!(v.with_merged_build_metadata(None, Some("b")).render(), "1.2.3+b");
    assert_eq!(v.with_merged_build_metadata(Some("a"), Some("b")).render(), "1.2.3+a.b");
}

#[test]
fn test_with_height_and_build_metadata() {
    let defaults = vec!["beta".to_string()];
    let v = Version::parse("1.2.3").expect("should parse");
    assert_eq!(v.with_height(2, &VersionPart::Patch, &defaults).render(), "1.2.5-beta");
    assert_eq!(v.with_height(0, &VersionPart::Patch, &defaults).render(), "1.2.3");
    assert_eq!(v.with_build_metadata("ci.9").render(), "1.2.3+ci.9");
}

#[test]
fn test_default_version() {
    let defaults = vec!["alpha".to_string(), "0".to_string()];
    assert_eq!(Version::default(&defaults).render(), "0.0.0-alpha.0");
    let other = vec!["preview".to_string(), "x".to_string()];
    assert_eq!(Version::default(&other).render(), "0.0.0-preview.x");
}

#[test]
fn test_precedence_chain() {
    // the canonical ordering chain of semantic versioning
    let chain = [
        "1.0.0-alpha",
        "1.0.0-alpha.1",
        "1.0.0-alpha.beta",
        "1.0.0-beta",
        "1.0.0-beta.2",
        "1.0.0-beta.11",
        "1.0.0-rc.1",
        "1.0.0",
        "2.0.0",
        "2.1.0",
        "2.1.1",
    ];
    for i in 0..chain.len() {
        for j in 0..chain.len() {
            let a = Version::parse(chain[i]).expect("should parse");
            let b = Version::parse(chain[j]).expect("should parse");
            assert_eq!(a.precedes(&b), i < j, "{} vs {}", chain[i], chain[j]);
        }
    }
}

#[test]
fn test_equality_ignores_build_metadata() {
    let a = Version::parse("1.2.3-rc.1+alpha").expect("should parse");
    let b = Version::parse("1.2.3-rc.1+beta").expect("should parse");
    let c = Version::parse("1.2.3-rc.2+alpha").expect("should parse");
    assert!(a == b);
    assert!(a != c);
    // round trip through text preserves equality
    let d = Version::parse(&a.render()).expect("should parse");
    assert!(a == d);
}

#[test]
fn test_precedence_ignores_build_metadata() {
    let a = Version::parse("1.2.3+alpha").expect("should parse");
    let b = Version::parse("1.2.3+beta").expect("should parse");
    assert!(!a.precedes(&b));
    assert!(!b.precedes(&a));
}

#[test]
fn test_major_minor_parse() {
    let mm = MajorMinor::parse("1.2").expect("should parse");
    assert_eq!(mm, MajorMinor::new(1, 2));
    let mm = MajorMinor::parse("0.0").expect("should parse");
    assert_eq!(mm, MajorMinor::new(0, 0));
    assert!(MajorMinor::parse("1").is_err());
    assert!(MajorMinor::parse("1.2.3").is_err());
    assert!(MajorMinor::parse("a.b").is_err());
    assert!(MajorMinor::parse("1.").is_err());
    assert!(MajorMinor::parse("").is_err());
}

#[test]
fn test_version_part_parse() {
    assert_eq!(VersionPart::parse("major").expect("should parse"), VersionPart::Major);
    assert_eq!(VersionPart::parse("MINOR").expect("should parse"), VersionPart::Minor);
    assert_eq!(VersionPart::parse("Patch").expect("should parse"), VersionPart::Patch);
    assert!(VersionPart::parse("majority").is_err());
    assert!(VersionPart::parse("").is_err());
}

#[test]
fn test_verbosity_parse() {
    assert_eq!(Verbosity::parse("quiet").expect("should parse"), Verbosity::Quiet);
    assert_eq!(Verbosity::parse("normal").expect("should parse"), Verbosity::Normal);
    assert_eq!(Verbosity::parse("verbose").expect("should parse"), Verbosity::Verbose);
    assert_eq!(Verbosity::parse("info").expect("should parse"), Verbosity::Verbose);
    assert_eq!(Verbosity::parse("DEBUG").expect("should parse"), Verbosity::Debug);
    assert_eq!(Verbosity::parse("trace").expect("should parse"), Verbosity::Trace);
    assert!(Verbosity::parse("loud").is_err());
}
