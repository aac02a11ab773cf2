//! The semantic-version value type and its derivation operations.

use vstd::prelude::*;
use vstd::string::*;

use crate::config::{MajorMinor, VersionPart};
use crate::text::{digit_char, digits_of, join, spec_valid_build, valid_pre_ident};

verus! {

/// A semantic version: `major.minor.patch`, an ordered sequence of pre-release
/// identifiers, and optional build metadata.
///
/// An empty `prerelease` sequence marks a release (RTM) version.  Build
/// metadata never takes part in ordering or equality.
#[derive(Debug)]
pub struct Version {
    pub major: u32,
    pub minor: u32,
    pub patch: u32,
    pub prerelease: Vec<String>,
    pub build_metadata: Option<String>,
}

/// The mathematical model of a [`Version`]: plain numbers, a sequence of
/// identifier character sequences, and optional metadata characters.
pub ghost struct VersionView {
    pub major: u32,
    pub minor: u32,
    pub patch: u32,
    pub prerelease: Seq<Seq<char>>,
    pub build: Option<Seq<char>>,
}

impl View for Version {
    type V = VersionView;

    open spec fn view(&self) -> VersionView {
        VersionView {
            major: self.major,
            minor: self.minor,
            patch: self.patch,
            prerelease: self.prerelease.deep_view(),
            build: self.build_metadata.deep_view(),
        }
    }
}

impl VersionView {
    /// Well-formedness: every pre-release identifier is valid and the build
    /// metadata, when present, is a valid dot-separated identifier list.
    pub open spec fn wf(self) -> bool {
        &&& forall|i: int| 0 <= i < self.prerelease.len() ==> valid_pre_ident(#[trigger] self.prerelease[i])
        &&& match self.build {
            Some(b) => spec_valid_build(b),
            None => true,
        }
    }

    /// A version with no pre-release identifiers is a release (RTM) version.
    pub open spec fn is_release(self) -> bool {
        self.prerelease.len() == 0
    }
}

/// The canonical rendering of a version:
/// `major.minor.patch`, then `-` and the dot-joined pre-release identifiers
/// when there are any, then `+` and the build metadata when present.
pub open spec fn spec_render(v: VersionView) -> Seq<char> {
    digits_of(v.major as nat) + seq!['.'] + digits_of(v.minor as nat) + seq!['.'] + digits_of(
        v.patch as nat,
    ) + (if v.prerelease.len() > 0 {
        seq!['-'] + join(v.prerelease, '.')
    } else {
        Seq::empty()
    }) + (match v.build {
        Some(b) => seq!['+'] + b,
        None => Seq::empty(),
    })
}

/// Appending one decimal digit to a string.
fn push_digit(s: &mut String, d: u32)
    requires
        d < 10,
    ensures
        final(s)@ == old(s)@ + seq![digit_char(d as int)],
{
    proof {
        reveal_strlit("0");
        reveal_strlit("1");
        reveal_strlit("2");
        reveal_strlit("3");
        reveal_strlit("4");
        reveal_strlit("5");
        reveal_strlit("6");
        reveal_strlit("7");
        reveal_strlit("8");
        reveal_strlit("9");
    }
    if d == 0 {
        s.append("0");
        assert(("0")@ =~= seq![digit_char(d as int)]);
    } else if d == 1 {
        s.append("1");
        assert(("1")@ =~= seq![digit_char(d as int)]);
    } else if d == 2 {
        s.append("2");
        assert(("2")@ =~= seq![digit_char(d as int)]);
    } else if d == 3 {
        s.append("3");
        assert(("3")@ =~= seq![digit_char(d as int)]);
    } else if d == 4 {
        s.append("4");
        assert(("4")@ =~= seq![digit_char(d as int)]);
    } else if d == 5 {
        s.append("5");
        assert(("5")@ =~= seq![digit_char(d as int)]);
    } else if d == 6 {
        s.append("6");
        assert(("6")@ =~= seq![digit_char(d as int)]);
    } else if d == 7 {
        s.append("7");
        assert(("7")@ =~= seq![digit_char(d as int)]);
    } else if d == 8 {
        s.append("8");
        assert(("8")@ =~= seq![digit_char(d as int)]);
    } else {
        s.append("9");
        assert(("9")@ =~= seq![digit_char(d as int)]);
    }
}

/// Appending the decimal rendering of a number to a string.
pub fn push_u32(s: &mut String, n: u32)
    ensures
        final(s)@ == old(s)@ + digits_of(n as nat),
    decreases n,
{
    if n < 10 {
        push_digit(s, n);
    } else {
        push_u32(s, n / 10);
        push_digit(s, n % 10);
        proof {
            assert(digits_of(n as nat) =~= digits_of((n as nat) / 10) + seq![
                digit_char(((n as nat) % 10) as int),
            ]);
            assert(old(s)@ + digits_of((n as nat) / 10) + seq![digit_char(((n as nat) % 10) as int)]
                =~= old(s)@ + digits_of(n as nat));
        }
    }
}

/// Joining one more part keeps the separator discipline.
proof fn lemma_join_push(parts: Seq<Seq<char>>, x: Seq<char>, sep: char)
    requires
        parts.len() >= 1,
    ensures
        join(parts.push(x), sep) == join(parts, sep) + seq![sep] + x,
    decreases parts.len(),
{
    if parts.len() == 1 {
        assert(parts.push(x).skip(1) =~= seq![x]);
        assert(join(seq![x], sep) == x);
        assert(parts.push(x)[0] == parts[0]);
        assert(join(parts.push(x), sep) == parts[0] + seq![sep] + join(seq![x], sep));
    } else {
        lemma_join_push(parts.skip(1), x, sep);
        assert(parts.push(x).skip(1) =~= parts.skip(1).push(x));
        assert(parts[0] + seq![sep] + (join(parts.skip(1), sep) + seq![sep] + x) =~= (parts[0]
            + seq![sep] + join(parts.skip(1), sep)) + seq![sep] + x);
    }
}

/// Auto-increment: bump the given part, reset the lower parts, and drop both
/// pre-release identifiers and build metadata.
pub open spec fn spec_increment(v: VersionView, part: VersionPart) -> VersionView
    recommends
        spec_increment_fits(v, part),
{
    match part {
        VersionPart::Major => VersionView {
            major: (v.major + 1) as u32,
            minor: 0,
            patch: 0,
            prerelease: Seq::empty(),
            build: None,
        },
        VersionPart::Minor => VersionView {
            major: v.major,
            minor: (v.minor + 1) as u32,
            patch: 0,
            prerelease: Seq::empty(),
            build: None,
        },
        VersionPart::Patch => VersionView {
            major: v.major,
            minor: v.minor,
            patch: (v.patch + 1) as u32,
            prerelease: Seq::empty(),
            build: None,
        },
    }
}

/// The bumped part stays representable.
pub open spec fn spec_increment_fits(v: VersionView, part: VersionPart) -> bool {
    match part {
        VersionPart::Major => v.major < u32::MAX,
        VersionPart::Minor => v.minor < u32::MAX,
        VersionPart::Patch => v.patch < u32::MAX,
    }
}

/// Moving `h` commits past a release tag: increment, then use the default
/// pre-release identifiers with the height appended; metadata is dropped.
/// A height of zero leaves the version untouched.
pub open spec fn spec_with_rtm_height(
    v: VersionView,
    h: nat,
    part: VersionPart,
    defaults: Seq<Seq<char>>,
) -> VersionView {
    if h == 0 {
        v
    } else {
        let i = spec_increment(v, part);
        VersionView {
            major: i.major,
            minor: i.minor,
            patch: i.patch,
            prerelease: defaults.push(digits_of(h)),
            build: None,
        }
    }
}

/// Moving `h` commits past a pre-release tag: append the height to the
/// existing identifiers; numeric parts stay, metadata is dropped.
/// A height of zero leaves the version untouched.
pub open spec fn spec_with_prerelease_height(v: VersionView, h: nat) -> VersionView {
    if h == 0 {
        v
    } else {
        VersionView { prerelease: v.prerelease.push(digits_of(h)), build: None, ..v }
    }
}

/// Whether a version already satisfies a `major.minor` floor.
pub open spec fn spec_meets_minimum(v: VersionView, min: MajorMinor) -> bool {
    v.major > min.major || (v.major == min.major && v.minor >= min.minor)
}

/// Raise a version to the floor: a satisfying version is kept unchanged,
/// anything lower is replaced outright by `min.major.min.minor.0` with the
/// default pre-release identifiers.
pub open spec fn spec_apply_minimum(
    v: VersionView,
    min: MajorMinor,
    defaults: Seq<Seq<char>>,
) -> VersionView {
    if spec_meets_minimum(v, min) {
        v
    } else {
        VersionView { major: min.major, minor: min.minor, patch: 0, prerelease: defaults, build: None }
    }
}

/// The floor never lowers or alters a version that already satisfies it.
pub proof fn lemma_floor_keeps_satisfying(v: VersionView, min: MajorMinor, defaults: Seq<Seq<char>>)
    requires
        spec_meets_minimum(v, min),
    ensures
        spec_apply_minimum(v, min, defaults) == v,
{
}

/// Merge build metadata from a tag and from the configuration: absent when
/// both are absent, the present one when only one is present, and
/// `tag.config` when both are.
pub open spec fn spec_merged_build(t: Option<Seq<char>>, c: Option<Seq<char>>) -> Option<Seq<char>> {
    match (t, c) {
        (None, None) => None,
        (Some(tm), None) => Some(tm),
        (None, Some(cm)) => Some(cm),
        (Some(tm), Some(cm)) => Some(tm + seq!['.'] + cm),
    }
}

/// The fallback version: `0.0.0` with the default pre-release identifiers.
pub open spec fn spec_default_version(defaults: Seq<Seq<char>>) -> VersionView {
    VersionView { major: 0, minor: 0, patch: 0, prerelease: defaults, build: None }
}

/// The view of an optional borrowed string.
pub open spec fn opt_str_view(o: Option<&str>) -> Option<Seq<char>> {
    match o {
        Some(s) => Some(s@),
        None => None,
    }
}

/// Copy a list of identifiers.
pub(crate) fn clone_idents(v: &Vec<String>) -> (r: Vec<String>)
    ensures
        r.deep_view() == v.deep_view(),
{
    let mut r: Vec<String> = Vec::new();
    let mut i: usize = 0;
    while i < v.len()
        invariant
            i <= v@.len(),
            r@.len() == i,
            forall|j: int| 0 <= j < i ==> #[trigger] r@[j]@ == v@[j]@,
        decreases v@.len() - i,
    {
        r.push(v[i].clone());
        i = i + 1;
    }
    proof {
        assert forall|j: int| 0 <= j < v@.len() implies r.deep_view()[j] == v.deep_view()[j] by {
            assert(r@[j]@ == v@[j]@);
        }
        assert(r.deep_view() =~= v.deep_view());
    }
    r
}

/// Copy optional build metadata.
pub(crate) fn clone_build(b: &Option<String>) -> (r: Option<String>)
    ensures
        r.deep_view() == b.deep_view(),
{
    match b {
        Some(s) => Some(s.clone()),
        None => None,
    }
}

/// Version equality: over the numeric triple and the pre-release
/// identifiers only; build metadata is excluded.
pub open spec fn spec_same_version(a: VersionView, b: VersionView) -> bool {
    a.major == b.major && a.minor == b.minor && a.patch == b.patch && a.prerelease == b.prerelease
}

/// Whether two identifier lists hold the same identifiers in the same order.
fn idents_eq(x: &Vec<String>, y: &Vec<String>) -> (r: bool)
    ensures
        r == (x.deep_view() == y.deep_view()),
{
    if x.len() != y.len() {
        proof {
            assert(x.deep_view().len() != y.deep_view().len());
        }
        return false;
    }
    let mut i: usize = 0;
    while i < x.len()
        invariant
            x@.len() == y@.len(),
            i <= x@.len(),
            forall|j: int| 0 <= j < i ==> #[trigger] x.deep_view()[j] == y.deep_view()[j],
        decreases x@.len() - i,
    {
        if !x[i].eq(&y[i]) {
            proof {
                assert(x.deep_view()[i as int] != y.deep_view()[i as int]);
            }
            return false;
        }
        i = i + 1;
    }
    proof {
        assert(x.deep_view() =~= y.deep_view());
    }
    true
}

impl PartialEq for Version {
    /// Two versions are equal when they agree on `major`, `minor`, `patch`
    /// and the pre-release identifiers; build metadata does not count.
    fn eq(&self, other: &Self) -> (r: bool) {
        self.major == other.major && self.minor == other.minor && self.patch == other.patch
            && idents_eq(&self.prerelease, &other.prerelease)
    }
}

impl vstd::std_specs::cmp::PartialEqSpecImpl for Version {
    open spec fn obeys_eq_spec() -> bool {
        true
    }

    open spec fn eq_spec(&self, other: &Self) -> bool {
        spec_same_version(self@, other@)
    }
}

impl Clone for Version {
    /// Copies every field; the copy has the same view.
    fn clone(&self) -> (r: Self)
        ensures
            r@ == self@,
    {
        Version {
            major: self.major,
            minor: self.minor,
            patch: self.patch,
            prerelease: clone_idents(&self.prerelease),
            build_metadata: clone_build(&self.build_metadata),
        }
    }
}

impl Version {
    /// Create a release version with no pre-release identifiers or metadata.
    pub fn new(major: u32, minor: u32, patch: u32) -> (r: Self)
        ensures
            r@ == (VersionView {
                major,
                minor,
                patch,
                prerelease: Seq::empty(),
                build: None,
            }),
    {
        let r = Version { major, minor, patch, prerelease: Vec::new(), build_metadata: None };
        proof {
            assert(r@.prerelease =~= Seq::<Seq<char>>::empty());
        }
        r
    }

    /// Whether this version carries pre-release identifiers.
    pub fn is_prerelease(&self) -> (r: bool)
        ensures
            r == !self@.is_release(),
    {
        self.prerelease.len() > 0
    }

    /// Whether this version is a release (RTM) version.
    pub fn is_rtm(&self) -> (r: bool)
        ensures
            r == self@.is_release(),
    {
        self.prerelease.len() == 0
    }

    /// Bump the given part and reset everything below it; the result is
    /// always a bare release version.
    pub fn increment(&self, part: &VersionPart) -> (r: Self)
        requires
            spec_increment_fits(self@, *part),
        ensures
            r@ == spec_increment(self@, *part),
    {
        let r = match part {
            VersionPart::Major => Version {
                major: self.major + 1,
                minor: 0,
                patch: 0,
                prerelease: Vec::new(),
                build_metadata: None,
            },
            VersionPart::Minor => Version {
                major: self.major,
                minor: self.minor + 1,
                patch: 0,
                prerelease: Vec::new(),
                build_metadata: None,
            },
            VersionPart::Patch => Version {
                major: self.major,
                minor: self.minor,
                patch: self.patch + 1,
                prerelease: Vec::new(),
                build_metadata: None,
            },
        };
        proof {
            assert(r@.prerelease =~= Seq::<Seq<char>>::empty());
        }
        r
    }

    /// The bare floor check: returns the version itself when it meets the
    /// floor, and the plain floor version (no pre-release identifiers)
    /// otherwise.
    pub fn satisfies(&self, min_major_minor: &MajorMinor, _default_prerelease: &Vec<String>) -> (r:
        Self)
        ensures
            spec_meets_minimum(self@, *min_major_minor) ==> r@ == self@,
            !spec_meets_minimum(self@, *min_major_minor) ==> r@ == (VersionView {
                major: min_major_minor.major,
                minor: min_major_minor.minor,
                patch: 0,
                prerelease: Seq::empty(),
                build: None,
            }),
    {
        if self.major > min_major_minor.major || (self.major == min_major_minor.major
            && self.minor >= min_major_minor.minor) {
            self.clone()
        } else {
            Version::new(min_major_minor.major, min_major_minor.minor, 0)
        }
    }

    /// Derive the version for a commit `height` steps past a release tag.
    pub fn with_rtm_height(
        &self,
        height: u32,
        auto_increment: &VersionPart,
        default_prerelease: &Vec<String>,
    ) -> (r: Self)
        requires
            height > 0 ==> spec_increment_fits(self@, *auto_increment),
        ensures
            r@ == spec_with_rtm_height(
                self@,
                height as nat,
                *auto_increment,
                default_prerelease.deep_view(),
            ),
    {
        if height == 0 {
            return self.clone();
        }
        let incremented = self.increment(auto_increment);
        let mut prerelease = clone_idents(default_prerelease);
        let mut height_ident = String::new();
        push_u32(&mut height_ident, height);
        prerelease.push(height_ident);
        let r = Version {
            major: incremented.major,
            minor: incremented.minor,
            patch: incremented.patch,
            prerelease,
            build_metadata: None,
        };
        proof {
            assert(r@.prerelease =~= default_prerelease.deep_view().push(digits_of(height as nat)));
        }
        r
    }

    /// Derive the version for a commit `height` steps past a pre-release tag.
    pub fn with_prerelease_height(&self, height: u32) -> (r: Self)
        ensures
            r@ == spec_with_prerelease_height(self@, height as nat),
    {
        if height == 0 {
            return self.clone();
        }
        let mut prerelease = clone_idents(&self.prerelease);
        let mut height_ident = String::new();
        push_u32(&mut height_ident, height);
        prerelease.push(height_ident);
        let r = Version {
            major: self.major,
            minor: self.minor,
            patch: self.patch,
            prerelease,
            build_metadata: None,
        };
        proof {
            assert(r@.prerelease =~= self@.prerelease.push(digits_of(height as nat)));
        }
        r
    }

    /// Raise this version to the configured floor, or keep it when it
    /// already satisfies the floor.
    pub fn apply_minimum(&self, minimum: &MajorMinor, default_prerelease: &Vec<String>) -> (r: Self)
        ensures
            r@ == spec_apply_minimum(self@, *minimum, default_prerelease.deep_view()),
    {
        if self.major > minimum.major {
            return self.clone();
        }
        if self.major == minimum.major && self.minor >= minimum.minor {
            return self.clone();
        }
        Version {
            major: minimum.major,
            minor: minimum.minor,
            patch: 0,
            prerelease: clone_idents(default_prerelease),
            build_metadata: None,
        }
    }

    /// Replace the build metadata with the merge of a tag's metadata and the
    /// configured metadata.
    pub fn with_merged_build_metadata(
        &self,
        tag_metadata: Option<&str>,
        config_metadata: Option<&str>,
    ) -> (r: Self)
        ensures
            r@ == (VersionView {
                build: spec_merged_build(opt_str_view(tag_metadata), opt_str_view(config_metadata)),
                ..self@
            }),
    {
        let merged: Option<String> = match (tag_metadata, config_metadata) {
            (None, None) => None,
            (Some(t), None) => Some(t.to_owned()),
            (None, Some(c)) => Some(c.to_owned()),
            (Some(t), Some(c)) => {
                proof {
                    reveal_strlit(".");
                }
                let joined = t.to_owned().concat(".").concat(c);
                proof {
                    assert((".")@ =~= seq!['.']);
                    assert(joined@ =~= t@ + seq!['.'] + c@);
                }
                Some(joined)
            },
        };
        Version {
            major: self.major,
            minor: self.minor,
            patch: self.patch,
            prerelease: clone_idents(&self.prerelease),
            build_metadata: merged,
        }
    }

    /// Add a height directly to the patch number, switching to the default
    /// pre-release identifiers when the height is positive.
    pub fn with_height(
        &self,
        height: u32,
        _auto_increment: &VersionPart,
        default_prerelease: &Vec<String>,
    ) -> (r: Self)
        requires
            self.patch + height <= u32::MAX,
        ensures
            r@ == (VersionView {
                patch: (self@.patch + height) as u32,
                prerelease: if height > 0 {
                    default_prerelease.deep_view()
                } else {
                    self@.prerelease
                },
                ..self@
            }),
    {
        Version {
            major: self.major,
            minor: self.minor,
            patch: self.patch + height,
            prerelease: if height > 0 {
                clone_idents(default_prerelease)
            } else {
                clone_idents(&self.prerelease)
            },
            build_metadata: clone_build(&self.build_metadata),
        }
    }

    /// Replace the build metadata.
    pub fn with_build_metadata(&self, build_metadata: &str) -> (r: Self)
        ensures
            r@ == (VersionView { build: Some(build_metadata@), ..self@ }),
    {
        Version {
            major: self.major,
            minor: self.minor,
            patch: self.patch,
            prerelease: clone_idents(&self.prerelease),
            build_metadata: Some(build_metadata.to_owned()),
        }
    }

    /// The fallback version `0.0.0` carrying the default pre-release
    /// identifiers.
    pub fn default(default_prerelease: &Vec<String>) -> (r: Self)
        ensures
            r@ == spec_default_version(default_prerelease.deep_view()),
    {
        Version {
            major: 0,
            minor: 0,
            patch: 0,
            prerelease: clone_idents(default_prerelease),
            build_metadata: None,
        }
    }

    /// The canonical textual form of this version.
    pub fn render(&self) -> (r: String)
        ensures
            r@ == spec_render(self@),
    {
        proof {
            reveal_strlit(".");
            reveal_strlit("-");
            reveal_strlit("+");
        }
        let mut s = String::new();
        push_u32(&mut s, self.major);
        s.append(".");
        assert((".")@ =~= seq!['.']);
        push_u32(&mut s, self.minor);
        s.append(".");
        push_u32(&mut s, self.patch);
        let ghost head = s@;
        if self.prerelease.len() > 0 {
            s.append("-");
            assert(("-")@ =~= seq!['-']);
            let ghost pre = self@.prerelease;
            let mut k: usize = 0;
            while k < self.prerelease.len()
                invariant
                    0 <= k <= self.prerelease.len(),
                    pre == self@.prerelease,
                    pre.len() == self.prerelease.len(),
                    k == 0 ==> s@ == head + seq!['-'],
                    k > 0 ==> s@ == head + seq!['-'] + join(pre.take(k as int), '.'),
                decreases self.prerelease.len() - k,
            {
                proof {
                    reveal_strlit(".");
                }
                assert((".")@ =~= seq!['.']);
                if k > 0 {
                    s.append(".");
                }
                s.append(self.prerelease[k].as_str());
                proof {
                    assert(pre[k as int] == self.prerelease@[k as int]@);
                    if k == 0 {
                        assert(join(pre.take(1), '.') == pre[0]);
                    } else {
                        assert(pre.take(k as int).push(pre[k as int]) =~= pre.take(k + 1));
                        lemma_join_push(pre.take(k as int), pre[k as int], '.');
                        assert(head + seq!['-'] + join(pre.take(k as int), '.') + seq!['.'] + pre[k as int]
                            =~= head + seq!['-'] + join(pre.take(k + 1), '.'));
                    }
                }
                k = k + 1;
            }
            proof {
                assert(pre.take(pre.len() as int) =~= pre);
            }
        }
        match &self.build_metadata {
            Some(b) => {
                s.append("+");
                assert(("+")@ =~= seq!['+']);
                s.append(b.as_str());
            },
            None => {},
        }
        proof {
            assert(s@ =~= spec_render(self@));
        }
        s
    }
}

} // verus!
