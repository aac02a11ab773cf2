//! Policy configuration for a version calculation.

use vstd::prelude::*;
use vstd::string::*;

use crate::text::{is_digit, is_digit_seq, num_val, split_on};

verus! {

/// Logging verbosity levels recognized by the configuration.
#[derive(Debug, Clone, Copy, PartialEq, Eq, Structural)]
pub enum Verbosity {
    Quiet,
    Normal,
    Verbose,
    Debug,
    Trace,
}

/// The version part that the auto-increment policy bumps when moving past a
/// release tag.
#[derive(Debug, Clone, Copy, PartialEq, Eq, Structural)]
pub enum VersionPart {
    Major,
    Minor,
    Patch,
}

/// A lower bound on the `major.minor` part of a calculated version.
#[derive(Debug, Clone, Copy, PartialEq, Eq, Structural)]
pub struct MajorMinor {
    pub major: u32,
    pub minor: u32,
}

/// Case-insensitive match of an ASCII character against a lowercase letter.
pub open spec fn char_ci_eq(c: char, l: char) -> bool {
    c == l || c as int == l as int - 32
}

/// Case-insensitive match of a character sequence against a lowercase word.
pub open spec fn str_ci_eq(s: Seq<char>, w: Seq<char>) -> bool {
    s.len() == w.len() && forall|i: int| 0 <= i < s.len() ==> char_ci_eq(#[trigger] s[i], w[i])
}

/// Whether `s` matches the lowercase ASCII word `w` up to case.
fn str_ci_is(s: &str, w: &str) -> (r: bool)
    ensures
        r == str_ci_eq(s@, w@),
{
    let ns = s.unicode_len();
    let nw = w.unicode_len();
    if ns != nw {
        return false;
    }
    let mut i: usize = 0;
    while i < ns
        invariant
            ns == s@.len(),
            ns == w@.len(),
            i <= ns,
            forall|j: int| 0 <= j < i ==> char_ci_eq(#[trigger] s@[j], w@[j]),
        decreases ns - i,
    {
        let c = s.get_char(i);
        let l = w.get_char(i);
        if !(c == l || (c as u32) + 32 == (l as u32)) {
            assert(!char_ci_eq(s@[i as int], w@[i as int]));
            return false;
        }
        i = i + 1;
    }
    true
}

/// A digit-only rendering of a `u32`, leading zeros allowed.
pub open spec fn relaxed_number(s: Seq<char>) -> bool {
    s.len() > 0 && is_digit_seq(s) && num_val(s) <= u32::MAX
}

/// Value of a digit string, leading zeros allowed.
pub(crate) fn parse_u32_relaxed(s: &str) -> (r: Option<u32>)
    ensures
        match r {
            Some(n) => relaxed_number(s@) && n == num_val(s@),
            None => !relaxed_number(s@),
        },
{
    let n = s.unicode_len();
    if n == 0 {
        return None;
    }
    let mut acc: u32 = 0;
    let mut i: usize = 0;
    while i < n
        invariant
            n == s@.len(),
            0 < n,
            i <= n,
            forall|j: int| 0 <= j < i ==> is_digit(#[trigger] s@[j]),
            acc == num_val(s@.take(i as int)),
        decreases n - i,
    {
        let c = s.get_char(i);
        if c < '0' || c > '9' {
            assert(!is_digit(s@[i as int]));
            return None;
        }
        let d: u32 = (c as u32) - 48;
        proof {
            assert(d == crate::text::digit_val(c));
        }
        if acc > (u32::MAX - d) / 10 {
            proof {
                assert(acc * 10 + d > u32::MAX) by (nonlinear_arith)
                    requires
                        acc > (u32::MAX - d) / 10,
                        d < 10,
                ;
                assert(s@.take(i + 1).drop_last() =~= s@.take(i as int));
                assert(s@.take(i + 1).last() == s@[i as int]);
                assert(num_val(s@.take(i + 1)) > u32::MAX);
                if is_digit_seq(s@) {
                    crate::text::lemma_num_val_prefix_le(s@, i + 1);
                }
            }
            return None;
        }
        proof {
            assert(acc * 10 + d <= u32::MAX) by (nonlinear_arith)
                requires
                    acc <= (u32::MAX - d) / 10,
                    d < 10,
            ;
            assert(s@.take(i + 1).drop_last() =~= s@.take(i as int));
            assert(s@.take(i + 1).last() == s@[i as int]);
        }
        acc = acc * 10 + d;
        i = i + 1;
    }
    proof {
        assert(s@.take(n as int) =~= s@);
    }
    Some(acc)
}

/// The `major.minor` floor denoted by a string: exactly two dot-separated
/// digit fields.
pub open spec fn spec_parse_major_minor(s: Seq<char>) -> Option<MajorMinor> {
    let parts = split_on(s, '.');
    if parts.len() == 2 && relaxed_number(parts[0]) && relaxed_number(parts[1]) {
        Some(MajorMinor { major: num_val(parts[0]) as u32, minor: num_val(parts[1]) as u32 })
    } else {
        None
    }
}

impl MajorMinor {
    /// Create a new major.minor constraint.
    pub fn new(major: u32, minor: u32) -> (r: Self)
        ensures
            r.major == major,
            r.minor == minor,
    {
        MajorMinor { major, minor }
    }

    /// Parse a `major.minor` floor from text such as `1.2`.  The error
    /// message names the part that did not parse.
    pub fn parse(s: &str) -> (r: Result<Self, String>)
        ensures
            match r {
                Ok(mm) => spec_parse_major_minor(s@) == Some(mm),
                Err(_) => spec_parse_major_minor(s@) is None,
            },
    {
        let parts = crate::parse::split_dots(s);
        if parts.len() != 2 {
            let mut msg = String::new();
            msg.append("Expected format 'major.minor', got: ");
            msg.append(s);
            return Err(msg);
        }
        let major = match parse_u32_relaxed(parts[0].as_str()) {
            Some(m) => m,
            None => {
                let mut msg = String::new();
                msg.append("Invalid major version: ");
                msg.append(parts[0].as_str());
                return Err(msg);
            },
        };
        let minor = match parse_u32_relaxed(parts[1].as_str()) {
            Some(m) => m,
            None => {
                let mut msg = String::new();
                msg.append("Invalid minor version: ");
                msg.append(parts[1].as_str());
                return Err(msg);
            },
        };
        Ok(MajorMinor { major, minor })
    }
}

impl VersionPart {
    /// Parse an auto-increment part name, case-insensitively.
    pub fn parse(s: &str) -> (r: Result<Self, String>)
        ensures
            match r {
                Ok(p) => match p {
                    VersionPart::Major => str_ci_eq(s@, "major"@),
                    VersionPart::Minor => str_ci_eq(s@, "minor"@),
                    VersionPart::Patch => str_ci_eq(s@, "patch"@),
                },
                Err(_) => !str_ci_eq(s@, "major"@) && !str_ci_eq(s@, "minor"@) && !str_ci_eq(
                    s@,
                    "patch"@,
                ),
            },
    {
        if str_ci_is(s, "major") {
            Ok(VersionPart::Major)
        } else if str_ci_is(s, "minor") {
            Ok(VersionPart::Minor)
        } else if str_ci_is(s, "patch") {
            Ok(VersionPart::Patch)
        } else {
            let mut msg = String::new();
            msg.append("Invalid version part: ");
            msg.append(s);
            Err(msg)
        }
    }
}

impl Verbosity {
    /// Parse a verbosity level name, case-insensitively.  `info` is accepted
    /// as a synonym for `verbose`.
    pub fn parse(s: &str) -> (r: Result<Self, String>)
        ensures
            match r {
                Ok(v) => match v {
                    Verbosity::Quiet => str_ci_eq(s@, "quiet"@),
                    Verbosity::Normal => str_ci_eq(s@, "normal"@),
                    Verbosity::Verbose => str_ci_eq(s@, "verbose"@) || str_ci_eq(s@, "info"@),
                    Verbosity::Debug => str_ci_eq(s@, "debug"@),
                    Verbosity::Trace => str_ci_eq(s@, "trace"@),
                },
                Err(_) => !str_ci_eq(s@, "quiet"@) && !str_ci_eq(s@, "normal"@) && !str_ci_eq(
                    s@,
                    "verbose"@,
                ) && !str_ci_eq(s@, "info"@) && !str_ci_eq(s@, "debug"@) && !str_ci_eq(
                    s@,
                    "trace"@,
                ),
            },
    {
        if str_ci_is(s, "quiet") {
            Ok(Verbosity::Quiet)
        } else if str_ci_is(s, "normal") {
            Ok(Verbosity::Normal)
        } else if str_ci_is(s, "verbose") || str_ci_is(s, "info") {
            Ok(Verbosity::Verbose)
        } else if str_ci_is(s, "debug") {
            Ok(Verbosity::Debug)
        } else if str_ci_is(s, "trace") {
            Ok(Verbosity::Trace)
        } else {
            let mut msg = String::new();
            msg.append("Invalid verbosity level: ");
            msg.append(s);
            Err(msg)
        }
    }
}

/// The policy a calculation runs under.
#[derive(Debug)]
pub struct Config {
    pub work_dir: String,
    pub tag_prefix: String,
    pub auto_increment: VersionPart,
    pub minimum_major_minor: Option<MajorMinor>,
    pub default_prerelease_identifiers: Vec<String>,
    pub build_metadata: Option<String>,
    pub ignore_height: bool,
    pub verbosity: Verbosity,
}

/// The mathematical model of a [`Config`].
pub ghost struct ConfigView {
    pub work_dir: Seq<char>,
    pub tag_prefix: Seq<char>,
    pub auto_increment: VersionPart,
    pub minimum_major_minor: Option<MajorMinor>,
    pub default_prerelease_identifiers: Seq<Seq<char>>,
    pub build_metadata: Option<Seq<char>>,
    pub ignore_height: bool,
    pub verbosity: Verbosity,
}

impl View for Config {
    type V = ConfigView;

    open spec fn view(&self) -> ConfigView {
        ConfigView {
            work_dir: self.work_dir@,
            tag_prefix: self.tag_prefix@,
            auto_increment: self.auto_increment,
            minimum_major_minor: self.minimum_major_minor,
            default_prerelease_identifiers: self.default_prerelease_identifiers.deep_view(),
            build_metadata: self.build_metadata.deep_view(),
            ignore_height: self.ignore_height,
            verbosity: self.verbosity,
        }
    }
}

impl Default for Config {
    /// The default policy: current directory, no tag prefix, patch
    /// auto-increment, `alpha.0` default identifiers, no floor, no metadata,
    /// height respected, normal verbosity.
    fn default() -> (r: Self)
        ensures
            r@.work_dir == "."@,
            r@.tag_prefix == Seq::<char>::empty(),
            r@.auto_increment == VersionPart::Patch,
            r@.minimum_major_minor is None,
            r@.default_prerelease_identifiers == seq!["alpha"@, "0"@],
            r@.build_metadata is None,
            !r@.ignore_height,
            r@.verbosity == Verbosity::Normal,
    {
        let mut defaults: Vec<String> = Vec::new();
        defaults.push(String::from_str("alpha"));
        defaults.push(String::from_str("0"));
        proof {
            assert(defaults.deep_view() =~= seq!["alpha"@, "0"@]);
        }
        let prefix = String::new();
        proof {
            assert(prefix@ =~= Seq::<char>::empty());
        }
        Config {
            work_dir: String::from_str("."),
            tag_prefix: prefix,
            auto_increment: VersionPart::Patch,
            minimum_major_minor: None,
            default_prerelease_identifiers: defaults,
            build_metadata: None,
            ignore_height: false,
            verbosity: Verbosity::Normal,
        }
    }
}

} // verus!
