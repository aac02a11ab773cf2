//! Parsing the textual form of a semantic version.
//!
//! The grammar is `major.minor.patch`, optionally followed by `-` and a
//! dot-separated list of pre-release identifiers, optionally followed by `+`
//! and dot-separated build metadata.  Numeric fields carry no leading zeros;
//! purely numeric pre-release identifiers carry none either.

use vstd::prelude::*;
use vstd::string::*;

use crate::text::{
    digit_val, digits_of, find_first, is_digit, is_ident_char, join, lemma_digits_of_shape,
    lemma_find_first_absent, lemma_find_first_of, lemma_join_chars, lemma_num_val_digits_of,
    lemma_split_on_concat, lemma_split_on_join, lemma_split_on_single, num_val, spec_valid_build,
    split_on, valid_build_part, valid_number, valid_pre_ident,
};
use crate::version::{spec_render, Version, VersionView};

verus! {

/// The version denoted by a character sequence, or `None` when the sequence
/// does not follow the grammar.
pub open spec fn spec_parse(s: Seq<char>) -> Option<VersionView> {
    let ip = find_first(s, '+');
    if ip == -1 {
        spec_parse_core(s, None)
    } else {
        let b = s.skip(ip + 1);
        if spec_valid_build(b) {
            spec_parse_core(s.take(ip), Some(b))
        } else {
            None
        }
    }
}

/// Parse the part before any `+`: numbers plus an optional pre-release list
/// introduced by the first `-`.
pub open spec fn spec_parse_core(core: Seq<char>, build: Option<Seq<char>>) -> Option<VersionView> {
    let ih = find_first(core, '-');
    if ih == -1 {
        spec_parse_nums(core, Seq::empty(), build)
    } else {
        let parts = split_on(core.skip(ih + 1), '.');
        if forall|i: int| 0 <= i < parts.len() ==> valid_pre_ident(#[trigger] parts[i]) {
            spec_parse_nums(core.take(ih), parts, build)
        } else {
            None
        }
    }
}

/// Parse `major.minor.patch`: exactly three valid numeric fields.
pub open spec fn spec_parse_nums(
    nums: Seq<char>,
    pre: Seq<Seq<char>>,
    build: Option<Seq<char>>,
) -> Option<VersionView> {
    let parts = split_on(nums, '.');
    if parts.len() == 3 && valid_number(parts[0]) && valid_number(parts[1]) && valid_number(
        parts[2],
    ) {
        Some(
            VersionView {
                major: num_val(parts[0]) as u32,
                minor: num_val(parts[1]) as u32,
                patch: num_val(parts[2]) as u32,
                prerelease: pre,
                build,
            },
        )
    } else {
        None
    }
}

/// Rendering a well-formed version and parsing the text back recovers the
/// version exactly, build metadata included.
#[verifier::rlimit(50)]
pub proof fn lemma_render_parse_round_trip(v: VersionView)
    requires
        v.wf(),
    ensures
        spec_parse(spec_render(v)) == Some(v),
{
    let dma = digits_of(v.major as nat);
    let dmi = digits_of(v.minor as nat);
    let dpa = digits_of(v.patch as nat);
    lemma_digits_of_shape(v.major as nat);
    lemma_digits_of_shape(v.minor as nat);
    lemma_digits_of_shape(v.patch as nat);
    lemma_num_val_digits_of(v.major as nat);
    lemma_num_val_digits_of(v.minor as nat);
    lemma_num_val_digits_of(v.patch as nat);
    let nums = dma + seq!['.'] + dmi + seq!['.'] + dpa;
    let pre_part: Seq<char> = if v.prerelease.len() > 0 {
        seq!['-'] + join(v.prerelease, '.')
    } else {
        Seq::empty()
    };
    let core = nums + pre_part;
    let s = spec_render(v);

    // every character of the numeric part is a digit or a dot
    assert forall|i: int| 0 <= i < nums.len() implies is_digit(#[trigger] nums[i]) || nums[i]
        == '.' by {}

    // identifier characters exclude the separators
    assert(forall|c: char| is_ident_char(c) ==> c != '+' && c != '.');
    assert forall|i: int, j: int|
        0 <= i < v.prerelease.len() && 0 <= j < v.prerelease[i].len() implies #[trigger] v.prerelease[i][j]
        != '+' by {
        assert(valid_pre_ident(v.prerelease[i]));
        assert(is_ident_char(v.prerelease[i][j]));
    }
    if v.prerelease.len() > 0 {
        lemma_join_chars(v.prerelease, '.', '+');
    }
    assert forall|i: int| 0 <= i < core.len() implies #[trigger] core[i] != '+' by {
        if i >= nums.len() {
            assert(core[i] == pre_part[i - nums.len()]);
        }
    }

    // locating the '+' that introduces build metadata
    match v.build {
        None => {
            assert(s =~= core);
            lemma_find_first_absent(s, '+');
        },
        Some(b) => {
            assert(s =~= core + seq!['+'] + b);
            assert(s[core.len() as int] == '+');
            lemma_find_first_of(s, '+', core.len() as int);
            assert(s.take(core.len() as int) =~= core);
            assert(s.skip(core.len() + 1int) =~= b);
            assert(spec_valid_build(b));
        },
    }
    assert(spec_parse(s) == spec_parse_core(core, v.build));

    // locating the '-' that introduces the pre-release identifiers
    assert forall|i: int| 0 <= i < nums.len() implies #[trigger] nums[i] != '-' by {}
    if v.prerelease.len() == 0 {
        assert(core =~= nums);
        lemma_find_first_absent(core, '-');
        assert(spec_parse_core(core, v.build) == spec_parse_nums(core, Seq::empty(), v.build));
    } else {
        let joined = join(v.prerelease, '.');
        assert(core =~= nums + seq!['-'] + joined);
        assert(core[nums.len() as int] == '-');
        lemma_find_first_of(core, '-', nums.len() as int);
        assert(core.take(nums.len() as int) =~= nums);
        assert(core.skip(nums.len() + 1int) =~= joined);
        assert forall|i: int, j: int|
            0 <= i < v.prerelease.len() && 0 <= j < v.prerelease[i].len() implies #[trigger] v.prerelease[i][j]
            != '.' by {
            assert(valid_pre_ident(v.prerelease[i]));
            assert(is_ident_char(v.prerelease[i][j]));
        }
        lemma_split_on_join(v.prerelease, '.');
        assert(spec_parse_core(core, v.build) == spec_parse_nums(nums, v.prerelease, v.build));
    }

    // the numeric part splits into exactly the three digit renderings
    let rest1 = dmi + seq!['.'] + dpa;
    assert(nums =~= dma + seq!['.'] + rest1);
    lemma_split_on_concat(dma, rest1, '.');
    lemma_split_on_concat(dmi, dpa, '.');
    lemma_split_on_single(dpa, '.');
    assert(split_on(nums, '.') =~= seq![dma, dmi, dpa]);
    assert(valid_number(dma));
    assert(valid_number(dmi));
    assert(valid_number(dpa));
    let parsed = spec_parse_nums(nums, v.prerelease, v.build);
    if v.prerelease.len() == 0 {
        assert(v.prerelease =~= Seq::<Seq<char>>::empty());
    }
    assert(parsed == Some(v));
}

/// Whatever parses is well-formed: its pre-release identifiers and build
/// metadata all satisfy the identifier rules.
pub proof fn lemma_spec_parse_wf(s: Seq<char>)
    requires
        spec_parse(s) is Some,
    ensures
        spec_parse(s)->Some_0.wf(),
{
    let v = spec_parse(s)->Some_0;
    if v.prerelease.len() == 0 {
        assert(forall|i: int|
            0 <= i < v.prerelease.len() ==> valid_pre_ident(#[trigger] v.prerelease[i]));
    }
}

/// No two well-formed versions render to the same text.
pub proof fn lemma_render_injective(a: VersionView, b: VersionView)
    requires
        a.wf(),
        b.wf(),
        spec_render(a) == spec_render(b),
    ensures
        a == b,
{
    lemma_render_parse_round_trip(a);
    lemma_render_parse_round_trip(b);
}

/// Position of the first occurrence of a character in a string.
fn find_char(s: &str, c: char) -> (r: Option<usize>)
    ensures
        match r {
            Some(i) => i < s@.len() && find_first(s@, c) == i,
            None => find_first(s@, c) == -1,
        },
{
    let n = s.unicode_len();
    let mut i: usize = 0;
    while i < n
        invariant
            n == s@.len(),
            i <= n,
            forall|j: int| 0 <= j < i ==> s@[j] != c,
        decreases n - i,
    {
        if s.get_char(i) == c {
            proof {
                lemma_find_first_of(s@, c, i as int);
            }
            return Some(i);
        }
        i = i + 1;
    }
    proof {
        lemma_find_first_absent(s@, c);
    }
    None
}

/// The segments of a string between dots, in order.
pub(crate) fn split_dots(s: &str) -> (r: Vec<String>)
    ensures
        r.deep_view() == split_on(s@, '.'),
    decreases s@.len(),
{
    match find_char(s, '.') {
        None => {
            let mut v: Vec<String> = Vec::new();
            v.push(s.to_owned());
            proof {
                assert(v.deep_view() =~= split_on(s@, '.'));
            }
            v
        },
        Some(i) => {
            let n = s.unicode_len();
            let head = s.substring_char(0, i);
            let tail = s.substring_char(i + 1, n);
            proof {
                assert(tail@ =~= s@.skip(i + 1));
            }
            let mut v = split_dots(tail);
            let ghost before = v.deep_view();
            v.insert(0, head.to_owned());
            proof {
                assert(head@ =~= s@.take(i as int));
                assert forall|j: int| 0 <= j < v.deep_view().len() implies v.deep_view()[j] == (seq![
                    s@.take(i as int),
                ] + split_on(s@.skip(i + 1), '.'))[j] by {
                    if j > 0 {
                        assert(v@[j] == v@.subrange(1, v@.len() as int)[j - 1]);
                        assert(before[j - 1] == split_on(s@.skip(i + 1), '.')[j - 1]);
                    }
                }
                assert(v.deep_view() =~= seq![s@.take(i as int)] + split_on(s@.skip(i + 1), '.'));
            }
            v
        },
    }
}

/// Whether a character may appear in an identifier.
fn is_ident_char_exec(c: char) -> (r: bool)
    ensures
        r == is_ident_char(c),
{
    ('0' <= c && c <= '9') || ('A' <= c && c <= 'Z') || ('a' <= c && c <= 'z') || c == '-'
}

/// Whether a string is a valid pre-release identifier.
fn check_pre_ident(s: &String) -> (r: bool)
    ensures
        r == valid_pre_ident(s@),
{
    let n = s.as_str().unicode_len();
    if n == 0 {
        return false;
    }
    let mut all_digits = true;
    let mut i: usize = 0;
    while i < n
        invariant
            n == s@.len(),
            i <= n,
            forall|j: int| 0 <= j < i ==> is_ident_char(#[trigger] s@[j]),
            all_digits == (forall|j: int| 0 <= j < i ==> is_digit(#[trigger] s@[j])),
        decreases n - i,
    {
        let c = s.as_str().get_char(i);
        if !is_ident_char_exec(c) {
            return false;
        }
        if c < '0' || c > '9' {
            all_digits = false;
        }
        i = i + 1;
    }
    if all_digits && n > 1 && s.as_str().get_char(0) == '0' {
        return false;
    }
    true
}

/// Whether a string is a valid build-metadata segment.
fn check_build_part(s: &String) -> (r: bool)
    ensures
        r == valid_build_part(s@),
{
    let n = s.as_str().unicode_len();
    if n == 0 {
        return false;
    }
    let mut i: usize = 0;
    while i < n
        invariant
            n == s@.len(),
            i <= n,
            forall|j: int| 0 <= j < i ==> is_ident_char(#[trigger] s@[j]),
        decreases n - i,
    {
        if !is_ident_char_exec(s.as_str().get_char(i)) {
            return false;
        }
        i = i + 1;
    }
    true
}

/// Whether every segment is a valid pre-release identifier.
fn check_pre_idents(parts: &Vec<String>) -> (r: bool)
    ensures
        r == (forall|i: int|
            0 <= i < parts.deep_view().len() ==> valid_pre_ident(#[trigger] parts.deep_view()[i])),
{
    let mut i: usize = 0;
    while i < parts.len()
        invariant
            i <= parts@.len(),
            forall|j: int| 0 <= j < i ==> valid_pre_ident(#[trigger] parts.deep_view()[j]),
        decreases parts@.len() - i,
    {
        if !check_pre_ident(&parts[i]) {
            proof {
                assert(!valid_pre_ident(parts.deep_view()[i as int]));
            }
            return false;
        }
        i = i + 1;
    }
    true
}

/// Whether every segment is a valid build-metadata segment.
fn check_build_parts(parts: &Vec<String>) -> (r: bool)
    ensures
        r == (forall|i: int|
            0 <= i < parts.deep_view().len() ==> valid_build_part(#[trigger] parts.deep_view()[i])),
{
    let mut i: usize = 0;
    while i < parts.len()
        invariant
            i <= parts@.len(),
            forall|j: int| 0 <= j < i ==> valid_build_part(#[trigger] parts.deep_view()[j]),
        decreases parts@.len() - i,
    {
        if !check_build_part(&parts[i]) {
            proof {
                assert(!valid_build_part(parts.deep_view()[i as int]));
            }
            return false;
        }
        i = i + 1;
    }
    true
}

/// Value of a whole string read as a numeric version field.
fn parse_number(s: &str) -> (r: Option<u32>)
    ensures
        match r {
            Some(n) => valid_number(s@) && n == num_val(s@),
            None => !valid_number(s@),
        },
{
    let n = s.unicode_len();
    if n == 0 {
        return None;
    }
    if n > 1 && s.get_char(0) == '0' {
        return None;
    }
    let mut acc: u32 = 0;
    let mut i: usize = 0;
    while i < n
        invariant
            n == s@.len(),
            0 < n,
            i <= n,
            n > 1 ==> s@[0] != '0',
            forall|j: int| 0 <= j < i ==> is_digit(#[trigger] s@[j]),
            acc == num_val(s@.take(i as int)),
        decreases n - i,
    {
        let c = s.get_char(i);
        if c < '0' || c > '9' {
            assert(!is_digit(s@[i as int]));
            return None;
        }
        let d: u32 = (c as u32) - 48;
        proof {
            assert(d == digit_val(c));
        }
        if acc > (u32::MAX - d) / 10 {
            proof {
                assert(acc * 10 + d > u32::MAX) by (nonlinear_arith)
                    requires
                        acc > (u32::MAX - d) / 10,
                        d < 10,
                ;
                assert(s@.take(i + 1).drop_last() =~= s@.take(i as int));
                assert(s@.take(i + 1).last() == s@[i as int]);
                assert(num_val(s@.take(i + 1)) > u32::MAX);
                if crate::text::is_digit_seq(s@) {
                    crate::text::lemma_num_val_prefix_le(s@, i + 1);
                    assert(num_val(s@) > u32::MAX);
                }
            }
            return None;
        }
        proof {
            assert(acc * 10 + d <= u32::MAX) by (nonlinear_arith)
                requires
                    acc <= (u32::MAX - d) / 10,
                    d < 10,
            ;
            assert(s@.take(i + 1).drop_last() =~= s@.take(i as int));
            assert(s@.take(i + 1).last() == s@[i as int]);
        }
        acc = acc * 10 + d;
        i = i + 1;
    }
    proof {
        assert(s@.take(n as int) =~= s@);
    }
    Some(acc)
}

impl Version {
    /// Parse the canonical textual form of a version.  Returns `None` exactly
    /// when the text does not follow the semantic-version grammar.
    pub fn parse(s: &str) -> (r: Option<Version>)
        ensures
            match r {
                Some(v) => spec_parse(s@) == Some(v@),
                None => spec_parse(s@) is None,
            },
    {
        let n = s.unicode_len();
        let (core, build_opt): (&str, Option<String>) = match find_char(s, '+') {
            Some(i) => {
                let b = s.substring_char(i + 1, n).to_owned();
                proof {
                    assert(b@ =~= s@.skip(find_first(s@, '+') + 1));
                }
                (s.substring_char(0, i), Some(b))
            },
            None => (s, None),
        };
        proof {
            if find_first(s@, '+') >= 0 {
                assert(core@ =~= s@.take(find_first(s@, '+')));
            }
        }
        if let Some(b) = &build_opt {
            let bparts = split_dots(b.as_str());
            if !check_build_parts(&bparts) {
                return None;
            }
            proof {
                assert(spec_valid_build(b@));
            }
        }
        let ncore = core.unicode_len();
        let (nums, pre_vec): (&str, Vec<String>) = match find_char(core, '-') {
            Some(i) => {
                let pre_str = core.substring_char(i + 1, ncore);
                proof {
                    assert(pre_str@ =~= core@.skip(find_first(core@, '-') + 1));
                }
                let parts = split_dots(pre_str);
                if !check_pre_idents(&parts) {
                    return None;
                }
                let nums = core.substring_char(0, i);
                proof {
                    assert(nums@ =~= core@.take(find_first(core@, '-')));
                }
                (nums, parts)
            },
            None => (core, Vec::new()),
        };
        let num_parts = split_dots(nums);
        if num_parts.len() != 3 {
            return None;
        }
        let major = match parse_number(num_parts[0].as_str()) {
            Some(m) => m,
            None => {
                return None;
            },
        };
        let minor = match parse_number(num_parts[1].as_str()) {
            Some(m) => m,
            None => {
                return None;
            },
        };
        let patch = match parse_number(num_parts[2].as_str()) {
            Some(m) => m,
            None => {
                return None;
            },
        };
        let r = Version { major, minor, patch, prerelease: pre_vec, build_metadata: build_opt };
        proof {
            if pre_vec@.len() == 0 {
                assert(r@.prerelease =~= Seq::<Seq<char>>::empty());
            }
        }
        Some(r)
    }
}

} // verus!
