//! Version precedence: the strict ordering over
//! `(major, minor, patch, prerelease)`.  Build metadata never participates.

use vstd::prelude::*;

use crate::text::{
    is_digit, is_digit_seq, lemma_num_val_front, lemma_num_val_lower, lemma_num_val_upper,
    lemma_pow10_mono, num_val, pow10, valid_pre_ident,
};
use crate::version::{Version, VersionView};

verus! {

/// Lexicographic order on character sequences by code point, shorter prefix
/// first.
pub open spec fn lex_lt(p: Seq<char>, q: Seq<char>) -> bool
    decreases p.len() + q.len(),
{
    if q.len() == 0 {
        false
    } else if p.len() == 0 {
        true
    } else if p[0] != q[0] {
        (p[0] as int) < (q[0] as int)
    } else {
        lex_lt(p.skip(1), q.skip(1))
    }
}

/// Order on single pre-release identifiers: purely numeric identifiers
/// compare by value and rank below alphanumeric ones, which compare
/// lexically.
pub open spec fn ident_lt(p: Seq<char>, q: Seq<char>) -> bool {
    if is_digit_seq(p) && is_digit_seq(q) {
        num_val(p) < num_val(q)
    } else if is_digit_seq(p) {
        true
    } else if is_digit_seq(q) {
        false
    } else {
        lex_lt(p, q)
    }
}

/// Order on pre-release identifier lists: identifier by identifier from the
/// left, a strict prefix ranking below its extensions.
pub open spec fn pre_lt(x: Seq<Seq<char>>, y: Seq<Seq<char>>) -> bool
    decreases x.len(),
{
    if y.len() == 0 {
        false
    } else if x.len() == 0 {
        true
    } else if ident_lt(x[0], y[0]) {
        true
    } else if ident_lt(y[0], x[0]) {
        false
    } else {
        pre_lt(x.skip(1), y.skip(1))
    }
}

/// Version precedence: numeric triple first; among equal triples a
/// pre-release ranks below the release, and two pre-releases compare by
/// their identifier lists.
pub open spec fn spec_version_lt(a: VersionView, b: VersionView) -> bool {
    if a.major != b.major {
        a.major < b.major
    } else if a.minor != b.minor {
        a.minor < b.minor
    } else if a.patch != b.patch {
        a.patch < b.patch
    } else if a.prerelease.len() == 0 {
        false
    } else if b.prerelease.len() == 0 {
        true
    } else {
        pre_lt(a.prerelease, b.prerelease)
    }
}

/// Every identifier of the list is a valid pre-release identifier.
pub open spec fn all_valid_idents(x: Seq<Seq<char>>) -> bool {
    forall|i: int| 0 <= i < x.len() ==> valid_pre_ident(#[trigger] x[i])
}

/// For equally long digit sequences, numeric order is lexicographic order.
proof fn lemma_num_val_lex(p: Seq<char>, q: Seq<char>)
    requires
        is_digit_seq(p),
        is_digit_seq(q),
        p.len() == q.len(),
    ensures
        (num_val(p) < num_val(q)) == lex_lt(p, q),
    decreases p.len(),
{
    if p.len() > 0 {
        lemma_num_val_front(p);
        lemma_num_val_front(q);
        let w = pow10((p.len() - 1) as nat);
        let dp = crate::text::digit_val(p[0]);
        let dq = crate::text::digit_val(q[0]);
        assert(is_digit_seq(p.skip(1)) && is_digit_seq(q.skip(1))) by {
            assert(forall|i: int| 0 <= i < p.skip(1).len() ==> p.skip(1)[i] == p[i + 1]);
            assert(forall|i: int| 0 <= i < q.skip(1).len() ==> q.skip(1)[i] == q[i + 1]);
        }
        lemma_num_val_upper(p.skip(1));
        lemma_num_val_upper(q.skip(1));
        assert(is_digit(p[0]) && is_digit(q[0]));
        if p[0] != q[0] {
            if dp < dq {
                assert(dp * w + w <= dq * w) by (nonlinear_arith)
                    requires
                        dp < dq,
                        w >= 1,
                ;
            } else {
                assert(dq * w + w <= dp * w) by (nonlinear_arith)
                    requires
                        dq < dp,
                        w >= 1,
                ;
            }
        } else {
            lemma_num_val_lex(p.skip(1), q.skip(1));
        }
    }
}

/// For canonical digit sequences (no leading zero), numeric order is length
/// order, then lexicographic order.
proof fn lemma_num_val_canonical(p: Seq<char>, q: Seq<char>)
    requires
        is_digit_seq(p),
        is_digit_seq(q),
        p.len() > 0,
        q.len() > 0,
        p[0] == '0' ==> p.len() == 1,
        q[0] == '0' ==> q.len() == 1,
    ensures
        (num_val(p) < num_val(q)) == (p.len() < q.len() || (p.len() == q.len() && lex_lt(p, q))),
{
    if p.len() < q.len() {
        lemma_num_val_upper(p);
        lemma_num_val_lower(q);
        lemma_pow10_mono(p.len(), (q.len() - 1) as nat);
    } else if p.len() > q.len() {
        lemma_num_val_upper(q);
        lemma_num_val_lower(p);
        lemma_pow10_mono(q.len(), (p.len() - 1) as nat);
    } else {
        lemma_num_val_lex(p, q);
    }
}

/// Two identifiers neither of which precedes the other.
pub open spec fn ident_equiv(p: Seq<char>, q: Seq<char>) -> bool {
    !ident_lt(p, q) && !ident_lt(q, p)
}

/// `lex_lt` is asymmetric, and sequences unordered by it are equal.
proof fn lemma_lex_lt_strict(p: Seq<char>, q: Seq<char>)
    ensures
        lex_lt(p, q) ==> !lex_lt(q, p),
        !lex_lt(p, q) && !lex_lt(q, p) ==> p == q,
    decreases p.len() + q.len(),
{
    if p.len() > 0 && q.len() > 0 {
        lemma_lex_lt_strict(p.skip(1), q.skip(1));
        if !lex_lt(p, q) && !lex_lt(q, p) {
            assert(p[0] == q[0]);
            assert(p.skip(1) == q.skip(1));
            assert(p =~= q) by {
                assert(forall|i: int| 1 <= i < p.len() ==> p[i] == p.skip(1)[i - 1]);
                assert(forall|i: int| 1 <= i < q.len() ==> q[i] == q.skip(1)[i - 1]);
            }
        }
    }
}

proof fn lemma_lex_lt_trans(p: Seq<char>, q: Seq<char>, r: Seq<char>)
    requires
        lex_lt(p, q),
        lex_lt(q, r),
    ensures
        lex_lt(p, r),
    decreases p.len() + q.len() + r.len(),
{
    if p.len() > 0 {
        if p[0] == q[0] && q[0] == r[0] {
            lemma_lex_lt_trans(p.skip(1), q.skip(1), r.skip(1));
        }
    }
}

/// The identifier order behaves as a strict weak order: it is asymmetric and
/// transitive, and its incomparability is transitive and compatible with it.
proof fn lemma_ident_order(p: Seq<char>, q: Seq<char>, r: Seq<char>)
    ensures
        ident_lt(p, q) ==> !ident_lt(q, p),
        ident_lt(p, q) && ident_lt(q, r) ==> ident_lt(p, r),
        ident_lt(p, q) && ident_equiv(q, r) ==> ident_lt(p, r),
        ident_equiv(p, q) && ident_lt(q, r) ==> ident_lt(p, r),
        ident_equiv(p, q) && ident_equiv(q, r) ==> ident_equiv(p, r),
{
    lemma_lex_lt_strict(p, q);
    lemma_lex_lt_strict(q, r);
    lemma_lex_lt_strict(p, r);
    if lex_lt(p, q) && lex_lt(q, r) {
        lemma_lex_lt_trans(p, q, r);
    }
}

/// The identifier-list order is asymmetric.
proof fn lemma_pre_lt_asym(x: Seq<Seq<char>>, y: Seq<Seq<char>>)
    requires
        pre_lt(x, y),
    ensures
        !pre_lt(y, x),
    decreases x.len() + y.len(),
{
    if x.len() > 0 && y.len() > 0 {
        lemma_ident_order(x[0], y[0], y[0]);
        lemma_ident_order(y[0], x[0], x[0]);
        if !ident_lt(x[0], y[0]) && !ident_lt(y[0], x[0]) {
            lemma_pre_lt_asym(x.skip(1), y.skip(1));
        }
    }
}

/// The identifier-list order is transitive.
proof fn lemma_pre_lt_trans(x: Seq<Seq<char>>, y: Seq<Seq<char>>, z: Seq<Seq<char>>)
    requires
        pre_lt(x, y),
        pre_lt(y, z),
    ensures
        pre_lt(x, z),
    decreases x.len() + y.len() + z.len(),
{
    if x.len() > 0 {
        lemma_ident_order(x[0], y[0], z[0]);
        lemma_ident_order(z[0], y[0], x[0]);
        lemma_ident_order(y[0], x[0], z[0]);
        lemma_ident_order(y[0], z[0], x[0]);
        if ident_equiv(x[0], y[0]) && ident_equiv(y[0], z[0]) {
            lemma_pre_lt_trans(x.skip(1), y.skip(1), z.skip(1));
        }
    }
}

proof fn lemma_pre_lt_irrefl(x: Seq<Seq<char>>)
    ensures
        !pre_lt(x, x),
    decreases x.len(),
{
    if x.len() > 0 {
        lemma_ident_order(x[0], x[0], x[0]);
        lemma_pre_lt_irrefl(x.skip(1));
    }
}

/// No version precedes itself.
pub proof fn lemma_version_lt_irrefl(a: VersionView)
    ensures
        !spec_version_lt(a, a),
{
    lemma_pre_lt_irrefl(a.prerelease);
}

/// Version precedence is asymmetric: no two versions precede each other.
pub proof fn lemma_version_lt_asym(a: VersionView, b: VersionView)
    requires
        spec_version_lt(a, b),
    ensures
        !spec_version_lt(b, a),
{
    if a.major == b.major && a.minor == b.minor && a.patch == b.patch {
        if a.prerelease.len() > 0 && b.prerelease.len() > 0 {
            lemma_pre_lt_asym(a.prerelease, b.prerelease);
        }
    }
}

/// Version precedence is transitive.
pub proof fn lemma_version_lt_trans(a: VersionView, b: VersionView, c: VersionView)
    requires
        spec_version_lt(a, b),
        spec_version_lt(b, c),
    ensures
        spec_version_lt(a, c),
{
    if a.major == c.major && a.minor == c.minor && a.patch == c.patch {
        if a.prerelease.len() > 0 && b.prerelease.len() > 0 && c.prerelease.len() > 0 {
            lemma_pre_lt_trans(a.prerelease, b.prerelease, c.prerelease);
        }
    }
}

/// Whether the whole string is made of digits.
fn is_digit_str(s: &String) -> (r: bool)
    ensures
        r == is_digit_seq(s@),
{
    let n = s.as_str().unicode_len();
    let mut i: usize = 0;
    while i < n
        invariant
            n == s@.len(),
            i <= n,
            forall|j: int| 0 <= j < i ==> is_digit(#[trigger] s@[j]),
        decreases n - i,
    {
        let c = s.as_str().get_char(i);
        if c < '0' || c > '9' {
            assert(!is_digit(s@[i as int]));
            return false;
        }
        i = i + 1;
    }
    true
}

/// Lexicographic comparison of two strings.
fn lex_lt_str(p: &String, q: &String) -> (r: bool)
    ensures
        r == lex_lt(p@, q@),
{
    let np = p.as_str().unicode_len();
    let nq = q.as_str().unicode_len();
    let min = if np < nq { np } else { nq };
    proof {
        assert(p@.skip(0) =~= p@);
        assert(q@.skip(0) =~= q@);
    }
    let mut i: usize = 0;
    while i < min
        invariant
            np == p@.len(),
            nq == q@.len(),
            min == if np < nq { np } else { nq },
            i <= min,
            lex_lt(p@, q@) == lex_lt(p@.skip(i as int), q@.skip(i as int)),
        decreases min - i,
    {
        let cp = p.as_str().get_char(i);
        let cq = q.as_str().get_char(i);
        proof {
            assert(p@.skip(i as int)[0] == p@[i as int]);
            assert(q@.skip(i as int)[0] == q@[i as int]);
        }
        if cp != cq {
            return (cp as u32) < (cq as u32);
        }
        proof {
            assert(p@.skip(i as int).skip(1) =~= p@.skip(i + 1));
            assert(q@.skip(i as int).skip(1) =~= q@.skip(i + 1));
        }
        i = i + 1;
    }
    proof {
        if np < nq {
            assert(p@.skip(i as int).len() == 0);
            assert(q@.skip(i as int).len() > 0);
        } else {
            assert(q@.skip(i as int).len() == 0);
        }
    }
    np < nq
}

/// Comparison of two pre-release identifiers.
fn ident_lt_str(p: &String, q: &String) -> (r: bool)
    requires
        valid_pre_ident(p@),
        valid_pre_ident(q@),
    ensures
        r == ident_lt(p@, q@),
{
    let pd = is_digit_str(p);
    let qd = is_digit_str(q);
    if pd && qd {
        let np = p.as_str().unicode_len();
        let nq = q.as_str().unicode_len();
        proof {
            lemma_num_val_canonical(p@, q@);
        }
        if np < nq {
            true
        } else if np > nq {
            false
        } else {
            lex_lt_str(p, q)
        }
    } else if pd {
        true
    } else if qd {
        false
    } else {
        lex_lt_str(p, q)
    }
}

/// Comparison of two pre-release identifier lists.
fn pre_lt_vec(x: &Vec<String>, y: &Vec<String>) -> (r: bool)
    requires
        all_valid_idents(x.deep_view()),
        all_valid_idents(y.deep_view()),
    ensures
        r == pre_lt(x.deep_view(), y.deep_view()),
{
    let nx = x.len();
    let ny = y.len();
    let min = if nx < ny { nx } else { ny };
    let ghost xv = x.deep_view();
    let ghost yv = y.deep_view();
    proof {
        assert(xv.skip(0) =~= xv);
        assert(yv.skip(0) =~= yv);
    }
    let mut k: usize = 0;
    while k < min
        invariant
            xv == x.deep_view(),
            yv == y.deep_view(),
            nx == xv.len(),
            ny == yv.len(),
            nx == x@.len(),
            ny == y@.len(),
            min == if nx < ny { nx } else { ny },
            k <= min,
            all_valid_idents(xv),
            all_valid_idents(yv),
            pre_lt(xv, yv) == pre_lt(xv.skip(k as int), yv.skip(k as int)),
        decreases min - k,
    {
        proof {
            assert(xv.skip(k as int)[0] == xv[k as int]);
            assert(yv.skip(k as int)[0] == yv[k as int]);
            assert(x@[k as int]@ == xv[k as int]);
            assert(y@[k as int]@ == yv[k as int]);
        }
        if ident_lt_str(&x[k], &y[k]) {
            return true;
        }
        if ident_lt_str(&y[k], &x[k]) {
            return false;
        }
        proof {
            assert(xv.skip(k as int).skip(1) =~= xv.skip(k + 1));
            assert(yv.skip(k as int).skip(1) =~= yv.skip(k + 1));
        }
        k = k + 1;
    }
    proof {
        if nx < ny {
            assert(xv.skip(k as int).len() == 0);
            assert(yv.skip(k as int).len() > 0);
        } else {
            assert(yv.skip(k as int).len() == 0);
        }
    }
    nx < ny
}

impl Version {
    /// Whether this version strictly precedes the other.  Both versions must
    /// be well-formed, as every parsed or synthesized version is.
    pub fn precedes(&self, other: &Version) -> (r: bool)
        requires
            self@.wf(),
            other@.wf(),
        ensures
            r == spec_version_lt(self@, other@),
    {
        if self.major != other.major {
            return self.major < other.major;
        }
        if self.minor != other.minor {
            return self.minor < other.minor;
        }
        if self.patch != other.patch {
            return self.patch < other.patch;
        }
        if self.prerelease.len() == 0 {
            return false;
        }
        if other.prerelease.len() == 0 {
            return true;
        }
        pre_lt_vec(&self.prerelease, &other.prerelease)
    }
}

} // verus!
