//! Character classes, decimal digits, and dot-separated identifier sequences:
//! the textual building blocks of a semantic version.

use vstd::prelude::*;

verus! {

/// Decimal digit characters.
pub open spec fn is_digit(c: char) -> bool {
    '0' <= c && c <= '9'
}

/// Numeric value of a digit character.
pub open spec fn digit_val(c: char) -> int {
    c as int - '0' as int
}

/// The digit character for a value below ten.
pub open spec fn digit_char(d: int) -> char {
    if d == 0 { '0' }
    else if d == 1 { '1' }
    else if d == 2 { '2' }
    else if d == 3 { '3' }
    else if d == 4 { '4' }
    else if d == 5 { '5' }
    else if d == 6 { '6' }
    else if d == 7 { '7' }
    else if d == 8 { '8' }
    else { '9' }
}

/// Shortest decimal rendering of a natural number, most significant digit first.
pub open spec fn digits_of(n: nat) -> Seq<char>
    decreases n,
{
    if n < 10 { seq![digit_char(n as int)] } else { digits_of(n / 10).push(digit_char((n % 10) as int)) }
}

/// Value of a digit sequence read as a decimal number.
pub open spec fn num_val(s: Seq<char>) -> int
    decreases s.len(),
{
    if s.len() == 0 { 0 } else { num_val(s.drop_last()) * 10 + digit_val(s.last()) }
}

pub proof fn lemma_digits_of_shape(n: nat)
    ensures
        digits_of(n).len() >= 1,
        forall|i: int| 0 <= i < digits_of(n).len() ==> is_digit(#[trigger] digits_of(n)[i]),
        digits_of(n)[0] == '0' ==> n == 0,
        n == 0 ==> digits_of(n) == seq!['0'],
    decreases n,
{
    if n >= 10 {
        lemma_digits_of_shape(n / 10);
    }
}

/// Characters allowed in pre-release and build identifiers: ASCII alphanumerics and hyphen.
pub open spec fn is_ident_char(c: char) -> bool {
    is_digit(c) || ('A' <= c && c <= 'Z') || ('a' <= c && c <= 'z') || c == '-'
}

/// Every character of the sequence is a decimal digit.
pub open spec fn is_digit_seq(s: Seq<char>) -> bool {
    forall|i: int| 0 <= i < s.len() ==> is_digit(#[trigger] s[i])
}

/// Every character of the sequence is an identifier character.
pub open spec fn is_ident_seq(s: Seq<char>) -> bool {
    forall|i: int| 0 <= i < s.len() ==> is_ident_char(#[trigger] s[i])
}

/// A numeric field of a version: a non-empty digit sequence without a leading
/// zero whose value fits in `u32`.
pub open spec fn valid_number(s: Seq<char>) -> bool {
    &&& s.len() > 0
    &&& is_digit_seq(s)
    &&& (s[0] == '0' ==> s.len() == 1)
    &&& num_val(s) <= u32::MAX
}

/// A pre-release identifier: non-empty, identifier characters only, and when
/// purely numeric it must not have a leading zero.
pub open spec fn valid_pre_ident(s: Seq<char>) -> bool {
    &&& s.len() > 0
    &&& is_ident_seq(s)
    &&& (is_digit_seq(s) && s[0] == '0' ==> s.len() == 1)
}

/// A build-metadata segment: non-empty, identifier characters only.
pub open spec fn valid_build_part(s: Seq<char>) -> bool {
    s.len() > 0 && is_ident_seq(s)
}

/// Valid build metadata: a non-empty dot-separated list of non-empty
/// identifier segments.
pub open spec fn spec_valid_build(b: Seq<char>) -> bool {
    forall|i: int| 0 <= i < split_on(b, '.').len() ==> valid_build_part(#[trigger] split_on(b, '.')[i])
}

/// Index of the first occurrence of `c` in `s`, or -1 when absent.
pub open spec fn find_first(s: Seq<char>, c: char) -> int
    decreases s.len(),
{
    if s.len() == 0 {
        -1
    } else if s[0] == c {
        0
    } else {
        let r = find_first(s.skip(1), c);
        if r == -1 { -1 } else { r + 1 }
    }
}

/// `find_first` finds exactly the first occurrence.
pub proof fn lemma_find_first(s: Seq<char>, c: char)
    ensures
        find_first(s, c) == -1 ==> forall|i: int| 0 <= i < s.len() ==> s[i] != c,
        find_first(s, c) != -1 ==> {
            let r = find_first(s, c);
            &&& 0 <= r < s.len()
            &&& s[r] == c
            &&& forall|i: int| 0 <= i < r ==> s[i] != c
        },
    decreases s.len(),
{
    if s.len() > 0 && s[0] != c {
        lemma_find_first(s.skip(1), c);
        assert(forall|i: int| 1 <= i < s.len() ==> s[i] == s.skip(1)[i - 1]);
    }
}

/// Converse characterization: a position that is the first occurrence is what
/// `find_first` returns, and absence means -1.
pub proof fn lemma_find_first_of(s: Seq<char>, c: char, r: int)
    requires
        0 <= r < s.len(),
        s[r] == c,
        forall|i: int| 0 <= i < r ==> s[i] != c,
    ensures
        find_first(s, c) == r,
    decreases s.len(),
{
    if r > 0 {
        lemma_find_first_of(s.skip(1), c, r - 1);
        assert(forall|i: int| 0 <= i < s.skip(1).len() ==> s.skip(1)[i] == s[i + 1]);
    }
}

pub proof fn lemma_find_first_absent(s: Seq<char>, c: char)
    requires
        forall|i: int| 0 <= i < s.len() ==> s[i] != c,
    ensures
        find_first(s, c) == -1,
    decreases s.len(),
{
    if s.len() > 0 {
        lemma_find_first_absent(s.skip(1), c);
        assert(forall|i: int| 0 <= i < s.skip(1).len() ==> s.skip(1)[i] == s[i + 1]);
    }
}

/// The segments of `s` between occurrences of `sep`, in order.  A sequence
/// without the separator is a single segment; each separator ends a segment.
pub open spec fn split_on(s: Seq<char>, sep: char) -> Seq<Seq<char>>
    decreases s.len(),
    via split_on_decreases
{
    let r = find_first(s, sep);
    if r == -1 {
        seq![s]
    } else {
        seq![s.take(r)] + split_on(s.skip(r + 1), sep)
    }
}

#[via_fn]
proof fn split_on_decreases(s: Seq<char>, sep: char) {
    lemma_find_first(s, sep);
}

pub proof fn lemma_split_on_single(s: Seq<char>, sep: char)
    requires
        forall|i: int| 0 <= i < s.len() ==> s[i] != sep,
    ensures
        split_on(s, sep) == seq![s],
{
    lemma_find_first_absent(s, sep);
}

/// Splitting a sequence that begins with a separator-free segment peels
/// exactly that segment off.
pub proof fn lemma_split_on_concat(a: Seq<char>, rest: Seq<char>, sep: char)
    requires
        forall|i: int| 0 <= i < a.len() ==> a[i] != sep,
    ensures
        split_on(a + seq![sep] + rest, sep) == seq![a] + split_on(rest, sep),
{
    let s = a + seq![sep] + rest;
    assert(s[a.len() as int] == sep);
    lemma_find_first_of(s, sep, a.len() as int);
    assert(s.take(a.len() as int) =~= a);
    assert(s.skip(a.len() + 1int) =~= rest);
}

/// Joining segments with a separator, in order.
pub open spec fn join(parts: Seq<Seq<char>>, sep: char) -> Seq<char>
    decreases parts.len(),
{
    if parts.len() == 0 {
        Seq::empty()
    } else if parts.len() == 1 {
        parts[0]
    } else {
        parts[0] + seq![sep] + join(parts.skip(1), sep)
    }
}

/// Every character of a join comes from one of the parts or is the separator.
pub proof fn lemma_join_chars(parts: Seq<Seq<char>>, sep: char, c: char)
    requires
        forall|i: int, j: int|
            0 <= i < parts.len() && 0 <= j < parts[i].len() ==> #[trigger] parts[i][j] != c,
        c != sep,
    ensures
        forall|k: int| 0 <= k < join(parts, sep).len() ==> join(parts, sep)[k] != c,
    decreases parts.len(),
{
    if parts.len() == 1 {
        assert(forall|k: int| 0 <= k < parts[0].len() ==> parts[0][k] != c);
    } else if parts.len() > 1 {
        let tail = parts.skip(1);
        assert(forall|i: int, j: int|
            0 <= i < tail.len() && 0 <= j < tail[i].len() ==> #[trigger] tail[i][j] != c) by {
            assert(forall|i: int| 0 <= i < tail.len() ==> tail[i] == parts[i + 1]);
        }
        lemma_join_chars(tail, sep, c);
        let s = parts[0] + seq![sep] + join(tail, sep);
        assert(forall|k: int| 0 <= k < s.len() ==> s[k] != c) by {
            assert(forall|k: int| 0 <= k < parts[0].len() ==> s[k] == parts[0][k]);
            assert(s[parts[0].len() as int] == sep);
            assert(forall|k: int|
                parts[0].len() + 1 <= k < s.len() ==> s[k] == join(tail, sep)[k - parts[0].len() - 1]);
        }
    }
}

/// Splitting a join recovers the parts, provided no part contains the
/// separator and there is at least one part.
pub proof fn lemma_split_on_join(parts: Seq<Seq<char>>, sep: char)
    requires
        parts.len() > 0,
        forall|i: int, j: int|
            0 <= i < parts.len() && 0 <= j < parts[i].len() ==> #[trigger] parts[i][j] != sep,
    ensures
        split_on(join(parts, sep), sep) == parts,
    decreases parts.len(),
{
    if parts.len() == 1 {
        assert(forall|j: int| 0 <= j < parts[0].len() ==> parts[0][j] != sep);
        lemma_split_on_single(parts[0], sep);
        assert(split_on(join(parts, sep), sep) =~= parts);
    } else {
        let tail = parts.skip(1);
        assert(forall|i: int, j: int|
            0 <= i < tail.len() && 0 <= j < tail[i].len() ==> #[trigger] tail[i][j] != sep) by {
            assert(forall|i: int| 0 <= i < tail.len() ==> tail[i] == parts[i + 1]);
        }
        lemma_split_on_join(tail, sep);
        assert(forall|j: int| 0 <= j < parts[0].len() ==> parts[0][j] != sep);
        lemma_split_on_concat(parts[0], join(tail, sep), sep);
        assert(seq![parts[0]] + tail =~= parts);
    }
}

/// Powers of ten.
pub open spec fn pow10(n: nat) -> int
    decreases n,
{
    if n == 0 {
        1
    } else {
        10 * pow10((n - 1) as nat)
    }
}

pub proof fn lemma_pow10_pos(n: nat)
    ensures
        pow10(n) >= 1,
    decreases n,
{
    if n > 0 {
        lemma_pow10_pos((n - 1) as nat);
    }
}

pub proof fn lemma_pow10_mono(m: nat, n: nat)
    requires
        m <= n,
    ensures
        pow10(m) <= pow10(n),
    decreases n,
{
    lemma_pow10_pos(m);
    if m < n {
        lemma_pow10_mono(m, (n - 1) as nat);
    }
}

/// A digit sequence's value is below ten to its length.
pub proof fn lemma_num_val_upper(s: Seq<char>)
    requires
        is_digit_seq(s),
    ensures
        0 <= num_val(s) < pow10(s.len()),
    decreases s.len(),
{
    if s.len() > 0 {
        let head = s.drop_last();
        assert(is_digit_seq(head)) by {
            assert(forall|i: int| 0 <= i < head.len() ==> head[i] == s[i]);
        }
        lemma_num_val_upper(head);
        assert(is_digit(s.last()));
    }
}

/// A digit sequence with a non-zero leading digit reaches ten to one less
/// than its length.
pub proof fn lemma_num_val_lower(s: Seq<char>)
    requires
        is_digit_seq(s),
        s.len() > 0,
        s[0] != '0',
    ensures
        num_val(s) >= pow10((s.len() - 1) as nat),
    decreases s.len(),
{
    if s.len() == 1 {
        assert(is_digit(s[0]));
        assert(digit_val(s[0]) >= 1);
        assert(num_val(s) == num_val(s.drop_last()) * 10 + digit_val(s.last()));
        assert(s.drop_last() =~= Seq::<char>::empty());
    } else {
        let head = s.drop_last();
        assert(is_digit_seq(head) && head[0] == s[0]) by {
            assert(forall|i: int| 0 <= i < head.len() ==> head[i] == s[i]);
        }
        lemma_num_val_lower(head);
        assert(is_digit(s.last()));
        assert(digit_val(s.last()) >= 0);
        assert(num_val(s) == num_val(head) * 10 + digit_val(s.last()));
        assert(num_val(head) * 10 >= pow10((s.len() - 2) as nat) * 10) by (nonlinear_arith)
            requires
                num_val(head) >= pow10((s.len() - 2) as nat),
        ;
    }
}

/// Reading a digit sequence from the front: the leading digit weighs ten to
/// one less than the length.
pub proof fn lemma_num_val_front(s: Seq<char>)
    requires
        s.len() > 0,
    ensures
        num_val(s) == digit_val(s[0]) * pow10((s.len() - 1) as nat) + num_val(s.skip(1)),
    decreases s.len(),
{
    if s.len() == 1 {
        assert(s.drop_last() =~= Seq::<char>::empty());
        assert(s.skip(1) =~= Seq::<char>::empty());
    } else {
        let head = s.drop_last();
        lemma_num_val_front(head);
        assert(head[0] == s[0]);
        assert(s.skip(1).drop_last() =~= head.skip(1));
        assert(s.skip(1).last() == s.last());
        assert(num_val(s.skip(1)) == num_val(head.skip(1)) * 10 + digit_val(s.last()));
        assert(num_val(s) == num_val(head) * 10 + digit_val(s.last()));
        let d = digit_val(s[0]);
        let p = pow10((s.len() - 2) as nat);
        assert((d * p + num_val(head.skip(1))) * 10 == d * (10 * p) + num_val(head.skip(1)) * 10)
            by (nonlinear_arith);
        assert(pow10((s.len() - 1) as nat) == 10 * p);
    }
}

/// A digit sequence's value is non-negative and no prefix exceeds the whole.
pub proof fn lemma_num_val_prefix_le(s: Seq<char>, k: int)
    requires
        is_digit_seq(s),
        0 <= k <= s.len(),
    ensures
        num_val(s) >= 0,
        num_val(s.take(k)) <= num_val(s),
    decreases s.len(),
{
    if s.len() == 0 {
        assert(s.take(k) =~= s);
    } else {
        let head = s.drop_last();
        assert(is_digit_seq(head)) by {
            assert(forall|i: int| 0 <= i < head.len() ==> head[i] == s[i]);
        }
        assert(is_digit(s.last()));
        assert(digit_val(s.last()) >= 0);
        lemma_num_val_prefix_le(head, if k <= head.len() { k } else { head.len() as int });
        assert(num_val(s) == num_val(head) * 10 + digit_val(s.last()));
        assert(num_val(head) * 10 >= num_val(head)) by (nonlinear_arith)
            requires
                num_val(head) >= 0,
        ;
        if k == s.len() {
            assert(s.take(k) =~= s);
        } else {
            assert(s.take(k) =~= head.take(k));
        }
    }
}

pub proof fn lemma_num_val_digits_of(n: nat)
    ensures
        num_val(digits_of(n)) == n,
    decreases n,
{
    if n < 10 {
        let s = seq![digit_char(n as int)];
        assert(s.drop_last() =~= Seq::<char>::empty());
        assert(num_val(s) == num_val(s.drop_last()) * 10 + digit_val(s.last()));
    } else {
        lemma_num_val_digits_of(n / 10);
        let s = digits_of(n / 10).push(digit_char((n % 10) as int));
        assert(s.drop_last() == digits_of(n / 10));
        assert(s.last() == digit_char((n % 10) as int));
    }
}

} // verus!
