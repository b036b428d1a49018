//! String machinery shared by the whole library: character classes, decimal
//! parsing with the exact acceptance rules of `str::parse::<i32>`, splitting
//! on a separator character, lexicographic comparison, substring search, and
//! decimal rendering of counters.

use vstd::prelude::*;

verus! {

use vstd::string::StrSliceExecFns;
use vstd::string::StringExecFns;

// ---------------------------------------------------------------------------
// Character classes and decimal digits
// ---------------------------------------------------------------------------

pub open spec fn is_digit_char(c: char) -> bool {
    ('0' as u32) <= (c as u32) && (c as u32) <= ('9' as u32)
}

pub open spec fn digit_val(c: char) -> int {
    (c as u32) - ('0' as u32)
}

pub open spec fn all_digits(s: Seq<char>) -> bool {
    forall|i: int| 0 <= i < s.len() ==> is_digit_char(#[trigger] s[i])
}

/// Value of a sequence of decimal digits, most significant first.
pub open spec fn digits_val(s: Seq<char>) -> int
    decreases s.len(),
{
    if s.len() == 0 {
        0
    } else {
        digits_val(s.drop_last()) * 10 + digit_val(s.last())
    }
}

pub proof fn lemma_digits_val_nonneg(s: Seq<char>)
    requires
        all_digits(s),
    ensures
        digits_val(s) >= 0,
    decreases s.len(),
{
    if s.len() > 0 {
        assert(all_digits(s.drop_last()));
        lemma_digits_val_nonneg(s.drop_last());
        assert(digits_val(s.drop_last()) * 10 >= 0) by (nonlinear_arith)
            requires
                digits_val(s.drop_last()) >= 0,
        ;
    }
}

// ---------------------------------------------------------------------------
// The integer syntax accepted by `str::parse::<i32>`: an optional sign
// followed by one or more decimal digits, with the value in `i32` range.
// ---------------------------------------------------------------------------

pub open spec fn int_literal_negative(s: Seq<char>) -> bool {
    s.len() > 0 && s[0] == '-'
}

/// The digits of the literal, with any sign stripped.
pub open spec fn int_literal_body(s: Seq<char>) -> Seq<char> {
    if s.len() > 0 && (s[0] == '+' || s[0] == '-') {
        s.drop_first()
    } else {
        s
    }
}

/// Does `s` have the shape of a (mathematically unbounded) integer literal?
pub open spec fn is_int_literal(s: Seq<char>) -> bool {
    int_literal_body(s).len() > 0 && all_digits(int_literal_body(s))
}

pub open spec fn int_literal_val(s: Seq<char>) -> int {
    if int_literal_negative(s) {
        -digits_val(int_literal_body(s))
    } else {
        digits_val(int_literal_body(s))
    }
}

/// Exactly the strings on which `str::parse::<i32>` succeeds.
pub open spec fn is_i32_literal(s: Seq<char>) -> bool {
    is_int_literal(s) && i32::MIN <= int_literal_val(s) <= i32::MAX
}

/// Parse a decimal integer with the exact acceptance rules of
/// `str::parse::<i32>`: optional `+`/`-` sign, one or more digits, value in
/// range; anything else is rejected.
pub fn parse_i32(s: &str) -> (r: Option<i32>)
    ensures
        match r {
            Some(v) => is_i32_literal(s@) && v == int_literal_val(s@),
            None => !is_i32_literal(s@),
        },
{
    let n = s.unicode_len();
    let mut start: usize = 0;
    let mut negative: bool = false;
    if n > 0 {
        let c0 = s.get_char(0);
        if c0 == '-' {
            negative = true;
            start = 1;
        } else if c0 == '+' {
            start = 1;
        }
    }
    assert(s@.skip(start as int) == int_literal_body(s@)) by {
        assert(s@.skip(start as int) =~= int_literal_body(s@));
    }
    assert(negative == int_literal_negative(s@));
    if start >= n {
        // empty body: no digits at all
        return None;
    }
    // Accumulate the magnitude, clamping once it can no longer fit `i32`:
    // past `u32::MAX` only the fact of being out of range matters.
    let mut mag: u64 = 0;
    let mut i: usize = start;
    while i < n
        invariant
            start <= i <= n,
            n == s@.len(),
            start <= 1,
            s@.skip(start as int) == int_literal_body(s@),
            all_digits(s@.subrange(start as int, i as int)),
            digits_val(s@.subrange(start as int, i as int)) <= 0xFFFF_FFFF ==> mag == digits_val(
                s@.subrange(start as int, i as int),
            ),
            digits_val(s@.subrange(start as int, i as int)) > 0xFFFF_FFFF ==> mag > 0xFFFF_FFFF,
            mag <= 0xF_FFFF_FFFF,
        decreases n - i,
    {
        let c = s.get_char(i);
        if !('0' <= c && c <= '9') {
            proof {
                assert(int_literal_body(s@)[i - start] == s@.skip(start as int)[i - start]);
                assert(s@.skip(start as int)[i - start] == s@[i as int]);
                assert(!all_digits(int_literal_body(s@)));
            }
            return None;
        }
        let d: u64 = (c as u32 - '0' as u32) as u64;
        proof {
            let pre = s@.subrange(start as int, i as int);
            let post = s@.subrange(start as int, i as int + 1);
            assert(post.drop_last() =~= pre);
            assert(post.last() == c);
            lemma_digits_val_nonneg(pre);
            if digits_val(pre) > 0xFFFF_FFFF {
                assert(digits_val(pre) * 10 + digit_val(c) > 0xFFFF_FFFF) by (nonlinear_arith)
                    requires
                        digits_val(pre) > 0xFFFF_FFFF,
                        digit_val(c) >= 0,
                ;
            }
        }
        if mag > 0xFFFF_FFFF {
            // already out of range; leave the clamp in place
        } else {
            mag = mag * 10 + d;
        }
        i += 1;
    }
    proof {
        assert(s@.subrange(start as int, n as int) =~= int_literal_body(s@));
        lemma_digits_val_nonneg(int_literal_body(s@));
    }
    if negative {
        if mag <= 0x8000_0000 {
            Some((-(mag as i64)) as i32)
        } else {
            None
        }
    } else {
        if mag <= 0x7FFF_FFFF {
            Some(mag as i32)
        } else {
            None
        }
    }
}

// ---------------------------------------------------------------------------
// Splitting on a separator character (the behaviour of `str::split`)
// ---------------------------------------------------------------------------

/// `str::split(sep)`: the empty string yields one empty field, and every
/// occurrence of the separator closes the current field and opens a new one.
pub open spec fn spec_split(s: Seq<char>, sep: char) -> Seq<Seq<char>>
    decreases s.len(),
{
    if s.len() == 0 {
        seq![Seq::<char>::empty()]
    } else if s[0] == sep {
        seq![Seq::<char>::empty()] + spec_split(s.drop_first(), sep)
    } else {
        let rest = spec_split(s.drop_first(), sep);
        seq![seq![s[0]] + rest[0]] + rest.drop_first()
    }
}

pub proof fn lemma_split_len(s: Seq<char>, sep: char)
    ensures
        spec_split(s, sep).len() >= 1,
    decreases s.len(),
{
    if s.len() > 0 && s[0] != sep {
        lemma_split_len(s.drop_first(), sep)
    }
}

/// A separator-free string is a single field.
pub proof fn lemma_split_no_sep(s: Seq<char>, sep: char)
    requires
        forall|i: int| 0 <= i < s.len() ==> s[i] != sep,
    ensures
        spec_split(s, sep) =~~= seq![s],
    decreases s.len(),
{
    if s.len() > 0 {
        assert(forall|i: int| 0 <= i < s.drop_first().len() ==> s.drop_first()[i] != sep);
        lemma_split_no_sep(s.drop_first(), sep);
        assert(seq![s[0]] + s.drop_first() =~= s);
    }
}

/// With the first separator at `i`, splitting takes the prefix as the first
/// field and continues after the separator.
pub proof fn lemma_split_first_sep(s: Seq<char>, sep: char, i: int)
    requires
        0 <= i < s.len(),
        s[i] == sep,
        forall|j: int| 0 <= j < i ==> s[j] != sep,
    ensures
        spec_split(s, sep) =~~= seq![s.take(i)] + spec_split(s.skip(i + 1), sep),
    decreases s.len(),
{
    if i == 0 {
        assert(s.take(0) =~= Seq::<char>::empty());
        assert(s.skip(1) =~= s.drop_first());
    } else {
        let d = s.drop_first();
        assert(d[i - 1] == sep);
        assert(forall|j: int| 0 <= j < i - 1 ==> d[j] != sep);
        lemma_split_first_sep(d, sep, i - 1);
        lemma_split_len(d.skip(i), sep);
        assert(d.take(i - 1) =~= s.take(i).drop_first());
        assert(d.skip(i) =~= s.skip(i + 1));
        assert(seq![s[0]] + s.take(i).drop_first() =~= s.take(i));
    }
}

/// `str::split` over a single-character separator, each field owned.
pub fn split_str(s: &str, sep: char) -> (r: Vec<String>)
    ensures
        r.deep_view() == spec_split(s@, sep),
        r.len() >= 1,
{
    let n = s.unicode_len();
    let mut r: Vec<String> = Vec::new();
    let mut field_start: usize = 0;
    let mut i: usize = 0;
    proof {
        assert(s@.skip(0) =~= s@);
        assert(r.deep_view() =~= Seq::<Seq<char>>::empty());
    }
    while i < n
        invariant
            field_start <= i <= n,
            n == s@.len(),
            forall|j: int| field_start <= j < i ==> s@[j] != sep,
            spec_split(s@, sep) =~~= r.deep_view() + spec_split(s@.skip(field_start as int), sep),
        decreases n - i,
    {
        let c = s.get_char(i);
        if c == sep {
            let ghost suffix = s@.skip(field_start as int);
            let field = s.substring_char(field_start, i).to_owned();
            proof {
                assert(suffix[i - field_start] == sep);
                assert(forall|j: int| 0 <= j < i - field_start ==> suffix[j] != sep);
                lemma_split_first_sep(suffix, sep, i - field_start);
                assert(suffix.take(i - field_start) =~= s@.subrange(field_start as int, i as int));
                assert(suffix.skip(i - field_start + 1) =~= s@.skip(i as int + 1));
            }
            r.push(field);
            field_start = i + 1;
        }
        i += 1;
    }
    let last = s.substring_char(field_start, n).to_owned();
    proof {
        let suffix = s@.skip(field_start as int);
        lemma_split_no_sep(suffix, sep);
        assert(suffix =~= s@.subrange(field_start as int, n as int));
    }
    r.push(last);
    proof {
        lemma_split_len(s@, sep);
    }
    r
}

// ---------------------------------------------------------------------------
// First occurrence of a character
// ---------------------------------------------------------------------------

/// Index of the first occurrence of `c` in `s`, or `-1`.
pub open spec fn spec_find_char(s: Seq<char>, c: char) -> int
    decreases s.len(),
{
    if s.len() == 0 {
        -1
    } else if s[0] == c {
        0
    } else {
        let r = spec_find_char(s.drop_first(), c);
        if r < 0 {
            -1
        } else {
            r + 1
        }
    }
}

pub proof fn lemma_find_char_none(s: Seq<char>, c: char)
    requires
        forall|j: int| 0 <= j < s.len() ==> s[j] != c,
    ensures
        spec_find_char(s, c) == -1,
    decreases s.len(),
{
    if s.len() > 0 {
        assert(forall|j: int| 0 <= j < s.drop_first().len() ==> s.drop_first()[j] != c);
        lemma_find_char_none(s.drop_first(), c);
    }
}

pub proof fn lemma_find_char_at(s: Seq<char>, c: char, i: int)
    requires
        0 <= i < s.len(),
        s[i] == c,
        forall|j: int| 0 <= j < i ==> s[j] != c,
    ensures
        spec_find_char(s, c) == i,
    decreases s.len(),
{
    if i > 0 {
        let d = s.drop_first();
        assert(d[i - 1] == c);
        assert(forall|j: int| 0 <= j < i - 1 ==> d[j] != c);
        lemma_find_char_at(d, c, i - 1);
    }
}

/// Position of the first occurrence of `c`, scanning left to right.
pub fn find_char(s: &str, c: char) -> (r: Option<usize>)
    ensures
        match r {
            Some(i) => spec_find_char(s@, c) == i as int && i < s@.len(),
            None => spec_find_char(s@, c) == -1,
        },
{
    let n = s.unicode_len();
    let mut i: usize = 0;
    while i < n
        invariant
            i <= n,
            n == s@.len(),
            forall|j: int| 0 <= j < i ==> s@[j] != c,
        decreases n - i,
    {
        if s.get_char(i) == c {
            proof {
                lemma_find_char_at(s@, c, i as int);
            }
            return Some(i);
        }
        i += 1;
    }
    proof {
        lemma_find_char_none(s@, c);
    }
    None
}

// ---------------------------------------------------------------------------
// Repetition
// ---------------------------------------------------------------------------

/// `s` repeated `n` times (`str::repeat`).
pub open spec fn spec_repeat(s: Seq<char>, n: int) -> Seq<char>
    decreases n,
{
    if n <= 0 {
        Seq::<char>::empty()
    } else {
        spec_repeat(s, n - 1) + s
    }
}

/// Append `s` repeated `n` times to `out`.
pub fn append_repeat(out: &mut String, s: &str, n: usize)
    ensures
        final(out)@ == old(out)@ + spec_repeat(s@, n as int),
{
    let mut i: usize = 0;
    proof {
        assert(out@ =~= old(out)@ + spec_repeat(s@, 0));
    }
    while i < n
        invariant
            i <= n,
            out@ == old(out)@ + spec_repeat(s@, i as int),
        decreases n - i,
    {
        out.append(s);
        proof {
            assert(out@ =~= old(out)@ + spec_repeat(s@, i as int + 1));
        }
        i += 1;
    }
}

// ---------------------------------------------------------------------------
// Lexicographic comparison by code point, the order `str` comparison uses
// (code-point order and UTF-8 byte order agree).
// ---------------------------------------------------------------------------

pub open spec fn spec_lex_gt(a: Seq<char>, b: Seq<char>) -> bool
    decreases a.len(),
{
    if a.len() == 0 {
        false
    } else if b.len() == 0 {
        true
    } else if a[0] == b[0] {
        spec_lex_gt(a.drop_first(), b.drop_first())
    } else {
        (a[0] as u32) > (b[0] as u32)
    }
}

pub proof fn lemma_lex_gt_irreflexive(a: Seq<char>)
    ensures
        !spec_lex_gt(a, a),
    decreases a.len(),
{
    if a.len() > 0 {
        lemma_lex_gt_irreflexive(a.drop_first());
    }
}

pub proof fn lemma_lex_gt_trans(a: Seq<char>, b: Seq<char>, c: Seq<char>)
    requires
        spec_lex_gt(a, b),
        spec_lex_gt(b, c),
    ensures
        spec_lex_gt(a, c),
    decreases a.len(),
{
    if a.len() > 0 && b.len() > 0 && c.len() > 0 {
        if a[0] == b[0] && b[0] == c[0] {
            lemma_lex_gt_trans(a.drop_first(), b.drop_first(), c.drop_first());
        }
    }
}

pub proof fn lemma_lex_gt_asymmetric(a: Seq<char>, b: Seq<char>)
    requires
        spec_lex_gt(a, b),
    ensures
        !spec_lex_gt(b, a),
{
    if spec_lex_gt(b, a) {
        lemma_lex_gt_trans(a, b, a);
        lemma_lex_gt_irreflexive(a);
    }
}


/// `a > b` on `&str`, by code point.
pub fn lex_gt(a: &str, b: &str) -> (r: bool)
    ensures
        r == spec_lex_gt(a@, b@),
{
    let an = a.unicode_len();
    let bn = b.unicode_len();
    let mut i: usize = 0;
    proof {
        assert(a@.skip(0) =~= a@);
        assert(b@.skip(0) =~= b@);
    }
    loop
        invariant
            i <= an,
            i <= bn,
            an == a@.len(),
            bn == b@.len(),
            forall|j: int| 0 <= j < i ==> a@[j] == b@[j],
            spec_lex_gt(a@, b@) == spec_lex_gt(a@.skip(i as int), b@.skip(i as int)),
        decreases an - i,
    {
        if i >= an {
            assert(a@.skip(i as int).len() == 0);
            return false;
        }
        if i >= bn {
            assert(b@.skip(i as int).len() == 0);
            assert(a@.skip(i as int).len() > 0);
            return true;
        }
        let ca = a.get_char(i);
        let cb = b.get_char(i);
        if ca != cb {
            return (ca as u32) > (cb as u32);
        }
        proof {
            assert(a@.skip(i as int).drop_first() =~= a@.skip(i as int + 1));
            assert(b@.skip(i as int).drop_first() =~= b@.skip(i as int + 1));
        }
        i += 1;
    }
}

/// Equality of two string slices, by contents.
pub fn str_eq(a: &str, b: &str) -> (r: bool)
    ensures
        r == (a@ == b@),
{
    let an = a.unicode_len();
    let bn = b.unicode_len();
    if an != bn {
        proof {
            assert(a@.len() != b@.len());
        }
        return false;
    }
    let mut i: usize = 0;
    while i < an
        invariant
            i <= an,
            an == a@.len(),
            an == b@.len(),
            forall|j: int| 0 <= j < i ==> a@[j] == b@[j],
        decreases an - i,
    {
        if a.get_char(i) != b.get_char(i) {
            return false;
        }
        i += 1;
    }
    proof {
        assert(a@ =~= b@);
    }
    true
}

// ---------------------------------------------------------------------------
// Substring tests
// ---------------------------------------------------------------------------

/// Does `pat` occur in `s` starting at position `at`?
pub open spec fn matches_at(s: Seq<char>, pat: Seq<char>, at: int) -> bool {
    0 <= at && at + pat.len() <= s.len() && s.subrange(at, at + pat.len()) == pat
}

/// `str::contains` for a literal pattern.
pub open spec fn spec_contains(s: Seq<char>, pat: Seq<char>) -> bool {
    exists|at: int| matches_at(s, pat, at)
}

/// Does `pat` occur in `s` at position `at`? (executable form)
pub fn occurs_at(s: &str, pat: &str, at: usize) -> (r: bool)
    requires
        at + pat@.len() <= s@.len(),
    ensures
        r == matches_at(s@, pat@, at as int),
{
    let n = s.unicode_len();
    let m = pat.unicode_len();
    let mut j: usize = 0;
    while j < m
        invariant
            j <= m,
            m == pat@.len(),
            n == s@.len(),
            at + m <= s@.len(),
            forall|k: int| 0 <= k < j ==> s@[at + k] == pat@[k],
        decreases m - j,
    {
        if s.get_char(at + j) != pat.get_char(j) {
            assert(s@.subrange(at as int, at + m) != pat@) by {
                assert(s@.subrange(at as int, at + m)[j as int] != pat@[j as int]);
            }
            return false;
        }
        j += 1;
    }
    proof {
        assert(s@.subrange(at as int, at + m) =~= pat@);
    }
    true
}

/// `str::contains` for a literal pattern (naive scan).
pub fn str_contains(s: &str, pat: &str) -> (r: bool)
    ensures
        r == spec_contains(s@, pat@),
{
    let n = s.unicode_len();
    let m = pat.unicode_len();
    if m > n {
        assert(forall|at: int| !matches_at(s@, pat@, at));
        return false;
    }
    if m == 0 {
        proof {
            assert(s@.subrange(0, 0) =~= pat@);
            assert(matches_at(s@, pat@, 0));
        }
        return true;
    }
    let mut at: usize = 0;
    while at <= n - m
        invariant
            1 <= m <= n,
            n == s@.len(),
            m == pat@.len(),
            at <= n,
            forall|k: int| 0 <= k < at ==> !matches_at(s@, pat@, k),
        decreases n - at,
    {
        if occurs_at(s, pat, at) {
            return true;
        }
        at += 1;
    }
    assert(forall|k: int| !matches_at(s@, pat@, k));
    false
}

/// The number of positions of `s` at which `pat` occurs, counted without
/// overlap, scanning left to right (the behaviour of `str::matches().count()`).
pub open spec fn spec_count_matches(s: Seq<char>, pat: Seq<char>) -> nat
    decreases s.len(),
{
    if pat.len() == 0 || pat.len() > s.len() {
        0
    } else if s.subrange(0, pat.len() as int) == pat {
        1 + spec_count_matches(s.skip(pat.len() as int), pat)
    } else {
        spec_count_matches(s.drop_first(), pat)
    }
}

/// Count non-overlapping occurrences of `pat` in `s`, left to right.
pub fn count_matches(s: &str, pat: &str) -> (r: u32)
    requires
        s@.len() <= u32::MAX,
    ensures
        r == spec_count_matches(s@, pat@),
{
    let n = s.unicode_len();
    let m = pat.unicode_len();
    if m == 0 {
        return 0;
    }
    let mut at: usize = 0;
    let mut count: u32 = 0;
    proof {
        lemma_count_matches_le(s@, pat@);
        assert(s@.skip(0) =~= s@);
    }
    while at < n
        invariant
            at <= n,
            n == s@.len(),
            m == pat@.len(),
            m >= 1,
            n <= u32::MAX,
            count + spec_count_matches(s@.skip(at as int), pat@) == spec_count_matches(s@, pat@),
            count <= at,
        decreases n - at,
    {
        proof {
            lemma_count_matches_le(s@.skip(at as int), pat@);
        }
        if m <= n - at && occurs_at(s, pat, at) {
            proof {
                assert(s@.skip(at as int).subrange(0, m as int) =~= s@.subrange(
                    at as int,
                    at + m,
                ));
                assert(s@.skip(at as int).skip(m as int) =~= s@.skip(at + m));
            }
            count += 1;
            at += m;
        } else {
            proof {
                if m <= n - at {
                    assert(s@.skip(at as int).subrange(0, m as int) =~= s@.subrange(
                        at as int,
                        at + m,
                    ));
                }
                assert(s@.skip(at as int).drop_first() =~= s@.skip(at as int + 1));
            }
            at += 1;
        }
    }
    assert(spec_count_matches(s@.skip(at as int), pat@) == 0);
    count
}

pub proof fn lemma_count_matches_le(s: Seq<char>, pat: Seq<char>)
    ensures
        spec_count_matches(s, pat) <= s.len(),
    decreases s.len(),
{
    if pat.len() == 0 || pat.len() > s.len() {
    } else if s.subrange(0, pat.len() as int) == pat {
        lemma_count_matches_le(s.skip(pat.len() as int), pat);
    } else {
        lemma_count_matches_le(s.drop_first(), pat);
    }
}

// ---------------------------------------------------------------------------
// Splitting on a separator string
// ---------------------------------------------------------------------------

/// Index of the first occurrence of `pat` in `s`, or `-1`.
pub open spec fn spec_find_sub(s: Seq<char>, pat: Seq<char>) -> int
    decreases s.len(),
{
    if pat.len() <= s.len() && s.take(pat.len() as int) == pat {
        0
    } else if s.len() == 0 {
        -1
    } else {
        let r = spec_find_sub(s.drop_first(), pat);
        if r < 0 {
            -1
        } else {
            r + 1
        }
    }
}

pub proof fn lemma_find_sub_none(s: Seq<char>, pat: Seq<char>)
    requires
        forall|j: int| !matches_at(s, pat, j),
    ensures
        spec_find_sub(s, pat) == -1,
    decreases s.len(),
{
    assert(!matches_at(s, pat, 0));
    if s.len() > 0 {
        let d = s.drop_first();
        assert forall|j: int| !matches_at(d, pat, j) by {
            if matches_at(d, pat, j) {
                assert(s.subrange(j + 1, j + 1 + pat.len()) =~= d.subrange(j, j + pat.len()));
                assert(matches_at(s, pat, j + 1));
            }
        }
        lemma_find_sub_none(d, pat);
    }
}

pub proof fn lemma_find_sub_at(s: Seq<char>, pat: Seq<char>, i: int)
    requires
        matches_at(s, pat, i),
        forall|j: int| 0 <= j < i ==> !matches_at(s, pat, j),
    ensures
        spec_find_sub(s, pat) == i,
    decreases i,
{
    if i == 0 {
        assert(s.take(pat.len() as int) =~= s.subrange(0, pat.len() as int));
    } else {
        assert(!matches_at(s, pat, 0));
        assert(s.take(pat.len() as int) != pat ==> true);
        assert(!(pat.len() <= s.len() && s.take(pat.len() as int) == pat)) by {
            if pat.len() <= s.len() && s.take(pat.len() as int) == pat {
                assert(s.subrange(0, pat.len() as int) =~= s.take(pat.len() as int));
                assert(matches_at(s, pat, 0));
            }
        }
        let d = s.drop_first();
        assert(matches_at(d, pat, i - 1)) by {
            assert(d.subrange(i - 1, i - 1 + pat.len()) =~= s.subrange(i, i + pat.len()));
        }
        assert forall|j: int| 0 <= j < i - 1 implies !matches_at(d, pat, j) by {
            if matches_at(d, pat, j) {
                assert(s.subrange(j + 1, j + 1 + pat.len()) =~= d.subrange(j, j + pat.len()));
                assert(matches_at(s, pat, j + 1));
            }
        }
        lemma_find_sub_at(d, pat, i - 1);
    }
}

/// `str::split` over a non-empty separator string: fields between the
/// non-overlapping, leftmost-first occurrences of the separator.
pub open spec fn spec_split_by(s: Seq<char>, sep: Seq<char>) -> Seq<Seq<char>>
    decreases s.len(),
{
    if sep.len() == 0 {
        seq![s]
    } else {
        let i = spec_find_sub(s, sep);
        if i < 0 || i + sep.len() > s.len() {
            seq![s]
        } else {
            seq![s.take(i)] + spec_split_by(s.skip(i + sep.len()), sep)
        }
    }
}

/// Split on a separator string, each field owned.
pub fn split_by(s: &str, sep: &str) -> (r: Vec<String>)
    requires
        sep@.len() >= 1,
    ensures
        r.deep_view() == spec_split_by(s@, sep@),
        r.len() >= 1,
{
    let n = s.unicode_len();
    let m = sep.unicode_len();
    let mut r: Vec<String> = Vec::new();
    let mut field_start: usize = 0;
    let mut at: usize = 0;
    proof {
        assert(s@.skip(0) =~= s@);
        assert(r.deep_view() =~= Seq::<Seq<char>>::empty());
    }
    while at < n
        invariant
            field_start <= at <= n,
            n == s@.len(),
            m == sep@.len(),
            m >= 1,
            forall|j: int| field_start <= j < at ==> !matches_at(s@, sep@, j),
            spec_split_by(s@, sep@) =~~= r.deep_view() + spec_split_by(
                s@.skip(field_start as int),
                sep@,
            ),
        decreases n - at,
    {
        if m <= n - at && occurs_at(s, sep, at) {
            let ghost suffix = s@.skip(field_start as int);
            let field = s.substring_char(field_start, at).to_owned();
            proof {
                assert(matches_at(suffix, sep@, at - field_start)) by {
                    assert(suffix.subrange(
                        at - field_start,
                        at - field_start + sep@.len(),
                    ) =~= s@.subrange(at as int, at + sep@.len()));
                }
                assert forall|j: int| 0 <= j < at - field_start implies !matches_at(
                    suffix,
                    sep@,
                    j,
                ) by {
                    if matches_at(suffix, sep@, j) {
                        assert(s@.subrange(
                            field_start + j,
                            field_start + j + sep@.len(),
                        ) =~= suffix.subrange(j, j + sep@.len()));
                        assert(matches_at(s@, sep@, field_start + j));
                    }
                }
                lemma_find_sub_at(suffix, sep@, at - field_start);
                assert(suffix.take(at - field_start) =~= s@.subrange(
                    field_start as int,
                    at as int,
                ));
                assert(suffix.skip(at - field_start + sep@.len()) =~= s@.skip(at + sep@.len()));
            }
            r.push(field);
            field_start = at + m;
            at = at + m;
        } else {
            proof {
                if m <= n - at {
                    assert(s@.subrange(at as int, at + sep@.len()) == sep@ ==> matches_at(
                        s@,
                        sep@,
                        at as int,
                    ));
                } else {
                    assert(!matches_at(s@, sep@, at as int));
                }
            }
            at += 1;
        }
    }
    let last = s.substring_char(field_start, n).to_owned();
    proof {
        let suffix = s@.skip(field_start as int);
        assert forall|j: int| !matches_at(suffix, sep@, j) by {
            if matches_at(suffix, sep@, j) {
                assert(0 <= j && j + sep@.len() <= suffix.len());
                assert(s@.subrange(field_start + j, field_start + j + sep@.len())
                    =~= suffix.subrange(j, j + sep@.len()));
                assert(matches_at(s@, sep@, field_start + j));
            }
        }
        lemma_find_sub_none(suffix, sep@);
        assert(suffix =~= s@.subrange(field_start as int, n as int));
    }
    r.push(last);
    r
}

// ---------------------------------------------------------------------------
// Sorting strings and joining them
// ---------------------------------------------------------------------------

/// `x` placed before the first greater element of an ascending sequence.
pub open spec fn spec_insert_sorted(s: Seq<Seq<char>>, x: Seq<char>) -> Seq<Seq<char>>
    decreases s.len(),
{
    if s.len() == 0 {
        seq![x]
    } else if spec_lex_gt(s[0], x) {
        seq![x] + s
    } else {
        seq![s[0]] + spec_insert_sorted(s.drop_first(), x)
    }
}

/// Ascending insertion sort of the fields, by code point.
pub open spec fn spec_sort_strings(s: Seq<Seq<char>>) -> Seq<Seq<char>>
    decreases s.len(),
{
    if s.len() == 0 {
        Seq::<Seq<char>>::empty()
    } else {
        spec_insert_sorted(spec_sort_strings(s.drop_last()), s.last())
    }
}

pub open spec fn spec_sorted_strings(s: Seq<Seq<char>>) -> bool {
    forall|i: int, j: int| 0 <= i < j < s.len() ==> !spec_lex_gt(#[trigger] s[i], #[trigger] s[j])
}

proof fn lemma_insert_sorted_at(s: Seq<Seq<char>>, x: Seq<char>, k: int)
    requires
        0 <= k <= s.len(),
        forall|i: int| 0 <= i < k ==> !spec_lex_gt(#[trigger] s[i], x),
        k < s.len() ==> spec_lex_gt(s[k], x),
    ensures
        spec_insert_sorted(s, x) =~~= s.take(k) + seq![x] + s.skip(k),
    decreases k,
{
    if s.len() == 0 {
        assert(s.take(0) =~= s);
        assert(s.skip(0) =~= s);
    } else if k == 0 {
        assert(s.take(0).len() == 0);
        assert(s.skip(0) =~= s);
    } else {
        let d = s.drop_first();
        assert(forall|i: int| 0 <= i < k - 1 ==> !spec_lex_gt(#[trigger] d[i], x));
        assert(k - 1 < d.len() ==> spec_lex_gt(d[k - 1], x));
        lemma_insert_sorted_at(d, x, k - 1);
        assert(d.take(k - 1) =~= s.take(k).drop_first());
        assert(d.skip(k - 1) =~= s.skip(k));
        assert(seq![s[0]] + (s.take(k).drop_first() + seq![x] + s.skip(k)) =~~= s.take(k) + seq![
            x,
        ] + s.skip(k));
    }
}

/// Sort owned strings ascending by code point.
pub fn sort_strings(strings: Vec<String>) -> (r: Vec<String>)
    ensures
        r.deep_view() == spec_sort_strings(strings.deep_view()),
{
    let ghost orig = strings.deep_view();
    let mut rest = strings;
    let mut out: Vec<String> = Vec::new();
    let total = rest.len();
    let mut done: usize = 0;
    proof {
        assert(orig.take(0) =~= Seq::<Seq<char>>::empty());
        assert(out.deep_view() =~= spec_sort_strings(orig.take(0)));
    }
    while rest.len() > 0
        invariant
            total == orig.len(),
            done + rest@.len() == total,
            rest.deep_view() =~= orig.skip(done as int),
            out.deep_view() == spec_sort_strings(orig.take(done as int)),
            spec_sorted_strings(out.deep_view()),
        decreases rest@.len(),
    {
        let ghost rest_before = rest.deep_view();
        let ghost out_before = out.deep_view();
        let x = rest.remove(0);
        proof {
            assert(rest.deep_view() =~= rest_before.drop_first());
            assert(rest_before[0] == x@);
            assert(rest.deep_view() =~= orig.skip(done as int + 1));
            assert(orig.take(done as int).push(orig[done as int]) =~= orig.take(done as int + 1));
        }
        let mut k: usize = 0;
        let mut found_greater = false;
        while !found_greater && k < out.len()
            invariant
                k <= out@.len(),
                out.deep_view() == out_before,
                out@.len() == out_before.len(),
                spec_sorted_strings(out_before),
                forall|i: int| 0 <= i < k ==> !spec_lex_gt(#[trigger] out_before[i], x@),
                found_greater ==> k < out_before.len() && spec_lex_gt(out_before[k as int], x@),
            decreases out@.len() - k + (if found_greater {
                0int
            } else {
                1int
            }),
        {
            proof {
                assert(out.deep_view()[k as int] == out@[k as int]@);
            }
            if lex_gt(out[k].as_str(), x.as_str()) {
                found_greater = true;
            } else {
                k += 1;
            }
        }
        out.insert(k, x);
        proof {
            assert(orig.take(done as int + 1).drop_last() =~= orig.take(done as int));
            assert(orig.take(done as int + 1).last() == orig[done as int]);
            lemma_insert_sorted_at(out_before, orig[done as int], k as int);
            assert(out.deep_view() =~= out_before.take(k as int) + seq![orig[done as int]]
                + out_before.skip(k as int));
            assert(out.deep_view() =~= spec_insert_sorted(out_before, orig[done as int]));
            assert(spec_sorted_strings(out.deep_view())) by {
                assert forall|a: int, b: int|
                    0 <= a < b < out.deep_view().len() implies !spec_lex_gt(
                    #[trigger] out.deep_view()[a],
                    #[trigger] out.deep_view()[b],
                ) by {
                    let v = out.deep_view();
                    let kk = k as int;
                    let xx = orig[done as int];
                    assert(forall|j: int|
                        0 <= j < v.len() ==> #[trigger] v[j] == if j < kk {
                            out_before[j]
                        } else if j == kk {
                            xx
                        } else {
                            out_before[j - 1]
                        });
                    if a < kk && b == kk {
                    } else if a == kk && b > kk {
                        if spec_lex_gt(xx, out_before[b - 1]) {
                            assert(found_greater && kk < out_before.len());
                            if b - 1 > kk {
                                lemma_lex_gt_trans(out_before[kk], xx, out_before[b - 1]);
                                lemma_lex_gt_asymmetric(out_before[kk], out_before[b - 1]);
                            } else {
                                lemma_lex_gt_asymmetric(out_before[kk], xx);
                            }
                        }
                    } else if a < kk && b > kk {
                        if spec_lex_gt(out_before[a], out_before[b - 1]) {
                            if a < b - 1 {
                            } else {
                                lemma_lex_gt_irreflexive(out_before[a]);
                            }
                        }
                    }
                }
            }
        }
        done += 1;
    }
    proof {
        assert(orig.take(total as int) =~= orig);
    }
    out
}

/// The fields joined with `sep` between them.
pub open spec fn spec_join_sep(parts: Seq<Seq<char>>, sep: Seq<char>) -> Seq<char>
    decreases parts.len(),
{
    if parts.len() == 0 {
        Seq::<char>::empty()
    } else if parts.len() == 1 {
        parts[0]
    } else {
        spec_join_sep(parts.drop_last(), sep) + sep + parts.last()
    }
}

/// Join owned strings with a separator.
pub fn join_sep(parts: &Vec<String>, sep: &str) -> (r: String)
    ensures
        r@ == spec_join_sep(parts.deep_view(), sep@),
{
    let mut r = String::new();
    let mut i: usize = 0;
    let n = parts.len();
    proof {
        assert(parts.deep_view().take(0) =~= Seq::<Seq<char>>::empty());
    }
    while i < n
        invariant
            i <= n,
            n == parts@.len(),
            r@ == spec_join_sep(parts.deep_view().take(i as int), sep@),
        decreases n - i,
    {
        proof {
            assert(parts.deep_view()[i as int] == parts@[i as int]@);
        }
        if i > 0 {
            r.append(sep);
        }
        r.append(parts[i].as_str());
        proof {
            let pv = parts.deep_view();
            assert(pv.take(i as int + 1).drop_last() =~= pv.take(i as int));
            assert(pv.take(i as int + 1).last() == pv[i as int]);
            if i == 0 {
                assert(r@ =~= spec_join_sep(pv.take(1), sep@));
            } else {
                assert(r@ =~= spec_join_sep(pv.take(i as int + 1), sep@));
            }
        }
        i += 1;
    }
    proof {
        assert(parts.deep_view().take(n as int) =~= parts.deep_view());
    }
    r
}

// ---------------------------------------------------------------------------
// Prefix and suffix tests
// ---------------------------------------------------------------------------

pub open spec fn spec_starts_with(s: Seq<char>, pre: Seq<char>) -> bool {
    pre.len() <= s.len() && s.take(pre.len() as int) == pre
}

pub open spec fn spec_ends_with(s: Seq<char>, suf: Seq<char>) -> bool {
    suf.len() <= s.len() && s.skip(s.len() - suf.len()) == suf
}

pub fn starts_with(s: &str, pre: &str) -> (r: bool)
    ensures
        r == spec_starts_with(s@, pre@),
{
    let n = s.unicode_len();
    let m = pre.unicode_len();
    if m > n {
        return false;
    }
    let r = occurs_at(s, pre, 0);
    proof {
        assert(s@.subrange(0, m as int) =~= s@.take(m as int));
    }
    r
}

pub fn ends_with(s: &str, suf: &str) -> (r: bool)
    ensures
        r == spec_ends_with(s@, suf@),
{
    let n = s.unicode_len();
    let m = suf.unicode_len();
    if m > n {
        return false;
    }
    let r = occurs_at(s, suf, n - m);
    proof {
        assert(s@.subrange(n - m, n as int) =~= s@.skip(n - m));
    }
    r
}

// ---------------------------------------------------------------------------
// Case folding
// ---------------------------------------------------------------------------

/// What `str::to_lowercase` returns: a function of the characters alone.
pub uninterp spec fn lower_of(s: Seq<char>) -> Seq<char>;

/// Relies on `str::to_lowercase`: Unicode lowercasing, which depends on the
/// characters of its argument alone.  An empty string stays empty.
#[verifier::external_body]
pub(crate) fn lowercase(s: &str) -> (r: String)
    ensures
        r@ == lower_of(s@),
        s@.len() == 0 ==> r@.len() == 0,
{
    s.to_lowercase()
}

// ---------------------------------------------------------------------------
// Rendering unsigned counters in decimal
// ---------------------------------------------------------------------------

pub open spec fn digit_char(d: int) -> char {
    if d == 0 {
        '0'
    } else if d == 1 {
        '1'
    } else if d == 2 {
        '2'
    } else if d == 3 {
        '3'
    } else if d == 4 {
        '4'
    } else if d == 5 {
        '5'
    } else if d == 6 {
        '6'
    } else if d == 7 {
        '7'
    } else if d == 8 {
        '8'
    } else {
        '9'
    }
}

/// The usual decimal rendering, most significant digit first, no sign, no
/// leading zeros except for zero itself.
pub open spec fn spec_u64_string(n: int) -> Seq<char>
    decreases n,
{
    if n < 10 {
        seq![digit_char(n)]
    } else {
        spec_u64_string(n / 10) + seq![digit_char(n % 10)]
    }
}

fn digit_str(d: u64) -> (r: &'static str)
    requires
        d < 10,
    ensures
        r@ =~= seq![digit_char(d as int)],
{
    proof {
        reveal_strlit("0");
        reveal_strlit("1");
        reveal_strlit("2");
        reveal_strlit("3");
        reveal_strlit("4");
        reveal_strlit("5");
        reveal_strlit("6");
        reveal_strlit("7");
        reveal_strlit("8");
        reveal_strlit("9");
    }
    if d == 0 {
        "0"
    } else if d == 1 {
        "1"
    } else if d == 2 {
        "2"
    } else if d == 3 {
        "3"
    } else if d == 4 {
        "4"
    } else if d == 5 {
        "5"
    } else if d == 6 {
        "6"
    } else if d == 7 {
        "7"
    } else if d == 8 {
        "8"
    } else {
        "9"
    }
}

/// Decimal rendering of a counter.
pub fn u64_to_string(n: u64) -> (r: String)
    ensures
        r@ == spec_u64_string(n as int),
    decreases n,
{
    if n < 10 {
        digit_str(n).to_owned()
    } else {
        let mut s = u64_to_string(n / 10);
        s.append(digit_str(n % 10));
        s
    }
}

/// Decimal rendering of a signed value: a `-` before the magnitude where
/// negative.
pub open spec fn spec_i64_string(n: int) -> Seq<char> {
    if n < 0 {
        seq!['-'] + spec_u64_string(-n)
    } else {
        spec_u64_string(n)
    }
}

pub fn i64_to_string(n: i64) -> (r: String)
    ensures
        r@ == spec_i64_string(n as int),
{
    if n < 0 {
        let mag: u64 = if n == i64::MIN {
            9223372036854775808u64
        } else {
            (-n) as u64
        };
        assert(mag == -(n as int));
        let mut s = "-".to_owned();
        proof {
            reveal_strlit("-");
            assert(s@ =~= seq!['-']);
        }
        let digits = u64_to_string(mag);
        s.append(digits.as_str());
        s
    } else {
        u64_to_string(n as u64)
    }
}

} // verus!
