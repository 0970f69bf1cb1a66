//! Character-level text utilities.
//!
//! The engine receives its textual inputs (dates, presets, flags, amounts)
//! as `&str` and reasons about them as sequences of characters. Everything
//! here is defined over `Seq<char>`; the executable code walks characters
//! with `get_char` and builds results as `Vec<char>`.

use vstd::prelude::*;

verus! {

/// The Unicode White_Space characters: what trimming and whitespace
/// collapsing strip.
pub open spec fn is_space_char(c: char) -> bool {
    c == ' ' || c == '\t' || c == '\n' || c == '\r' || c == '\u{0b}' || c == '\u{0c}'
        || c == '\u{85}' || c == '\u{a0}' || c == '\u{1680}' || ('\u{2000}' <= c && c
        <= '\u{200a}') || c == '\u{2028}' || c == '\u{2029}' || c == '\u{202f}' || c
        == '\u{205f}' || c == '\u{3000}'
}

pub open spec fn is_digit_char(c: char) -> bool {
    '0' <= c && c <= '9'
}

pub open spec fn digit_val(c: char) -> int {
    c as int - '0' as int
}

/// Lower-case image of an ASCII letter; other characters are unchanged.
pub open spec fn lower_char(c: char) -> char {
    match c {
        'A' => 'a',
        'B' => 'b',
        'C' => 'c',
        'D' => 'd',
        'E' => 'e',
        'F' => 'f',
        'G' => 'g',
        'H' => 'h',
        'I' => 'i',
        'J' => 'j',
        'K' => 'k',
        'L' => 'l',
        'M' => 'm',
        'N' => 'n',
        'O' => 'o',
        'P' => 'p',
        'Q' => 'q',
        'R' => 'r',
        'S' => 's',
        'T' => 't',
        'U' => 'u',
        'V' => 'v',
        'W' => 'w',
        'X' => 'x',
        'Y' => 'y',
        'Z' => 'z',
        _ => c,
    }
}

pub open spec fn lower_of(s: Seq<char>) -> Seq<char> {
    s.map_values(|c: char| lower_char(c))
}

/// Number of whitespace characters at the front of `s`.
pub open spec fn lead_spaces(s: Seq<char>) -> int
    decreases s.len(),
{
    if s.len() == 0 {
        0
    } else if !is_space_char(s[0]) {
        0
    } else {
        1 + lead_spaces(s.skip(1))
    }
}

/// Number of whitespace characters at the back of `s`.
pub open spec fn trail_spaces(s: Seq<char>) -> int
    decreases s.len(),
{
    if s.len() == 0 {
        0
    } else if !is_space_char(s.last()) {
        0
    } else {
        1 + trail_spaces(s.drop_last())
    }
}

/// `s` with leading and trailing whitespace removed.
pub open spec fn trim_of(s: Seq<char>) -> Seq<char> {
    if lead_spaces(s) == s.len() {
        Seq::empty()
    } else {
        s.subrange(lead_spaces(s), s.len() - trail_spaces(s))
    }
}

pub proof fn lemma_lead_spaces_bound(s: Seq<char>)
    ensures
        0 <= lead_spaces(s) <= s.len(),
        forall|j: int| 0 <= j < lead_spaces(s) ==> is_space_char(s[j]),
        lead_spaces(s) < s.len() ==> !is_space_char(s[lead_spaces(s)]),
    decreases s.len(),
{
    if s.len() == 0 {
    } else if !is_space_char(s[0]) {
    } else {
        lemma_lead_spaces_bound(s.skip(1));
        assert forall|j: int| 0 <= j < lead_spaces(s) implies is_space_char(s[j]) by {
            if j > 0 {
                assert(s.skip(1)[j - 1] == s[j]);
            }
        }
        if lead_spaces(s) < s.len() {
            assert(s.skip(1)[lead_spaces(s) - 1] == s[lead_spaces(s)]);
        }
    }
}

pub proof fn lemma_trail_spaces_bound(s: Seq<char>)
    ensures
        0 <= trail_spaces(s) <= s.len(),
        forall|j: int| s.len() - trail_spaces(s) <= j < s.len() ==> is_space_char(s[j]),
        trail_spaces(s) < s.len() ==> !is_space_char(s[s.len() - trail_spaces(s) - 1]),
    decreases s.len(),
{
    if s.len() == 0 {
    } else if !is_space_char(s.last()) {
    } else {
        lemma_trail_spaces_bound(s.drop_last());
        assert forall|j: int| s.len() - trail_spaces(s) <= j < s.len() implies is_space_char(
            s[j],
        ) by {
            if j < s.len() - 1 {
                assert(s.drop_last()[j] == s[j]);
            }
        }
        if trail_spaces(s) < s.len() {
            assert(s.drop_last()[s.len() - trail_spaces(s) - 1] == s[s.len() - trail_spaces(s)
                - 1]);
        }
    }
}

/// Counting leading spaces is determined by any witness index `i` whose
/// prefix is all spaces and which itself is not a space (or is the end).
pub proof fn lemma_lead_spaces_is(s: Seq<char>, i: int)
    requires
        0 <= i <= s.len(),
        forall|j: int| 0 <= j < i ==> is_space_char(s[j]),
        i < s.len() ==> !is_space_char(s[i]),
    ensures
        lead_spaces(s) == i,
    decreases i,
{
    if i == 0 {
        if s.len() > 0 && is_space_char(s[0]) {
            lemma_lead_spaces_bound(s);
        }
    } else {
        assert(is_space_char(s[0]));
        assert forall|j: int| 0 <= j < i - 1 implies is_space_char(s.skip(1)[j]) by {
            assert(s.skip(1)[j] == s[j + 1]);
        }
        if i - 1 < s.skip(1).len() {
            assert(s.skip(1)[i - 1] == s[i]);
        }
        lemma_lead_spaces_is(s.skip(1), i - 1);
    }
}

pub proof fn lemma_trail_spaces_is(s: Seq<char>, k: int)
    requires
        0 <= k <= s.len(),
        forall|j: int| s.len() - k <= j < s.len() ==> is_space_char(s[j]),
        k < s.len() ==> !is_space_char(s[s.len() - k - 1]),
    ensures
        trail_spaces(s) == k,
    decreases k,
{
    if k == 0 {
        if s.len() > 0 && is_space_char(s.last()) {
            lemma_trail_spaces_bound(s);
        }
    } else {
        assert(is_space_char(s.last()));
        assert forall|j: int|
            s.drop_last().len() - (k - 1) <= j < s.drop_last().len() implies is_space_char(
            s.drop_last()[j],
        ) by {
            assert(s.drop_last()[j] == s[j]);
        }
        if k - 1 < s.drop_last().len() {
            assert(s.drop_last()[s.drop_last().len() - (k - 1) - 1] == s[s.len() - k - 1]);
        }
        lemma_trail_spaces_is(s.drop_last(), k - 1);
    }
}

pub fn exec_is_space(c: char) -> (r: bool)
    ensures
        r == is_space_char(c),
{
    c == ' ' || c == '\t' || c == '\n' || c == '\r' || c == '\u{0b}' || c == '\u{0c}'
        || c == '\u{85}' || c == '\u{a0}' || c == '\u{1680}' || ('\u{2000}' <= c && c
        <= '\u{200a}') || c == '\u{2028}' || c == '\u{2029}' || c == '\u{202f}' || c
        == '\u{205f}' || c == '\u{3000}'
}

pub fn exec_is_digit(c: char) -> (r: bool)
    ensures
        r == is_digit_char(c),
{
    '0' <= c && c <= '9'
}

pub fn exec_lower_char(c: char) -> (r: char)
    ensures
        r == lower_char(c),
{
    match c {
        'A' => 'a',
        'B' => 'b',
        'C' => 'c',
        'D' => 'd',
        'E' => 'e',
        'F' => 'f',
        'G' => 'g',
        'H' => 'h',
        'I' => 'i',
        'J' => 'j',
        'K' => 'k',
        'L' => 'l',
        'M' => 'm',
        'N' => 'n',
        'O' => 'o',
        'P' => 'p',
        'Q' => 'q',
        'R' => 'r',
        'S' => 's',
        'T' => 't',
        'U' => 'u',
        'V' => 'v',
        'W' => 'w',
        'X' => 'x',
        'Y' => 'y',
        'Z' => 'z',
        _ => c,
    }
}

/// The characters of `s`, as a vector.
pub fn str_chars(s: &str) -> (r: Vec<char>)
    ensures
        r@ == s@,
{
    let n = s.unicode_len();
    let mut out: Vec<char> = Vec::new();
    let mut i: usize = 0;
    while i < n
        invariant
            n == s@.len(),
            i <= n,
            out@ == s@.subrange(0, i as int),
        decreases n - i,
    {
        out.push(s.get_char(i));
        i += 1;
        proof {
            assert(out@ =~= s@.subrange(0, i as int));
        }
    }
    proof {
        assert(out@ =~= s@);
    }
    out
}

/// Relies on `String`'s `FromIterator<char>` impl: collecting a sequence of
/// characters yields the string of exactly those characters.
#[verifier::external_body]
pub fn chars_to_string(v: &Vec<char>) -> (r: String)
    ensures
        r@ == v@,
{
    v.iter().collect()
}

/// `s` trimmed and lower-cased (ASCII letters only), as a fresh vector.
pub fn trim_chars(cs: &Vec<char>) -> (r: Vec<char>)
    ensures
        r@ == trim_of(cs@),
{
    let n = cs.len();
    let mut start: usize = 0;
    while start < n && exec_is_space(cs[start])
        invariant
            n == cs@.len(),
            start <= n,
            forall|j: int| 0 <= j < start ==> is_space_char(cs@[j]),
        decreases n - start,
    {
        start += 1;
    }
    proof {
        lemma_lead_spaces_is(cs@, start as int);
    }
    if start == n {
        proof {
            assert(trim_of(cs@) =~= Seq::<char>::empty());
        }
        return Vec::new();
    }
    let mut end: usize = n;
    while end > start && exec_is_space(cs[end - 1])
        invariant
            n == cs@.len(),
            start <= end <= n,
            start < n,
            !is_space_char(cs@[start as int]),
            forall|j: int| end <= j < n ==> is_space_char(cs@[j]),
        decreases end,
    {
        end -= 1;
    }
    proof {
        assert(end > start);
        lemma_trail_spaces_is(cs@, n - end as int);
    }
    let mut out: Vec<char> = Vec::new();
    let mut i: usize = start;
    while i < end
        invariant
            start <= i <= end <= n,
            n == cs@.len(),
            out@ == cs@.subrange(start as int, i as int),
        decreases end - i,
    {
        out.push(cs[i]);
        i += 1;
        proof {
            assert(out@ =~= cs@.subrange(start as int, i as int));
        }
    }
    proof {
        assert(out@ =~= trim_of(cs@));
    }
    out
}

/// Lower-case every character of `cs` in a fresh vector.
pub fn lower_chars(cs: &Vec<char>) -> (r: Vec<char>)
    ensures
        r@ == lower_of(cs@),
{
    let mut out: Vec<char> = Vec::new();
    let mut i: usize = 0;
    while i < cs.len()
        invariant
            i <= cs@.len(),
            out@ == lower_of(cs@.subrange(0, i as int)),
        decreases cs@.len() - i,
    {
        out.push(exec_lower_char(cs[i]));
        i += 1;
        proof {
            assert(out@ =~= lower_of(cs@.subrange(0, i as int)));
        }
    }
    proof {
        assert(cs@.subrange(0, cs@.len() as int) =~= cs@);
    }
    out
}

/// Character-for-character equality of a vector against a string slice.
pub fn chars_eq_str(cs: &Vec<char>, t: &str) -> (r: bool)
    ensures
        r == (cs@ == t@),
{
    let m = t.unicode_len();
    if cs.len() != m {
        proof {
            assert(cs@ != t@);
        }
        return false;
    }
    let mut i: usize = 0;
    while i < m
        invariant
            m == t@.len() == cs@.len(),
            i <= m,
            forall|j: int| 0 <= j < i ==> cs@[j] == t@[j],
        decreases m - i,
    {
        if cs[i] != t.get_char(i) {
            return false;
        }
        i += 1;
    }
    proof {
        assert(cs@ =~= t@);
    }
    true
}

pub open spec fn all_digits(s: Seq<char>) -> bool {
    forall|i: int| 0 <= i < s.len() ==> is_digit_char(#[trigger] s[i])
}

/// The number denoted by a digit string (most significant first).
pub open spec fn digits_val_of(s: Seq<char>) -> int
    decreases s.len(),
{
    if s.len() == 0 {
        0
    } else {
        digits_val_of(s.drop_last()) * 10 + digit_val(s.last())
    }
}

pub open spec fn pow10(k: int) -> int
    decreases k,
{
    if k <= 0 {
        1
    } else {
        10 * pow10(k - 1)
    }
}

pub proof fn lemma_digits_val_upper(s: Seq<char>)
    requires
        all_digits(s),
    ensures
        0 <= digits_val_of(s) < pow10(s.len() as int),
    decreases s.len(),
{
    if s.len() > 0 {
        let rest = s.drop_last();
        assert(all_digits(rest)) by {
            assert(forall|i: int| 0 <= i < rest.len() ==> rest[i] == s[i]);
        }
        lemma_digits_val_upper(rest);
        assert(0 <= digit_val(s.last()) <= 9);
    }
}

proof fn lemma_digits_val_zeros(s: Seq<char>)
    requires
        forall|i: int| 0 <= i < s.len() ==> #[trigger] s[i] == '0',
    ensures
        digits_val_of(s) == 0,
    decreases s.len(),
{
    if s.len() > 0 {
        let rest = s.drop_last();
        assert(forall|i: int| 0 <= i < rest.len() ==> #[trigger] rest[i] == '0') by {
            assert(forall|i: int| 0 <= i < rest.len() ==> rest[i] == s[i]);
        }
        lemma_digits_val_zeros(rest);
    }
}

/// Leading zeros do not change the denoted number.
pub proof fn lemma_digits_val_skip_zeros(s: Seq<char>, k: int)
    requires
        0 <= k <= s.len(),
        forall|i: int| 0 <= i < k ==> #[trigger] s[i] == '0',
    ensures
        digits_val_of(s) == digits_val_of(s.skip(k)),
    decreases s.len(),
{
    if k == s.len() {
        lemma_digits_val_zeros(s);
        assert(s.skip(k) =~= Seq::<char>::empty());
    } else if s.len() > 0 {
        let rest = s.drop_last();
        assert(forall|i: int| 0 <= i < k ==> #[trigger] rest[i] == '0') by {
            assert(forall|i: int| 0 <= i < rest.len() ==> rest[i] == s[i]);
        }
        lemma_digits_val_skip_zeros(rest, k);
        assert(s.skip(k).drop_last() =~= rest.skip(k));
        assert(s.skip(k).last() == s.last());
    }
}

/// Parse the digit run `cs[lo..hi]` into an `i64`; `None` when the run is
/// empty, holds a non-digit, or denotes a number of more than eighteen
/// significant digits.
#[verifier::loop_isolation(false)]
pub fn digits_to_i64(cs: &Vec<char>, lo: usize, hi: usize) -> (r: Option<i64>)
    requires
        lo <= hi <= cs@.len(),
    ensures
        r is Some <==> lo < hi && all_digits(cs@.subrange(lo as int, hi as int)) && digits_val_of(
            cs@.subrange(lo as int, hi as int),
        ) < 1_000_000_000_000_000_000,
        r matches Some(v) ==> v == digits_val_of(cs@.subrange(lo as int, hi as int)) && 0 <= v
            < 1_000_000_000_000_000_000,
{
    let ghost sub = cs@.subrange(lo as int, hi as int);
    if lo >= hi {
        return None;
    }
    // Skip leading zeros to bound the significant width.
    let mut z: usize = lo;
    while z < hi && cs[z] == '0'
        invariant
            lo <= z <= hi <= cs@.len(),
            forall|i: int| lo <= i < z ==> #[trigger] cs@[i] == '0',
        decreases hi - z,
    {
        z += 1;
    }
    proof {
        assert(forall|i: int| 0 <= i < z - lo ==> #[trigger] sub[i] == '0');
        lemma_digits_val_skip_zeros(sub, z as int - lo);
        assert(sub.skip(z as int - lo) =~= cs@.subrange(z as int, hi as int));
    }
    let ghost sig = cs@.subrange(z as int, hi as int);
    if hi - z > 18 {
        // Either a non-digit fails the parse, or the number is too wide.
        let mut j: usize = z;
        while j < hi
            invariant
                z <= j <= hi <= cs@.len(),
                lo <= z,
                forall|i: int| z <= i < j ==> is_digit_char(#[trigger] cs@[i]),
            decreases hi - j,
        {
            if !exec_is_digit(cs[j]) {
                proof {
                    assert(sub.len() == hi - lo);
                    assert(sub[j as int - lo as int] == cs@[j as int]);
                    assert(!all_digits(sub));
                }
                return None;
            }
            j += 1;
        }
        proof {
            assert(all_digits(sig)) by {
                assert(forall|i: int| 0 <= i < sig.len() ==> sig[i] == cs@[z as int + i]);
            }
            assert(sig[0] != '0');
            assert(digits_val_of(sig) >= pow10(sig.len() as int - 1)) by {
                lemma_digits_val_lower(sig);
            }
            assert(pow10(18) == 1_000_000_000_000_000_000) by {
                reveal_with_fuel(pow10, 20);
            }
            lemma_pow10_mono(sig.len() as int - 1, 18);
        }
        return None;
    }
    let mut acc: i64 = 0;
    let mut j: usize = z;
    proof {
        assert(cs@.subrange(z as int, z as int) =~= Seq::<char>::empty());
    }
    while j < hi
        invariant
            z <= j <= hi <= cs@.len(),
            lo <= z,
            hi - z <= 18,
            all_digits(cs@.subrange(z as int, j as int)),
            acc == digits_val_of(cs@.subrange(z as int, j as int)),
            0 <= acc < pow10(j as int - z),
        decreases hi - j,
    {
        let c = cs[j];
        if !exec_is_digit(c) {
            proof {
                assert(sub.len() == hi - lo);
                assert(sub[j as int - lo as int] == cs@[j as int]);
                assert(!all_digits(sub));
            }
            return None;
        }
        proof {
            assert(cs@.subrange(z as int, j as int + 1).drop_last() =~= cs@.subrange(
                z as int,
                j as int,
            ));
            assert(cs@.subrange(z as int, j as int + 1).last() == cs@[j as int]);
            lemma_pow10_mono(18, j as int + 1 - z);
            assert(pow10(18) == 1_000_000_000_000_000_000) by {
                reveal_with_fuel(pow10, 20);
            }
        }
        acc = acc * 10 + ((c as u32) as i64 - 48);
        j += 1;
    }
    proof {
        assert(cs@.subrange(z as int, hi as int) == sig);
        assert forall|i: int| 0 <= i < sub.len() implies is_digit_char(#[trigger] sub[i]) by {
            assert(sub[i] == cs@[lo as int + i]);
            if lo as int + i >= z {
                assert(cs@.subrange(z as int, hi as int)[lo as int + i - z as int] == cs@[lo as int
                    + i]);
            }
        }
        assert(all_digits(sub));
        lemma_digits_val_upper(sig);
        lemma_pow10_mono(18, sig.len() as int);
        assert(pow10(18) == 1_000_000_000_000_000_000) by {
                reveal_with_fuel(pow10, 20);
            }
    }
    Some(acc)
}

pub proof fn lemma_pow10_mono(a: int, b: int)
    requires
        b <= a,
    ensures
        pow10(b) <= pow10(a),
        pow10(b) >= 1,
    decreases a - b,
{
    if b < a {
        lemma_pow10_mono(a - 1, b);
    } else {
        lemma_pow10_pos(b);
    }
}

proof fn lemma_pow10_pos(k: int)
    ensures
        pow10(k) >= 1,
    decreases k,
{
    if k > 0 {
        lemma_pow10_pos(k - 1);
    }
}

/// A nonzero leading digit puts the denoted number at or above
/// `pow10(len - 1)`.
pub proof fn lemma_digits_val_lower(s: Seq<char>)
    requires
        all_digits(s),
        s.len() > 0,
        s[0] != '0',
    ensures
        digits_val_of(s) >= pow10(s.len() as int - 1),
    decreases s.len(),
{
    if s.len() == 1 {
        assert(is_digit_char(s[0]));
        assert(digit_val(s[0]) >= 1);
        assert(s.drop_last() =~= Seq::<char>::empty());
        assert(digits_val_of(s.drop_last()) == 0);
        assert(s.last() == s[0]);
        assert(digits_val_of(s) == digit_val(s[0]));
        assert(pow10(0) == 1);
        assert(digits_val_of(s) >= pow10(s.len() as int - 1));
    } else {
        let rest = s.drop_last();
        assert(all_digits(rest) && rest[0] == s[0]) by {
            assert(forall|i: int| 0 <= i < rest.len() ==> rest[i] == s[i]);
        }
        lemma_digits_val_lower(rest);
        assert(is_digit_char(s.last()));
        assert(digit_val(s.last()) >= 0);
        assert(digits_val_of(s) == digits_val_of(rest) * 10 + digit_val(s.last()));
        assert(pow10(s.len() as int - 1) == 10 * pow10(s.len() as int - 2));
        assert(digits_val_of(rest) * 10 >= pow10(rest.len() as int - 1) * 10) by (nonlinear_arith)
            requires
                digits_val_of(rest) >= pow10(rest.len() as int - 1),
        ;
        assert(pow10(rest.len() as int - 1) == pow10(s.len() as int - 2));
        assert(digits_val_of(s) >= pow10(s.len() as int - 1));
    }
}

/// Whether `needle` occurs contiguously inside `hay`.
pub open spec fn contains_seq(hay: Seq<char>, needle: Seq<char>) -> bool {
    exists|i: int|
        0 <= i <= hay.len() - needle.len() && #[trigger] hay.subrange(i, i + needle.len())
            == needle
}

/// Substring search: whether `needle`'s characters occur contiguously in
/// `hay`.
#[verifier::loop_isolation(false)]
pub fn chars_contains(hay: &Vec<char>, needle: &Vec<char>) -> (r: bool)
    ensures
        r == contains_seq(hay@, needle@),
{
    let n = hay.len();
    let m = needle.len();
    if m > n {
        proof {
            assert(!contains_seq(hay@, needle@));
        }
        return false;
    }
    let mut i: usize = 0;
    while i <= n - m
        invariant
            0 <= i <= n - m + 1,
            m <= n == hay@.len(),
            m == needle@.len(),
            forall|p: int|
                0 <= p < i ==> #[trigger] hay@.subrange(p, p + m as int) != needle@,
        decreases n + 1 - i,
    {
        let mut j: usize = 0;
        let mut matched = true;
        while j < m
            invariant
                0 <= j <= m,
                i + m <= n,
                m == needle@.len(),
                n == hay@.len(),
                matched <==> (forall|q: int| 0 <= q < j ==> hay@[i + q] == needle@[q]),
            decreases m - j,
        {
            if hay[i + j] != needle[j] {
                matched = false;
                proof {
                    assert(hay@[i as int + j] != needle@[j as int]);
                }
                j = m;
            } else {
                j += 1;
            }
        }
        if matched {
            proof {
                assert(hay@.subrange(i as int, i as int + m as int) =~= needle@);
            }
            return true;
        }
        proof {
            let q = choose|q: int| 0 <= q < m && hay@[i + q] != needle@[q];
            assert(hay@.subrange(i as int, i as int + m as int)[q] == hay@[i + q]);
            assert(hay@.subrange(i as int, i as int + m as int) != needle@);
        }
        i += 1;
    }
    proof {
        assert(!contains_seq(hay@, needle@)) by {
            if contains_seq(hay@, needle@) {
                let p = choose|p: int|
                    0 <= p <= hay@.len() - needle@.len() && #[trigger] hay@.subrange(
                        p,
                        p + needle@.len(),
                    ) == needle@;
                assert(p < i);
            }
        }
    }
    false
}

pub open spec fn starts_with_of(s: Seq<char>, prefix: Seq<char>) -> bool {
    s.len() >= prefix.len() && s.take(prefix.len() as int) == prefix
}

/// Whether `s` begins with `prefix`, character for character.
pub fn str_starts_with(s: &str, prefix: &str) -> (r: bool)
    ensures
        r == starts_with_of(s@, prefix@),
{
    let n = s.unicode_len();
    let m = prefix.unicode_len();
    if n < m {
        return false;
    }
    let mut i: usize = 0;
    while i < m
        invariant
            m == prefix@.len() <= n == s@.len(),
            i <= m,
            forall|j: int| 0 <= j < i ==> s@[j] == prefix@[j],
        decreases m - i,
    {
        if s.get_char(i) != prefix.get_char(i) {
            proof {
                assert(s@.take(m as int)[i as int] == s@[i as int]);
            }
            return false;
        }
        i += 1;
    }
    proof {
        assert(s@.take(m as int) =~= prefix@);
    }
    true
}

/// Character-for-character equality of two string slices.
pub fn str_eq(a: &str, b: &str) -> (r: bool)
    ensures
        r == (a@ == b@),
{
    let n = a.unicode_len();
    let m = b.unicode_len();
    if n != m {
        proof {
            assert(a@ != b@);
        }
        return false;
    }
    let mut i: usize = 0;
    while i < n
        invariant
            n == a@.len() == b@.len(),
            i <= n,
            forall|j: int| 0 <= j < i ==> a@[j] == b@[j],
        decreases n - i,
    {
        if a.get_char(i) != b.get_char(i) {
            return false;
        }
        i += 1;
    }
    proof {
        assert(a@ =~= b@);
    }
    true
}

} // verus!
