//! Money text: integer minor units (cents) to and from decimal text.
//!
//! Decimal text is a presentation built strictly on top of the integer
//! values: rendering always emits the sign, the whole-unit digits and
//! exactly two fractional digits, and parsing accepts what rendering
//! emits, so the two round-trip exactly.

use vstd::prelude::*;

use crate::error::EngineError;
use crate::text::{
    all_digits, digits_to_i64, digits_val_of, digit_val, exec_is_digit, is_digit_char, str_chars,
    trim_chars, trim_of,
};

verus! {

pub open spec fn char_of_digit(d: int) -> char {
    if d == 0 {
        '0'
    } else if d == 1 {
        '1'
    } else if d == 2 {
        '2'
    } else if d == 3 {
        '3'
    } else if d == 4 {
        '4'
    } else if d == 5 {
        '5'
    } else if d == 6 {
        '6'
    } else if d == 7 {
        '7'
    } else if d == 8 {
        '8'
    } else {
        '9'
    }
}

pub fn exec_char_of_digit(d: i64) -> (r: char)
    requires
        0 <= d <= 9,
    ensures
        r == char_of_digit(d as int),
{
    if d == 0 {
        '0'
    } else if d == 1 {
        '1'
    } else if d == 2 {
        '2'
    } else if d == 3 {
        '3'
    } else if d == 4 {
        '4'
    } else if d == 5 {
        '5'
    } else if d == 6 {
        '6'
    } else if d == 7 {
        '7'
    } else if d == 8 {
        '8'
    } else {
        '9'
    }
}

/// The decimal digits of a nonnegative number, most significant first.
pub open spec fn dec_digits(n: int) -> Seq<char>
    decreases n,
{
    if n < 10 {
        seq![char_of_digit(n)]
    } else {
        dec_digits(n / 10).push(char_of_digit(n % 10))
    }
}

/// Cents rendered as decimal units text: sign, whole units, a point, and
/// exactly two fractional digits.
pub open spec fn yuan_text_of(cents: int) -> Seq<char> {
    let a = if cents < 0 {
        -cents
    } else {
        cents
    };
    let sign: Seq<char> = if cents < 0 {
        seq!['-']
    } else {
        Seq::empty()
    };
    sign + dec_digits(a / 100) + seq!['.', char_of_digit((a % 100) / 10), char_of_digit(a % 10)]
}

/// The digits of `n`, most significant first, as a vector.
#[verifier::loop_isolation(false)]
fn dec_digit_chars(n: i64) -> (r: Vec<char>)
    requires
        n >= 0,
    ensures
        r@ == dec_digits(n as int),
{
    let mut rev: Vec<char> = Vec::new();
    let mut m: i64 = n;
    while m >= 10
        invariant
            m >= 0,
            dec_digits(n as int) == dec_digits(m as int) + rev@.reverse(),
        decreases m,
    {
        let c = exec_char_of_digit(m % 10);
        proof {
            let old_rev = rev@;
            assert(dec_digits(m as int) == dec_digits(m as int / 10).push(
                char_of_digit(m as int % 10),
            ));
            assert(old_rev.push(char_of_digit(m as int % 10)).reverse() =~= seq![
                char_of_digit(m as int % 10),
            ] + old_rev.reverse());
            assert(dec_digits(m as int / 10).push(char_of_digit(m as int % 10))
                + old_rev.reverse() =~= dec_digits(m as int / 10) + (old_rev.push(
                char_of_digit(m as int % 10),
            ).reverse()));
        }
        rev.push(c);
        m = m / 10;
    }
    let c = exec_char_of_digit(m);
    proof {
        assert(dec_digits(m as int) == seq![char_of_digit(m as int)]);
    }
    // Most significant digit, then the collected lower digits in reverse.
    let mut out: Vec<char> = Vec::new();
    out.push(c);
    let mut i: usize = rev.len();
    while i > 0
        invariant
            i <= rev@.len(),
            out@ == seq![char_of_digit(m as int)] + rev@.reverse().take(rev@.len() - i),
        decreases i,
    {
        i -= 1;
        out.push(rev[i]);
        proof {
            assert(rev@.reverse()[rev@.len() - i - 1] == rev@[i as int]);
            assert(out@ =~= seq![char_of_digit(m as int)] + rev@.reverse().take(
                rev@.len() - i,
            ));
        }
    }
    proof {
        assert(rev@.reverse().take(rev@.len() as int) =~= rev@.reverse());
        assert(out@ =~= dec_digits(m as int) + rev@.reverse());
    }
    out
}

/// Render cents as decimal units text (e.g. `-1234` becomes `-12.34`).
pub fn cents_to_yuan_text(cents: i64) -> (r: String)
    requires
        cents > i64::MIN,
    ensures
        r@ == yuan_text_of(cents as int),
{
    let a: i64 = if cents < 0 {
        -cents
    } else {
        cents
    };
    let mut out: Vec<char> = Vec::new();
    if cents < 0 {
        out.push('-');
    }
    let whole = dec_digit_chars(a / 100);
    let mut k: usize = 0;
    while k < whole.len()
        invariant
            k <= whole@.len(),
            whole@ == dec_digits(a as int / 100),
            out@ == (if cents < 0 {
                seq!['-']
            } else {
                Seq::<char>::empty()
            }) + whole@.take(k as int),
        decreases whole@.len() - k,
    {
        out.push(whole[k]);
        k += 1;
        proof {
            assert(out@ =~= (if cents < 0 {
                seq!['-']
            } else {
                Seq::<char>::empty()
            }) + whole@.take(k as int));
        }
    }
    out.push('.');
    out.push(exec_char_of_digit((a % 100) / 10));
    out.push(exec_char_of_digit(a % 10));
    proof {
        assert(whole@.take(whole@.len() as int) =~= whole@);
        assert(out@ =~= yuan_text_of(cents as int));
    }
    crate::text::chars_to_string(&out)
}

/// Render cents as decimal units text: the same exact rendering as
/// `cents_to_yuan_text`, under the statement-import name.
pub fn format_amount_cents(cents: i64) -> (r: String)
    requires
        cents > i64::MIN,
    ensures
        r@ == yuan_text_of(cents as int),
{
    cents_to_yuan_text(cents)
}

proof fn lemma_char_of_digit_facts(d: int)
    requires
        0 <= d <= 9,
    ensures
        is_digit_char(char_of_digit(d)),
        digit_val(char_of_digit(d)) == d,
        !is_amount_noise(char_of_digit(d)),
        char_of_digit(d) != '.' && char_of_digit(d) != '-' && char_of_digit(d) != '+',
        !crate::text::is_space_char(char_of_digit(d)),
{
}

proof fn lemma_dec_digits_shape(n: int)
    requires
        n >= 0,
    ensures
        dec_digits(n).len() >= 1,
        all_digits(dec_digits(n)),
        digits_val_of(dec_digits(n)) == n,
        forall|i: int|
            0 <= i < dec_digits(n).len() ==> is_digit_char(#[trigger] dec_digits(n)[i])
                && !is_amount_noise(dec_digits(n)[i]) && dec_digits(n)[i] != '.' && dec_digits(
                n,
            )[i] != '-' && dec_digits(n)[i] != '+' && !crate::text::is_space_char(
                dec_digits(n)[i],
            ),
    decreases n,
{
    if n < 10 {
        lemma_char_of_digit_facts(n);
        let s1 = dec_digits(n);
        assert(s1 == seq![char_of_digit(n)]);
        assert(s1.drop_last() =~= Seq::<char>::empty());
        assert(digits_val_of(s1.drop_last()) == 0) by {
            assert(s1.drop_last().len() == 0);
        }
        assert(digits_val_of(s1) == digit_val(char_of_digit(n)));
    } else {
        lemma_dec_digits_shape(n / 10);
        lemma_char_of_digit_facts(n % 10);
        let prev = dec_digits(n / 10);
        let whole = dec_digits(n);
        assert(whole == prev.push(char_of_digit(n % 10)));
        assert(whole.drop_last() =~= prev);
        assert(whole.last() == char_of_digit(n % 10));
        assert(digits_val_of(whole) == digits_val_of(prev) * 10 + digit_val(char_of_digit(n % 10)));
        assert(n == (n / 10) * 10 + n % 10) by (nonlinear_arith);
        assert forall|i: int| 0 <= i < whole.len() implies is_digit_char(#[trigger] whole[i])
            && !is_amount_noise(whole[i]) && whole[i] != '.' && whole[i] != '-' && whole[i] != '+'
            && !crate::text::is_space_char(whole[i]) by {
            if i < prev.len() {
                assert(whole[i] == prev[i]);
            }
        }
    }
}

proof fn lemma_strip_noise_identity(s: Seq<char>)
    requires
        forall|i: int| 0 <= i < s.len() ==> !is_amount_noise(#[trigger] s[i]),
    ensures
        strip_amount_noise(s) == s,
    decreases s.len(),
{
    if s.len() > 0 {
        let rest = s.drop_last();
        assert(forall|i: int| 0 <= i < rest.len() ==> !is_amount_noise(#[trigger] rest[i])) by {
            assert(forall|i: int| 0 <= i < rest.len() ==> rest[i] == s[i]);
        }
        lemma_strip_noise_identity(rest);
        assert(strip_amount_noise(s) =~= s);
    }
}

/// Law: decimal units text is a faithful presentation of integer cents —
/// parsing what rendering emits gives back exactly the same cents.
#[verifier::rlimit(100)]
pub proof fn lemma_yuan_text_round_trip(cents: int)
    requires
        -0x7fff_ffff_ffff_ffff <= cents <= 0x7fff_ffff_ffff_ffff,
    ensures
        amount_cents_of(yuan_text_of(cents)) == Some(cents),
{
    let a = if cents < 0 {
        -cents
    } else {
        cents
    };
    let sign: Seq<char> = if cents < 0 {
        seq!['-']
    } else {
        Seq::empty()
    };
    let whole = dec_digits(a / 100);
    let fr = seq!['.', char_of_digit((a % 100) / 10), char_of_digit(a % 10)];
    let t = yuan_text_of(cents);
    assert(t == sign + whole + fr);
    vstd::arithmetic::div_mod::lemma_fundamental_div_mod(a, 100);
    assert(0 <= a % 100 < 100) by (nonlinear_arith)
        requires
            a >= 0,
    ;
    lemma_dec_digits_shape(a / 100);
    lemma_char_of_digit_facts((a % 100) / 10);
    lemma_char_of_digit_facts(a % 10);

    // Each character of the rendering: sign, digits, one point, digits.
    let dl = whole.len() as int;
    let off = sign.len() as int;
    assert forall|i: int| 0 <= i < t.len() implies !is_amount_noise(#[trigger] t[i])
        && !crate::text::is_space_char(t[i]) by {
        if i < off {
            assert(t[i] == '-');
        } else if i < off + dl {
            assert(t[i] == whole[i - off]);
        } else {
            assert(t[i] == fr[i - off - dl]);
            if i == off + dl {
                assert(t[i] == '.');
            }
        }
    }
    // Trimming and noise-stripping leave the text unchanged.
    crate::text::lemma_lead_spaces_is(t, 0);
    crate::text::lemma_trail_spaces_is(t, 0);
    assert(trim_of(t) =~= t);
    lemma_strip_noise_identity(t);

    // Parse structure: optional sign, then the digits around one point.
    let u = if t[0] == '-' || t[0] == '+' {
        t.skip(1)
    } else {
        t
    };
    assert(t[0] == '-' <==> cents < 0) by {
        if cents >= 0 {
            assert(t[0] == whole[0]);
        }
    }
    assert(u =~= whole + fr);
    assert forall|j: int| 0 <= j < dl implies u[j] != '.' by {
        assert(u[j] == whole[j]);
    }
    assert(u[dl] == '.');
    lemma_first_dot_is(u, 0, dl);
    assert(first_dot_from(u, 0) == dl);
    let int_part = u.take(dl);
    assert(int_part =~= whole);
    let frac = u.skip(dl + 1);
    assert(frac =~= seq![char_of_digit((a % 100) / 10), char_of_digit(a % 10)]);
    assert(all_digits(frac));
    assert(!frac.contains('.')) by {
        if frac.contains('.') {
            let j = choose|j: int| 0 <= j < frac.len() && frac[j] == '.';
        }
    }
    // The two fraction digits read back as `a % 100`.
    let frac_val = digits_val_of(frac);
    assert(frac.drop_last() =~= seq![char_of_digit((a % 100) / 10)]);
    assert(frac.drop_last().drop_last() =~= Seq::<char>::empty());
    assert(frac.last() == char_of_digit(a % 10));
    assert(frac.drop_last().last() == char_of_digit((a % 100) / 10));
    assert(digits_val_of(frac.drop_last().drop_last()) == 0) by {
        assert(frac.drop_last().drop_last().len() == 0);
    }
    assert(digits_val_of(frac.drop_last()) == digit_val(char_of_digit((a % 100) / 10)));
    assert(digits_val_of(frac) == digits_val_of(frac.drop_last()) * 10 + digit_val(frac.last()));
    assert(frac_val == ((a % 100) / 10) * 10 + a % 10);
    vstd::arithmetic::div_mod::lemma_fundamental_div_mod(a % 100, 10);
    assert((a % 100) % 10 == a % 10) by {
        vstd::arithmetic::div_mod::lemma_mod_mod(a, 10, 10);
    }
    assert(frac_val == a % 100);
    // The whole-unit digits read back as `a / 100`, and the pieces
    // recombine into exactly the starting cents.
    assert(digits_val_of(int_part) == a / 100);
    let v = digits_val_of(int_part) * 100 + frac_val;
    assert(v == a);
    assert(v <= i64::MAX);
    if cents < 0 {
        assert(amount_cents_of_stripped(t) == Some(-a));
    } else {
        assert(amount_cents_of_stripped(t) == Some(a));
    }
}

/// Characters removed before an amount is parsed: grouping commas,
/// currency marks, and the unit word.
pub open spec fn is_amount_noise(c: char) -> bool {
    c == ',' || c == '￥' || c == '¥' || c == '元' || c == ' '
}

pub open spec fn strip_amount_noise(s: Seq<char>) -> Seq<char>
    decreases s.len(),
{
    if s.len() == 0 {
        Seq::empty()
    } else {
        let rest = strip_amount_noise(s.drop_last());
        if is_amount_noise(s.last()) {
            rest
        } else {
            rest.push(s.last())
        }
    }
}

/// Index of the first decimal point in `s`, or `s.len()` if none.
pub open spec fn first_dot_from(s: Seq<char>, i: int) -> int
    decreases s.len() - i,
{
    if i < 0 || i >= s.len() {
        s.len() as int
    } else if s[i] == '.' {
        i
    } else {
        first_dot_from(s, i + 1)
    }
}

/// The cents denoted by already-stripped amount text: an optional sign,
/// integer digits (empty reads as zero), and at most two fractional
/// digits; the magnitude must fit in an `i64` of cents. An empty stripped
/// text reads as zero.
pub open spec fn amount_cents_of_stripped(s: Seq<char>) -> Option<int> {
    if s.len() == 0 {
        Some(0)
    } else {
        let neg = s[0] == '-';
        let t = if s[0] == '-' || s[0] == '+' {
            s.skip(1)
        } else {
            s
        };
        if t.len() == 0 {
            None
        } else {
            let d = first_dot_from(t, 0);
            let int_part = t.take(d);
            let frac = if d < t.len() {
                t.skip(d + 1)
            } else {
                Seq::empty()
            };
            if !all_digits(int_part) || !all_digits(frac) || frac.len() > 2 || frac.contains('.') {
                None
            } else {
                let frac_val = if frac.len() == 0 {
                    0
                } else if frac.len() == 1 {
                    digits_val_of(frac) * 10
                } else {
                    digits_val_of(frac)
                };
                let v = digits_val_of(int_part) * 100 + frac_val;
                if v > i64::MAX {
                    None
                } else if neg {
                    Some(-v)
                } else {
                    Some(v)
                }
            }
        }
    }
}

/// The cents denoted by raw amount text, after trimming and stripping
/// grouping/currency noise.
pub open spec fn amount_cents_of(s: Seq<char>) -> Option<int> {
    amount_cents_of_stripped(strip_amount_noise(trim_of(s)))
}

#[verifier::loop_isolation(false)]
fn exec_strip_amount_noise(cs: &Vec<char>) -> (r: Vec<char>)
    ensures
        r@ == strip_amount_noise(cs@),
{
    let mut out: Vec<char> = Vec::new();
    let mut i: usize = 0;
    proof {
        assert(strip_amount_noise(cs@.take(0)) =~= Seq::<char>::empty());
    }
    while i < cs.len()
        invariant
            i <= cs@.len(),
            out@ == strip_amount_noise(cs@.take(i as int)),
        decreases cs@.len() - i,
    {
        let c = cs[i];
        proof {
            assert(cs@.take(i as int + 1).drop_last() =~= cs@.take(i as int));
            assert(cs@.take(i as int + 1).last() == cs@[i as int]);
        }
        if !(c == ',' || c == '￥' || c == '¥' || c == '元' || c == ' ') {
            out.push(c);
        }
        i += 1;
    }
    proof {
        assert(cs@.take(cs@.len() as int) =~= cs@);
    }
    out
}

proof fn lemma_first_dot_is(s: Seq<char>, i: int, w: int)
    requires
        0 <= i <= w <= s.len(),
        forall|j: int| i <= j < w ==> s[j] != '.',
        w < s.len() ==> s[w] == '.',
    ensures
        first_dot_from(s, i) == if w < s.len() {
            w
        } else {
            s.len() as int
        },
    decreases w - i,
{
    if i < w {
        lemma_first_dot_is(s, i + 1, w);
    }
}

/// Parse amount text into cents. Accepts an optional sign, grouping
/// commas, currency marks (`￥`, `¥`, `元`), spaces, and at most two
/// fractional digits; blank text reads as zero cents. Every malformed or
/// out-of-range amount is a `Validation` failure.
#[verifier::loop_isolation(false)]
pub fn parse_amount_to_cents(raw: &str) -> (r: Result<i64, EngineError>)
    ensures
        r matches Ok(v) ==> amount_cents_of(raw@) == Some(v as int),
        r is Err <==> amount_cents_of(raw@) is None,
        r matches Err(e) ==> e == EngineError::Validation,
{
    let cs = str_chars(raw);
    let trimmed = trim_chars(&cs);
    let s = exec_strip_amount_noise(&trimmed);
    parse_stripped_amount(&s)
}

/// Parse statement amount text into cents: the same grammar, but only
/// grouping commas are stripped (after trimming); currency marks are not
/// accepted.
#[verifier::loop_isolation(false)]
pub fn parse_amount_text_to_cents(raw: &str) -> (r: Result<i64, EngineError>)
    ensures
        r matches Ok(v) ==> amount_cents_of_stripped(strip_commas(trim_of(raw@))) == Some(v as int),
        r is Err <==> amount_cents_of_stripped(strip_commas(trim_of(raw@))) is None,
        r matches Err(e) ==> e == EngineError::Validation,
{
    let cs = str_chars(raw);
    let trimmed = trim_chars(&cs);
    let s = exec_strip_commas(&trimmed);
    parse_stripped_amount(&s)
}

pub open spec fn strip_commas(s: Seq<char>) -> Seq<char>
    decreases s.len(),
{
    if s.len() == 0 {
        Seq::empty()
    } else {
        let rest = strip_commas(s.drop_last());
        if s.last() == ',' {
            rest
        } else {
            rest.push(s.last())
        }
    }
}

#[verifier::loop_isolation(false)]
fn exec_strip_commas(cs: &Vec<char>) -> (r: Vec<char>)
    ensures
        r@ == strip_commas(cs@),
{
    let mut out: Vec<char> = Vec::new();
    let mut i: usize = 0;
    proof {
        assert(strip_commas(cs@.take(0)) =~= Seq::<char>::empty());
    }
    while i < cs.len()
        invariant
            i <= cs@.len(),
            out@ == strip_commas(cs@.take(i as int)),
        decreases cs@.len() - i,
    {
        let c = cs[i];
        proof {
            assert(cs@.take(i as int + 1).drop_last() =~= cs@.take(i as int));
            assert(cs@.take(i as int + 1).last() == cs@[i as int]);
        }
        if c != ',' {
            out.push(c);
        }
        i += 1;
    }
    proof {
        assert(cs@.take(cs@.len() as int) =~= cs@);
    }
    out
}

#[verifier::loop_isolation(false)]
#[verifier::rlimit(100)]
fn parse_stripped_amount(s: &Vec<char>) -> (r: Result<i64, EngineError>)
    ensures
        r matches Ok(v) ==> amount_cents_of_stripped(s@) == Some(v as int),
        r is Err <==> amount_cents_of_stripped(s@) is None,
        r matches Err(e) ==> e == EngineError::Validation,
{
    if s.len() == 0 {
        return Ok(0);
    }
    let neg = s[0] == '-';
    let start: usize = if s[0] == '-' || s[0] == '+' {
        1
    } else {
        0
    };
    let ghost t = if s@[0] == '-' || s@[0] == '+' {
        s@.skip(1)
    } else {
        s@
    };
    proof {
        assert(t =~= s@.subrange(start as int, s@.len() as int));
    }
    if s.len() == start {
        return Err(EngineError::Validation);
    }
    // Find the first decimal point.
    let n = s.len();
    let mut d: usize = start;
    while d < n && s[d] != '.'
        invariant
            start <= d <= n == s@.len(),
            forall|j: int| start <= j < d ==> s@[j] != '.',
        decreases n - d,
    {
        d += 1;
    }
    proof {
        assert(forall|j: int| 0 <= j < d - start ==> t[j] == s@[start + j]);
        lemma_first_dot_is(t, 0, d as int - start as int);
        if d < n {
            assert(t[d as int - start as int] == s@[d as int]);
        }
        assert(first_dot_from(t, 0) == d - start);
        assert(t.take(d as int - start as int) =~= s@.subrange(start as int, d as int));
    }
    // Integer part digits.
    let int_val: i64 = if d == start {
        proof {
            assert(t.take(0) =~= Seq::<char>::empty());
        }
        0
    } else {
        match digits_to_i64(s, start, d) {
            Some(v) => v,
            None => {
                proof {
                    let ip = s@.subrange(start as int, d as int);
                    if all_digits(ip) {
                        assert(digits_val_of(ip) >= 1_000_000_000_000_000_000);
                        assert(digits_val_of(ip) * 100 >= 100_000_000_000_000_000_000)
                            by (nonlinear_arith)
                            requires
                                digits_val_of(ip) >= 1_000_000_000_000_000_000,
                        ;
                        assert(digits_val_of(ip) * 100 + 0 > i64::MAX);
                        let frac = if (d as int - start as int) < t.len() {
                            t.skip(d as int - start as int + 1)
                        } else {
                            Seq::<char>::empty()
                        };
                        if all_digits(frac) && frac.len() <= 2 && !frac.contains('.') {
                            let fv = if frac.len() == 0 {
                                0
                            } else if frac.len() == 1 {
                                digits_val_of(frac) * 10
                            } else {
                                digits_val_of(frac)
                            };
                            crate::text::lemma_digits_val_upper(frac);
                            assert(fv >= 0);
                        }
                    }
                }
                return Err(EngineError::Validation);
            },
        }
    };
    // Fractional part: at most two digits, no second point.
    let frac_val: i64 = if d >= n {
        proof {
            assert((if (d as int - start as int) < t.len() {
                t.skip(d as int - start as int + 1)
            } else {
                Seq::<char>::empty()
            }) =~= Seq::<char>::empty());
        }
        0
    } else {
        let flen = n - d - 1;
        let ghost frac = t.skip(d as int - start as int + 1);
        proof {
            assert(frac =~= s@.subrange(d as int + 1, n as int));
        }
        if flen > 2 {
            proof {
                if all_digits(frac) && !frac.contains('.') {
                    assert(frac.len() > 2);
                }
            }
            return Err(EngineError::Validation);
        }
        if flen == 0 {
            proof {
                assert(frac =~= Seq::<char>::empty());
            }
            0
        } else {
            // A second point inside the fraction is malformed.
            let mut k: usize = d + 1;
            let mut ok = true;
            let mut acc: i64 = 0;
            while k < n
                invariant
                    d + 1 <= k <= n == s@.len(),
                    n - d - 1 <= 2,
                    forall|j: int| d + 1 <= j < k ==> is_digit_char(s@[j]) && s@[j] != '.',
                    acc == digits_val_of(s@.subrange(d as int + 1, k as int)),
                    0 <= acc,
                    k - d - 1 == 0 ==> acc == 0,
                    k - d - 1 == 1 ==> acc <= 9,
                    k - d - 1 == 2 ==> acc <= 99,
                decreases n - k,
            {
                let c = s[k];
                if c == '.' {
                    proof {
                        assert(frac[k as int - (d as int + 1)] == s@[k as int]);
                        assert(frac.contains('.'));
                    }
                    return Err(EngineError::Validation);
                }
                if !exec_is_digit(c) {
                    proof {
                        assert(frac[k as int - (d as int + 1)] == s@[k as int]);
                        assert(!all_digits(frac));
                    }
                    return Err(EngineError::Validation);
                }
                proof {
                    assert(s@.subrange(d as int + 1, k as int + 1).drop_last() =~= s@.subrange(
                        d as int + 1,
                        k as int,
                    ));
                    assert(s@.subrange(d as int + 1, k as int + 1).last() == s@[k as int]);
                    assert(digit_val(s@[k as int]) <= 9);
                }
                acc = acc * 10 + ((c as u32) as i64 - 48);
                k += 1;
            }
            proof {
                assert(s@.subrange(d as int + 1, n as int) == frac);
                assert(all_digits(frac));
                assert(!frac.contains('.')) by {
                    if frac.contains('.') {
                        let j = choose|j: int| 0 <= j < frac.len() && frac[j] == '.';
                        assert(frac[j] == s@[d + 1 + j]);
                    }
                }
            }
            if flen == 1 {
                acc * 10
            } else {
                acc
            }
        }
    };
    // Combine; the magnitude must fit in an i64 of cents.
    let total: i128 = (int_val as i128) * 100 + (frac_val as i128);
    if total > i64::MAX as i128 {
        return Err(EngineError::Validation);
    }
    let v: i64 = total as i64;
    if neg {
        Ok(-v)
    } else {
        Ok(v)
    }
}

} // verus!
