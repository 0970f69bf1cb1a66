//! Statement-text normalization: whitespace collapsing, cell cleaning,
//! key normalization, and the small classification helpers the statement
//! importers share.

use vstd::prelude::*;

use crate::text::{
    chars_to_string, exec_is_space, is_digit_char, is_space_char, lower_char, str_chars, str_eq,
    trim_chars, trim_of,
};

verus! {

/// `s` with every whitespace run replaced by a single space, starting at
/// index `i`; `prev_space` records whether a space was just emitted.
pub open spec fn collapse_from(s: Seq<char>, i: int, prev_space: bool) -> Seq<char>
    decreases s.len() - i,
{
    if i < 0 || i >= s.len() {
        Seq::empty()
    } else if is_space_char(s[i]) {
        if prev_space {
            collapse_from(s, i + 1, true)
        } else {
            seq![' '] + collapse_from(s, i + 1, true)
        }
    } else {
        seq![s[i]] + collapse_from(s, i + 1, false)
    }
}

/// Trimmed text with inner whitespace runs collapsed to single spaces.
pub open spec fn squeezed_of(s: Seq<char>) -> Seq<char> {
    collapse_from(trim_of(s), 0, false)
}

#[verifier::loop_isolation(false)]
fn collapse_ws(cs: &Vec<char>) -> (r: Vec<char>)
    ensures
        r@ == collapse_from(cs@, 0, false),
{
    let mut out: Vec<char> = Vec::new();
    let mut i: usize = 0;
    let mut prev_space = false;
    while i < cs.len()
        invariant
            i <= cs@.len(),
            collapse_from(cs@, 0, false) == out@ + collapse_from(cs@, i as int, prev_space),
        decreases cs@.len() - i,
    {
        let c = cs[i];
        if exec_is_space(c) {
            if !prev_space {
                out.push(' ');
                proof {
                    assert(collapse_from(cs@, i as int, false) == seq![' '] + collapse_from(
                        cs@,
                        i as int + 1,
                        true,
                    ));
                    assert(out@ + collapse_from(cs@, i as int + 1, true) =~= out@.drop_last() + (
                    seq![' '] + collapse_from(cs@, i as int + 1, true)));
                }
            }
            prev_space = true;
        } else {
            out.push(c);
            proof {
                assert(collapse_from(cs@, i as int, prev_space) == seq![cs@[i as int]]
                    + collapse_from(cs@, i as int + 1, false));
                assert(out@ + collapse_from(cs@, i as int + 1, false) =~= out@.drop_last() + (seq![
                    cs@[i as int],
                ] + collapse_from(cs@, i as int + 1, false)));
            }
            prev_space = false;
        }
        i += 1;
    }
    proof {
        assert(collapse_from(cs@, cs@.len() as int, prev_space) =~= Seq::<char>::empty());
        assert(out@ + Seq::<char>::empty() =~= out@);
    }
    out
}

/// Trim text and collapse inner whitespace runs to single spaces.
pub fn trim_text(s: &str) -> (r: String)
    ensures
        r@ == squeezed_of(s@),
{
    let cs = str_chars(s);
    let t = trim_chars(&cs);
    let sq = collapse_ws(&t);
    chars_to_string(&sq)
}

/// One raw statement line, trimmed with whitespace runs collapsed.
pub fn normalize_line(raw: &str) -> (r: String)
    ensures
        r@ == squeezed_of(raw@),
{
    trim_text(raw)
}

/// A counterparty string normalizes exactly like a statement line.
pub fn normalize_counterparty(text: &str) -> (r: String)
    ensures
        r@ == squeezed_of(text@),
{
    normalize_line(text)
}

/// Leading byte-order marks of a trimmed cell.
pub open spec fn lead_boms(s: Seq<char>) -> int
    decreases s.len(),
{
    if s.len() == 0 || s[0] != '\u{feff}' {
        0
    } else {
        1 + lead_boms(s.skip(1))
    }
}

/// A trimmed cell: trim, drop leading byte-order marks, trim again.
pub open spec fn trim_cell_of(s: Seq<char>) -> Seq<char> {
    trim_of(trim_of(s).skip(lead_boms(trim_of(s))))
}

proof fn lemma_lead_boms_is(s: Seq<char>, i: int)
    requires
        0 <= i <= s.len(),
        forall|j: int| 0 <= j < i ==> s[j] == '\u{feff}',
        i < s.len() ==> s[i] != '\u{feff}',
    ensures
        lead_boms(s) == i,
    decreases i,
{
    if i == 0 {
    } else {
        assert(s[0] == '\u{feff}');
        assert forall|j: int| 0 <= j < i - 1 implies s.skip(1)[j] == '\u{feff}' by {
            assert(s.skip(1)[j] == s[j + 1]);
        }
        if i - 1 < s.skip(1).len() {
            assert(s.skip(1)[i - 1] == s[i]);
        }
        lemma_lead_boms_is(s.skip(1), i - 1);
    }
}

/// Trim a spreadsheet cell: whitespace and leading byte-order marks.
#[verifier::loop_isolation(false)]
pub fn trim_cell(text: &str) -> (r: String)
    ensures
        r@ == trim_cell_of(text@),
{
    let cs = str_chars(text);
    let t = trim_chars(&cs);
    let mut b: usize = 0;
    while b < t.len() && t[b] == '\u{feff}'
        invariant
            b <= t@.len(),
            forall|j: int| 0 <= j < b ==> t@[j] == '\u{feff}',
        decreases t@.len() - b,
    {
        b += 1;
    }
    proof {
        lemma_lead_boms_is(t@, b as int);
    }
    let mut rest: Vec<char> = Vec::new();
    let mut i: usize = b;
    while i < t.len()
        invariant
            b <= i <= t@.len(),
            rest@ == t@.subrange(b as int, i as int),
        decreases t@.len() - i,
    {
        rest.push(t[i]);
        i += 1;
        proof {
            assert(rest@ =~= t@.subrange(b as int, i as int));
        }
    }
    proof {
        assert(rest@ =~= t@.skip(b as int));
    }
    let out = trim_chars(&rest);
    chars_to_string(&out)
}

/// Whitespace removed outright (for key normalization).
pub open spec fn without_spaces(s: Seq<char>) -> Seq<char>
    decreases s.len(),
{
    if s.len() == 0 {
        Seq::empty()
    } else {
        let rest = without_spaces(s.drop_last());
        if is_space_char(s.last()) {
            rest
        } else {
            rest.push(s.last())
        }
    }
}

/// Normalize a header key: trim the cell, lower-case it, and remove all
/// whitespace.
#[verifier::loop_isolation(false)]
pub fn normalize_key(key: &str) -> (r: String)
    ensures
        r@ == without_spaces(trim_cell_of(key@).map_values(|c: char| lower_char(c))),
{
    let cell = trim_cell(key);
    let cs = str_chars(cell.as_str());
    let low = crate::text::lower_chars(&cs);
    let mut out: Vec<char> = Vec::new();
    let mut i: usize = 0;
    proof {
        assert(without_spaces(low@.take(0)) =~= Seq::<char>::empty());
    }
    while i < low.len()
        invariant
            i <= low@.len(),
            out@ == without_spaces(low@.take(i as int)),
        decreases low@.len() - i,
    {
        let c = low[i];
        proof {
            assert(low@.take(i as int + 1).drop_last() =~= low@.take(i as int));
            assert(low@.take(i as int + 1).last() == low@[i as int]);
        }
        if !exec_is_space(c) {
            out.push(c);
        }
        i += 1;
    }
    proof {
        assert(low@.take(low@.len() as int) =~= low@);
        assert(low@ == crate::text::lower_of(cell@));
    }
    chars_to_string(&out)
}

/// The identifier quoted for embedding: wrapped in double quotes, inner
/// double quotes doubled.
pub open spec fn quoted_of(s: Seq<char>) -> Seq<char>
    decreases s.len(),
{
    if s.len() == 0 {
        Seq::empty()
    } else {
        let rest = quoted_of(s.drop_last());
        if s.last() == '"' {
            rest + seq!['"', '"']
        } else {
            rest.push(s.last())
        }
    }
}

/// Quote an identifier: `"` around it, inner `"` doubled.
#[verifier::loop_isolation(false)]
pub fn quote_ident(name: &str) -> (r: String)
    ensures
        r@ == seq!['"'] + quoted_of(name@) + seq!['"'],
{
    let cs = str_chars(name);
    let mut out: Vec<char> = Vec::new();
    out.push('"');
    let mut i: usize = 0;
    proof {
        assert(quoted_of(cs@.take(0)) =~= Seq::<char>::empty());
        assert(out@ =~= seq!['"'] + quoted_of(cs@.take(0)));
    }
    while i < cs.len()
        invariant
            i <= cs@.len(),
            out@ == seq!['"'] + quoted_of(cs@.take(i as int)),
        decreases cs@.len() - i,
    {
        let c = cs[i];
        proof {
            assert(cs@.take(i as int + 1).drop_last() =~= cs@.take(i as int));
            assert(cs@.take(i as int + 1).last() == cs@[i as int]);
        }
        if c == '"' {
            out.push('"');
            out.push('"');
        } else {
            out.push(c);
        }
        i += 1;
        proof {
            assert(out@ =~= seq!['"'] + quoted_of(cs@.take(i as int)));
        }
    }
    out.push('"');
    proof {
        assert(cs@.take(cs@.len() as int) =~= cs@);
        assert(out@ =~= seq!['"'] + quoted_of(cs@) + seq!['"']);
    }
    chars_to_string(&out)
}

/// Strict lexicographic order on character sequences; for ISO date text
/// this coincides with date order.
pub open spec fn lex_lt(a: Seq<char>, b: Seq<char>) -> bool
    decreases a.len(),
{
    if b.len() == 0 {
        false
    } else if a.len() == 0 {
        true
    } else if a[0] != b[0] {
        (a[0] as int) < (b[0] as int)
    } else {
        lex_lt(a.skip(1), b.skip(1))
    }
}

#[verifier::loop_isolation(false)]
fn exec_lex_lt(a: &str, b: &str) -> (r: bool)
    ensures
        r == lex_lt(a@, b@),
{
    let na = a.unicode_len();
    let nb = b.unicode_len();
    let mut i: usize = 0;
    proof {
        assert(a@.skip(0) =~= a@);
        assert(b@.skip(0) =~= b@);
    }
    while i < na && i < nb
        invariant
            i <= na == a@.len(),
            i <= nb == b@.len(),
            lex_lt(a@, b@) == lex_lt(a@.skip(i as int), b@.skip(i as int)),
        decreases na - i,
    {
        let ca = a.get_char(i);
        let cb = b.get_char(i);
        proof {
            assert(a@.skip(i as int)[0] == a@[i as int]);
            assert(b@.skip(i as int)[0] == b@[i as int]);
            assert(a@.skip(i as int).skip(1) =~= a@.skip(i as int + 1));
            assert(b@.skip(i as int).skip(1) =~= b@.skip(i as int + 1));
        }
        if ca != cb {
            return (ca as u32) < (cb as u32);
        }
        i += 1;
    }
    proof {
        if i >= nb {
            assert(b@.skip(i as int).len() == 0);
        } else {
            assert(a@.skip(i as int).len() == 0);
            assert(b@.skip(i as int).len() > 0);
        }
    }
    i < nb
}

/// Whether a posting date (ISO text) lies inside an optional inclusive
/// text range: an empty bound does not constrain, an empty date never
/// matches.
pub fn in_date_range(post_date: &str, start_date: &str, end_date: &str) -> (r: bool)
    ensures
        r == (post_date@.len() > 0 && !(start_date@.len() > 0 && lex_lt(post_date@, start_date@))
            && !(end_date@.len() > 0 && lex_lt(end_date@, post_date@))),
{
    if post_date.unicode_len() == 0 {
        return false;
    }
    if start_date.unicode_len() > 0 && exec_lex_lt(post_date, start_date) {
        return false;
    }
    if end_date.unicode_len() > 0 && exec_lex_lt(end_date, post_date) {
        return false;
    }
    true
}

/// A row cell fetched by optional index, trimmed; missing reads as empty.
pub fn row_get(row: &Vec<String>, idx: Option<usize>) -> (r: String)
    ensures
        ({
            match idx {
                Some(i) => if i < row@.len() {
                    r@ == trim_cell_of((row@[i as int])@)
                } else {
                    r@ == Seq::<char>::empty()
                },
                None => r@ == Seq::<char>::empty(),
            }
        }),
{
    match idx {
        Some(i) => {
            if i < row.len() {
                trim_cell(row[i].as_str())
            } else {
                String::new()
            }
        },
        None => String::new(),
    }
}

/// The transaction direction implied by a statement category.
pub fn direction_from_statement_category(statement_category: &str) -> (r: &'static str)
    ensures
        trim_of(statement_category@) == "消费"@ ==> r@ == "expense"@,
        trim_of(statement_category@) == "还款"@ ==> r@ == "transfer"@,
        trim_of(statement_category@) != "消费"@ && trim_of(statement_category@) != "还款"@ ==> r@
            == "other"@,
{
    let cs = str_chars(statement_category);
    let t = trim_chars(&cs);
    proof {
        reveal_strlit("消费");
        reveal_strlit("还款");
        assert("消费"@.len() == 2 && "还款"@.len() == 2);
        assert("消费"@[0] == '消' && "还款"@[0] == '还');
        assert("消费"@ != "还款"@);
    }
    if crate::text::chars_eq_str(&t, "消费") {
        "expense"
    } else if crate::text::chars_eq_str(&t, "还款") {
        "transfer"
    } else {
        "other"
    }
}

/// Trailing run of ASCII digits of `s`.
pub open spec fn trail_digits(s: Seq<char>) -> int
    decreases s.len(),
{
    if s.len() == 0 || !is_digit_char(s.last()) {
        0
    } else {
        1 + trail_digits(s.drop_last())
    }
}

proof fn lemma_trail_digits_is(s: Seq<char>, k: int)
    requires
        0 <= k <= s.len(),
        forall|j: int| s.len() - k <= j < s.len() ==> is_digit_char(s[j]),
        k < s.len() ==> !is_digit_char(s[s.len() - k - 1]),
    ensures
        trail_digits(s) == k,
    decreases k,
{
    if k == 0 {
    } else {
        assert(is_digit_char(s.last()));
        assert forall|j: int|
            s.drop_last().len() - (k - 1) <= j < s.drop_last().len() implies is_digit_char(
            s.drop_last()[j],
        ) by {
            assert(s.drop_last()[j] == s[j]);
        }
        if k - 1 < s.drop_last().len() {
            assert(s.drop_last()[s.drop_last().len() - (k - 1) - 1] == s[s.len() - k - 1]);
        }
        lemma_trail_digits_is(s.drop_last(), k - 1);
    }
}

/// The loan-contract key of a counterparty string: its trailing digit run
/// when at least sixteen digits long, else `unknown`.
#[verifier::loop_isolation(false)]
pub fn loan_key(counterparty: &str) -> (r: String)
    ensures
        trail_digits(counterparty@) >= 16 ==> r@ == counterparty@.skip(
            counterparty@.len() - trail_digits(counterparty@),
        ),
        trail_digits(counterparty@) < 16 ==> r@ == "unknown"@,
{
    let cs = str_chars(counterparty);
    let n = cs.len();
    let mut k: usize = 0;
    while k < n && crate::text::exec_is_digit(cs[n - k - 1])
        invariant
            k <= n == cs@.len(),
            forall|j: int| n - k <= j < n ==> is_digit_char(cs@[j]),
        decreases n - k,
    {
        k += 1;
    }
    proof {
        lemma_trail_digits_is(cs@, k as int);
    }
    if k >= 16 {
        let mut out: Vec<char> = Vec::new();
        let mut i: usize = n - k;
        while i < n
            invariant
                n - k <= i <= n == cs@.len(),
                out@ == cs@.subrange(n - k as int, i as int),
            decreases n - i,
        {
            out.push(cs[i]);
            i += 1;
            proof {
                assert(out@ =~= cs@.subrange(n - k as int, i as int));
            }
        }
        proof {
            assert(out@ =~= cs@.skip(n - k as int));
        }
        chars_to_string(&out)
    } else {
        String::from_str("unknown")
    }
}

/// Whether a statement summary belongs to the investment/foreign-exchange
/// or other skip lists: such rows never enter expense analysis.
pub fn is_skip_summary(summary: &str) -> (r: bool)
    ensures
        r == (summary@ == "基金申购"@ || summary@ == "基金赎回"@ || summary@ == "基金快速赎回"@
            || summary@ == "基金认购"@ || summary@ == "基金退款"@ || summary@ == "申购"@
            || summary@ == "赎回"@ || summary@ == "朝朝宝转入"@ || summary@ == "朝朝宝转出"@
            || summary@ == "转出到分仓"@ || summary@ == "转入到分仓"@ || summary@ == "从分仓转入"@
            || summary@ == "分红"@ || summary@ == "强赎"@ || summary@ == "还本"@ || summary@
            == "即时委托"@ || summary@ == "国际结算解付款项"@ || summary@ == "结售汇即时售汇"@
            || summary@ == "结售汇即时结汇"@ || summary@ == "信用卡自动还款"@ || summary@
            == "信用卡还款"@ || summary@ == "个贷放款"@ || summary@ == "汇入汇款"@ || summary@
            == "行内转账转入"@ || summary@ == "账户结息"@ || summary@ == "一网通支付鼓励金"@
            || summary@ == "快捷退款"@ || summary@ == "银联代付"@),
{
    str_eq(summary, "基金申购") || str_eq(summary, "基金赎回") || str_eq(summary, "基金快速赎回")
        || str_eq(summary, "基金认购") || str_eq(summary, "基金退款") || str_eq(summary, "申购")
        || str_eq(summary, "赎回") || str_eq(summary, "朝朝宝转入") || str_eq(summary, "朝朝宝转出")
        || str_eq(summary, "转出到分仓") || str_eq(summary, "转入到分仓") || str_eq(
        summary,
        "从分仓转入",
    ) || str_eq(summary, "分红") || str_eq(summary, "强赎") || str_eq(summary, "还本") || str_eq(
        summary,
        "即时委托",
    ) || str_eq(summary, "国际结算解付款项") || str_eq(summary, "结售汇即时售汇") || str_eq(
        summary,
        "结售汇即时结汇",
    ) || str_eq(summary, "信用卡自动还款") || str_eq(summary, "信用卡还款") || str_eq(
        summary,
        "个贷放款",
    ) || str_eq(summary, "汇入汇款") || str_eq(summary, "行内转账转入") || str_eq(summary, "账户结息")
        || str_eq(summary, "一网通支付鼓励金") || str_eq(summary, "快捷退款") || str_eq(
        summary,
        "银联代付",
    )
}

/// The statement categories a credit-card statement distinguishes.
pub fn stat_category_set() -> (r: Vec<String>)
    ensures
        r@.len() == 9,
        r@[0]@ == "消费"@ && r@[1]@ == "还款"@ && r@[2]@ == "分期"@ && r@[3]@ == "取现"@ && r@[4]@
            == "费用"@ && r@[5]@ == "利息"@ && r@[6]@ == "调账"@ && r@[7]@ == "其他"@ && r@[8]@
            == "未分类"@,
{
    let mut out: Vec<String> = Vec::new();
    out.push(String::from_str("消费"));
    out.push(String::from_str("还款"));
    out.push(String::from_str("分期"));
    out.push(String::from_str("取现"));
    out.push(String::from_str("费用"));
    out.push(String::from_str("利息"));
    out.push(String::from_str("调账"));
    out.push(String::from_str("其他"));
    out.push(String::from_str("未分类"));
    out
}

} // verus!
