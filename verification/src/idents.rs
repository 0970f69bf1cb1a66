//! Deterministic identifiers and display names derived from account
//! facts: name-based UUID suffixes, statement-source names, and month
//! keys.

use vstd::prelude::*;

use crate::error::EngineError;
use crate::text::{chars_to_string, str_chars, trim_chars, trim_of};

verus! {

/// The 12-character identifier suffix derived from a name: a pure
/// function of the name text.
pub uninterp spec fn uuid_v5_suffix_of(name: Seq<char>) -> Seq<char>;

/// Relies on `uuid::Uuid::new_v5` (RFC 4122 name-based UUID over SHA-1,
/// here with the URL namespace): deterministic in the name bytes alone.
/// `simple()` renders 32 lower-case hex characters; the first 12 are kept.
#[verifier::external_body]
fn uuid_v5_suffix12(name: &str) -> (r: String)
    ensures
        r@ == uuid_v5_suffix_of(name@),
        r@.len() == 12,
{
    let id = uuid::Uuid::new_v5(&uuid::Uuid::NAMESPACE_URL, name.as_bytes());
    let hex = id.simple().to_string();
    hex[..12].to_string()
}

/// The seed text hashed for an account identifier.
pub open spec fn account_seed(kind: Seq<char>, account_name: Seq<char>) -> Seq<char> {
    "keepwise:"@ + kind + ":"@ + account_name
}

fn build_seed(kind: &str, account_name: &str) -> (r: String)
    ensures
        r@ == account_seed(kind@, account_name@),
{
    let mut s = String::from_str("keepwise:");
    s.append(kind);
    s.append(":");
    s.append(account_name);
    s
}

/// The identifier of an asset-valuation account: a class prefix plus the
/// deterministic suffix of `keepwise:<class>:<name>`.
pub fn account_id_from_asset_name(asset_class: &str, account_name: &str) -> (r: String)
    ensures
        ({
            let suffix = uuid_v5_suffix_of(account_seed(asset_class@, account_name@));
            if asset_class@ == "cash"@ {
                r@ == "acct_cash_"@ + suffix
            } else if asset_class@ == "liability"@ {
                r@ == "acct_liab_"@ + suffix
            } else {
                r@ == "acct_re_"@ + suffix
            }
        }),
{
    let seed = build_seed(asset_class, account_name);
    let suffix = uuid_v5_suffix12(seed.as_str());
    let mut out = if crate::text::str_eq(asset_class, "cash") {
        String::from_str("acct_cash_")
    } else if crate::text::str_eq(asset_class, "liability") {
        String::from_str("acct_liab_")
    } else {
        String::from_str("acct_re_")
    };
    out.append(suffix.as_str());
    out
}

/// The identifier of a manually created investment account.
pub fn investment_account_id_from_name(account_name: &str) -> (r: String)
    ensures
        r@ == "acct_inv_"@ + uuid_v5_suffix_of(account_seed("investment"@, account_name@)),
{
    proof {
        reveal_strlit("investment");
    }
    let seed = build_seed("investment", account_name);
    let suffix = uuid_v5_suffix12(seed.as_str());
    let mut out = String::from_str("acct_inv_");
    out.append(suffix.as_str());
    out
}

/// The identifier of a manually created account of any kind: investment
/// and valuation kinds delegate to their own schemes; the remaining kinds
/// use a kind prefix plus the deterministic suffix.
pub fn account_id_from_manual_account(kind: &str, account_name: &str) -> (r: String)
    ensures
        ({
            let suffix = uuid_v5_suffix_of(account_seed(kind@, account_name@));
            if kind@ == "investment"@ {
                r@ == "acct_inv_"@ + suffix
            } else if kind@ == "cash"@ {
                r@ == "acct_cash_"@ + suffix
            } else if kind@ == "real_estate"@ {
                r@ == "acct_re_"@ + suffix
            } else if kind@ == "bank"@ {
                r@ == "acct_bank_"@ + suffix
            } else if kind@ == "credit_card"@ {
                r@ == "acct_cc_"@ + suffix
            } else if kind@ == "wallet"@ {
                r@ == "acct_wallet_"@ + suffix
            } else if kind@ == "liability"@ {
                r@ == "acct_liab_"@ + suffix
            } else {
                r@ == "acct_other_"@ + suffix
            }
        }),
{
    proof {
        reveal_strlit("investment");
        reveal_strlit("cash");
        reveal_strlit("real_estate");
        reveal_strlit("liability");
        reveal_strlit("bank");
        reveal_strlit("credit_card");
        reveal_strlit("wallet");
        assert("investment"@.len() == 10 && "cash"@.len() == 4 && "real_estate"@.len() == 11
            && "liability"@.len() == 9 && "bank"@.len() == 4 && "credit_card"@.len() == 11
            && "wallet"@.len() == 6);
        assert("cash"@[0] == 'c' && "bank"@[0] == 'b');
        assert("real_estate"@[0] == 'r' && "credit_card"@[0] == 'c');
    }
    if crate::text::str_eq(kind, "investment") {
        return investment_account_id_from_name(account_name);
    }
    if crate::text::str_eq(kind, "cash") || crate::text::str_eq(kind, "real_estate") {
        return account_id_from_asset_name(kind, account_name);
    }
    let seed = build_seed(kind, account_name);
    let suffix = uuid_v5_suffix12(seed.as_str());
    let mut out = if crate::text::str_eq(kind, "bank") {
        String::from_str("acct_bank_")
    } else if crate::text::str_eq(kind, "credit_card") {
        String::from_str("acct_cc_")
    } else if crate::text::str_eq(kind, "wallet") {
        String::from_str("acct_wallet_")
    } else if crate::text::str_eq(kind, "liability") {
        String::from_str("acct_liab_")
    } else {
        String::from_str("acct_other_")
    };
    out.append(suffix.as_str());
    out
}

/// The account identifier for a credit card known by its last four
/// digits; blank reads as `unknown`.
pub fn account_id_from_last4(last4: &str) -> (r: String)
    ensures
        trim_of(last4@).len() == 0 ==> r@ == "acct_cmb_credit_"@ + "unknown"@,
        trim_of(last4@).len() > 0 ==> r@ == "acct_cmb_credit_"@ + trim_of(last4@),
{
    let cs = str_chars(last4);
    let t = trim_chars(&cs);
    let mut out = String::from_str("acct_cmb_credit_");
    if t.len() == 0 {
        out.append("unknown");
    } else {
        let tail = chars_to_string(&t);
        out.append(tail.as_str());
    }
    out
}

/// The display name for a credit card known by its last four digits.
pub fn account_name_from_last4(last4: &str) -> (r: String)
    ensures
        trim_of(last4@).len() == 0 ==> r@ == "招行信用卡"@,
        trim_of(last4@).len() > 0 ==> r@ == "招行信用卡尾号"@ + trim_of(last4@),
{
    let cs = str_chars(last4);
    let t = trim_chars(&cs);
    if t.len() == 0 {
        String::from_str("招行信用卡")
    } else {
        let mut out = String::from_str("招行信用卡尾号");
        let tail = chars_to_string(&t);
        out.append(tail.as_str());
        out
    }
}

/// The identifying header of one bank-statement document.
pub struct PdfHeader {
    pub account_last4: String,
    pub range_start: String,
    pub range_end: String,
}

/// The stable source name of a statement document, derived from its
/// header alone so re-imports of the same statement collide.
pub fn stable_source_name(header: &PdfHeader) -> (r: String)
    ensures
        r@ == "cmb_bank_statement_"@ + header.account_last4@ + "_"@ + header.range_start@ + "_"@
            + header.range_end@ + ".pdf"@,
{
    let mut out = String::from_str("cmb_bank_statement_");
    out.append(header.account_last4.as_str());
    out.append("_");
    out.append(header.range_start.as_str());
    out.append("_");
    out.append(header.range_end.as_str());
    out.append(".pdf");
    out
}

/// A required source path: trimmed, and it must be nonempty.
pub fn resolve_source_path_text(raw: Option<String>) -> (r: Result<String, EngineError>)
    ensures
        ({
            let t = trim_of(
                match raw {
                    Some(s) => s@,
                    None => Seq::<char>::empty(),
                },
            );
            if t.len() == 0 {
                r == Err::<String, EngineError>(EngineError::Validation)
            } else {
                r matches Ok(p) && p@ == t
            }
        }),
{
    let base: String = match raw {
        Some(s) => s,
        None => String::new(),
    };
    let cs = str_chars(base.as_str());
    let t = trim_chars(&cs);
    if t.len() == 0 {
        Err(EngineError::Validation)
    } else {
        Ok(chars_to_string(&t))
    }
}

/// One parsed credit-card statement transaction.
pub struct ParsedEmlTransaction {
    pub source_file: String,
    pub source_path: String,
    pub source_row_index: usize,
    pub statement_year: i32,
    pub statement_month: u32,
    pub statement_category: String,
    pub trans_date: String,
    pub post_date: String,
    pub description: String,
    pub amount_cents: i64,
    pub card_last4: String,
    pub original_amount: String,
    pub country_area: String,
}

/// The `YYYY-MM` month key of a transaction: the posting date's first
/// seven characters, else the transaction date's, else the statement's
/// own year and month.
#[verifier::rlimit(60)]
pub fn resolve_month_key(txn: &ParsedEmlTransaction) -> (r: String)
    requires
        0 <= txn.statement_year <= 9999,
        0 <= txn.statement_month <= 99,
    ensures
        txn.post_date@.len() >= 7 ==> r@ == txn.post_date@.take(7),
        txn.post_date@.len() < 7 && txn.trans_date@.len() >= 7 ==> r@ == txn.trans_date@.take(7),
        txn.post_date@.len() < 7 && txn.trans_date@.len() < 7 ==> r@ == seq![
            crate::money::char_of_digit(txn.statement_year as int / 1000),
            crate::money::char_of_digit((txn.statement_year as int / 100) % 10),
            crate::money::char_of_digit((txn.statement_year as int / 10) % 10),
            crate::money::char_of_digit(txn.statement_year as int % 10),
            '-',
            crate::money::char_of_digit(txn.statement_month as int / 10),
            crate::money::char_of_digit(txn.statement_month as int % 10),
        ],
{
    if txn.post_date.unicode_len() >= 7 {
        let t = txn.post_date.substring_char(0, 7);
        proof {
            assert(t@ =~= txn.post_date@.take(7));
        }
        return t.to_owned();
    }
    if txn.trans_date.unicode_len() >= 7 {
        let t = txn.trans_date.substring_char(0, 7);
        proof {
            assert(t@ =~= txn.trans_date@.take(7));
        }
        return t.to_owned();
    }
    let y = txn.statement_year as i64;
    let m = txn.statement_month as i64;
    let y1 = y / 1000;
    let yr = y % 1000;
    let y2 = yr / 100;
    let yrr = yr % 100;
    let y3 = yrr / 10;
    let y4 = yrr % 10;
    proof {
        assert(y == y1 * 1000 + yr);
        assert(yr == y2 * 100 + yrr);
        assert(yrr == y3 * 10 + y4);
        assert(y2 == (y / 100) % 10 && y3 == (y / 10) % 10 && y4 == y % 10);
    }
    let mut out: Vec<char> = Vec::new();
    out.push(crate::money::exec_char_of_digit(y1));
    out.push(crate::money::exec_char_of_digit(y2));
    out.push(crate::money::exec_char_of_digit(y3));
    out.push(crate::money::exec_char_of_digit(y4));
    out.push('-');
    out.push(crate::money::exec_char_of_digit(m / 10));
    out.push(crate::money::exec_char_of_digit(m % 10));
    proof {
        assert(out@ =~= seq![
            crate::money::char_of_digit(txn.statement_year as int / 1000),
            crate::money::char_of_digit((txn.statement_year as int / 100) % 10),
            crate::money::char_of_digit((txn.statement_year as int / 10) % 10),
            crate::money::char_of_digit(txn.statement_year as int % 10),
            '-',
            crate::money::char_of_digit(txn.statement_month as int / 10),
            crate::money::char_of_digit(txn.statement_month as int % 10),
        ]);
    }
    chars_to_string(&out)
}

} // verus!
