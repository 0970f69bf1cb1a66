//! Account-kind and asset-class vocabulary: normalization, inference from
//! identifier conventions, and cross-checks between a valuation's class
//! and the account it is attached to.

use vstd::prelude::*;

use crate::error::EngineError;
use crate::text::{
    chars_eq_str, chars_to_string, lower_chars, lower_of, str_chars, str_eq, str_starts_with,
    starts_with_of, trim_chars, trim_of,
};

verus! {

/// The account kinds the catalog accepts.
pub open spec fn is_account_kind(t: Seq<char>) -> bool {
    t == "investment"@ || t == "cash"@ || t == "real_estate"@ || t == "bank"@ || t
        == "credit_card"@ || t == "wallet"@ || t == "liability"@ || t == "other"@
}

fn exec_is_account_kind(t: &Vec<char>) -> (r: bool)
    ensures
        r == is_account_kind(t@),
{
    chars_eq_str(t, "investment") || chars_eq_str(t, "cash") || chars_eq_str(t, "real_estate")
        || chars_eq_str(t, "bank") || chars_eq_str(t, "credit_card") || chars_eq_str(t, "wallet")
        || chars_eq_str(t, "liability") || chars_eq_str(t, "other")
}

/// Normalize an account kind: trimmed and lower-cased, and it must be one
/// of the accepted kinds.
pub fn normalize_account_kind(raw: &str) -> (r: Result<String, EngineError>)
    ensures
        r matches Ok(k) ==> k@ == lower_of(trim_of(raw@)) && is_account_kind(k@),
        r is Err <==> !is_account_kind(lower_of(trim_of(raw@))),
        r matches Err(e) ==> e == EngineError::Validation,
{
    let cs = str_chars(raw);
    let t = lower_chars(&trim_chars(&cs));
    if exec_is_account_kind(&t) {
        Ok(chars_to_string(&t))
    } else {
        Err(EngineError::Validation)
    }
}

/// The store's column value for an account kind: `real_estate` accounts
/// are stored under the generic `other` type.
pub fn account_kind_to_db_type<'a>(kind: &'a str) -> (r: &'a str)
    ensures
        kind@ == "real_estate"@ ==> r@ == "other"@,
        kind@ != "real_estate"@ ==> r@ == kind@,
{
    if str_eq(kind, "real_estate") {
        "other"
    } else {
        kind
    }
}

/// A catalog query kind: an accepted account kind, or `all` (also the
/// reading of blank input).
pub open spec fn query_kind_of(raw: Seq<char>) -> Seq<char> {
    let t = lower_of(trim_of(raw));
    if t.len() == 0 {
        "all"@
    } else {
        t
    }
}

pub fn parse_query_kind(raw: Option<String>) -> (r: Result<String, EngineError>)
    ensures
        ({
            let t = query_kind_of(
                match raw {
                    Some(s) => s@,
                    None => Seq::<char>::empty(),
                },
            );
            if t == "all"@ || is_account_kind(t) {
                r matches Ok(k) && k@ == t
            } else {
                r == Err::<String, EngineError>(EngineError::Validation)
            }
        }),
{
    let base: String = match raw {
        Some(s) => s,
        None => String::new(),
    };
    let cs = str_chars(base.as_str());
    let t = lower_chars(&trim_chars(&cs));
    if t.len() == 0 {
        proof {
            reveal_strlit("all");
        }
        let mut all_chars: Vec<char> = Vec::new();
        all_chars.push('a');
        all_chars.push('l');
        all_chars.push('l');
        proof {
            assert(all_chars@ =~= "all"@);
        }
        return Ok(chars_to_string(&all_chars));
    }
    if chars_eq_str(&t, "all") || exec_is_account_kind(&t) {
        Ok(chars_to_string(&t))
    } else {
        Err(EngineError::Validation)
    }
}

/// The kind inferred for a catalog row from its stored type, its
/// identifier prefix convention, and its valuation counts.
pub open spec fn inferred_kind(
    account_id: Seq<char>,
    account_type: Seq<char>,
    asset_cash_count: int,
    asset_real_estate_count: int,
) -> Seq<char> {
    if account_type == "liability"@ || starts_with_of(account_id, "acct_liab_"@) {
        "liability"@
    } else if asset_real_estate_count > 0 || starts_with_of(account_id, "acct_re_"@) {
        "real_estate"@
    } else if asset_cash_count > 0 || starts_with_of(account_id, "acct_cash_"@) {
        "cash"@
    } else {
        account_type
    }
}

/// Infer an account's kind for catalog grouping.
pub fn infer_account_kind(
    account_id: &str,
    account_type: &str,
    asset_cash_count: i64,
    asset_real_estate_count: i64,
) -> (r: String)
    ensures
        r@ == inferred_kind(
            account_id@,
            account_type@,
            asset_cash_count as int,
            asset_real_estate_count as int,
        ),
{
    if str_eq(account_type, "liability") || str_starts_with(account_id, "acct_liab_") {
        String::from_str("liability")
    } else if asset_real_estate_count > 0 || str_starts_with(account_id, "acct_re_") {
        String::from_str("real_estate")
    } else if asset_cash_count > 0 || str_starts_with(account_id, "acct_cash_") {
        String::from_str("cash")
    } else {
        account_type.to_owned()
    }
}

/// The asset classes a valuation can be stored under.
pub open spec fn is_asset_class_token(t: Seq<char>) -> bool {
    t == "cash"@ || t == "real_estate"@ || t == "liability"@
}

/// Parse an asset-class key: trimmed and lower-cased, one of `cash`,
/// `real_estate` or `liability`.
pub fn parse_asset_class(raw: &str) -> (r: Result<String, EngineError>)
    ensures
        r matches Ok(c) ==> c@ == lower_of(trim_of(raw@)) && is_asset_class_token(c@),
        r is Err <==> !is_asset_class_token(lower_of(trim_of(raw@))),
        r matches Err(e) ==> e == EngineError::Validation,
{
    let cs = str_chars(raw);
    let t = lower_chars(&trim_chars(&cs));
    if chars_eq_str(&t, "cash") || chars_eq_str(&t, "real_estate") || chars_eq_str(
        &t,
        "liability",
    ) {
        Ok(chars_to_string(&t))
    } else {
        Err(EngineError::Validation)
    }
}

/// Check that a valuation's asset class matches the account it is being
/// attached to: cash needs a cash account, liabilities a liability
/// account, and real estate the generic `other` type or the real-estate
/// identifier prefix. Anything else is a validation error.
pub fn validate_asset_account_match(
    asset_class: &str,
    account_id: &str,
    account_type: &str,
) -> (r: Result<(), EngineError>)
    ensures
        r is Ok <==> ({
            ||| (asset_class@ == "cash"@ && account_type@ == "cash"@)
            ||| (asset_class@ == "real_estate"@ && (account_type@ == "other"@ || starts_with_of(
                account_id@,
                "acct_re_"@,
            )))
            ||| (asset_class@ == "liability"@ && account_type@ == "liability"@)
        }),
        r matches Err(e) ==> e == EngineError::Validation,
{
    proof {
        reveal_strlit("cash");
        reveal_strlit("real_estate");
        reveal_strlit("liability");
        reveal_strlit("other");
        assert("cash"@.len() == 4 && "real_estate"@.len() == 11 && "liability"@.len() == 9);
        assert("cash"@ != "real_estate"@ && "cash"@ != "liability"@ && "real_estate"@
            != "liability"@);
    }
    if str_eq(asset_class, "cash") {
        if str_eq(account_type, "cash") {
            Ok(())
        } else {
            Err(EngineError::Validation)
        }
    } else if str_eq(asset_class, "real_estate") {
        if str_eq(account_type, "other") || str_starts_with(account_id, "acct_re_") {
            Ok(())
        } else {
            Err(EngineError::Validation)
        }
    } else if str_eq(asset_class, "liability") {
        if str_eq(account_type, "liability") {
            Ok(())
        } else {
            Err(EngineError::Validation)
        }
    } else {
        Err(EngineError::Validation)
    }
}

} // verus!
