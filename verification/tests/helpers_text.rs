use keepwise_core::accounts::{
    account_kind_to_db_type, infer_account_kind, normalize_account_kind, parse_asset_class,
    parse_query_kind, validate_asset_account_match,
};
use keepwise_core::budget::{summarize_monthly_budget_items, MonthlyBudgetItemRow};
use keepwise_core::date::{parse_iso_date, Date};
use keepwise_core::error::EngineError;
use keepwise_core::health::{
    classify_error_message, is_curve_insufficient_data, is_wealth_overview_no_data,
};
use keepwise_core::idents::{
    account_id_from_asset_name, account_id_from_last4, account_id_from_manual_account,
    account_name_from_last4, investment_account_id_from_name, resolve_month_key,
    resolve_source_path_text, stable_source_name, ParsedEmlTransaction, PdfHeader,
};
use keepwise_core::money::{cents_to_yuan_text, format_amount_cents, parse_amount_to_cents,
    parse_amount_text_to_cents};
use keepwise_core::normalize::{
    direction_from_statement_category, in_date_range, is_skip_summary, loan_key, normalize_key,
    normalize_line, quote_ident, row_get, stat_category_set, trim_cell, trim_text,
};
use keepwise_core::params::{
    boolish_text, parse_bool_flag, parse_bool_param, parse_boolish, parse_enabled_flag,
    parse_limit, parse_optional_text, parse_query_limit, parse_sort_order, parse_year_param,
};
use keepwise_core::window::{parse_preset, parse_preset_with_default};

#[test]
fn dates_round_trip_and_validate() {
    let date = Date::from_ymd(2026, 3, 31).unwrap();
    assert_eq!(date.to_ymd(), (2026, 3, 31));
    assert_eq!(date.format_iso(), "2026-03-31");
    assert!(Date::from_ymd(2024, 2, 29).is_some());
    assert!(Date::from_ymd(2026, 2, 29).is_none());
    assert!(Date::from_ymd(2026, 13, 1).is_none());
    assert_eq!(Date::from_ymd(2026, 6, 30).unwrap().days - Date::from_ymd(2026, 1, 1).unwrap().days,
        180);
}

#[test]
fn iso_parsing_accepts_trimmed_text_only() {
    assert_eq!(parse_iso_date(" 2026-02-10 ").unwrap(), Date::from_ymd(2026, 2, 10).unwrap());
    assert_eq!(parse_iso_date("2026-2-10").unwrap_err(), EngineError::Validation);
    assert_eq!(parse_iso_date("2026-02-30").unwrap_err(), EngineError::Validation);
    assert_eq!(parse_iso_date("").unwrap_err(), EngineError::Validation);
    let d = Date::from_ymd(31, 1, 2).unwrap();
    assert_eq!(d.format_iso(), "0031-01-02");
    assert_eq!(parse_iso_date("0031-01-02").unwrap(), d);
}

#[test]
fn yuan_text_is_exact_and_round_trips() {
    assert_eq!(cents_to_yuan_text(0), "0.00");
    assert_eq!(cents_to_yuan_text(5), "0.05");
    assert_eq!(cents_to_yuan_text(-1234), "-12.34");
    assert_eq!(cents_to_yuan_text(104972), "1049.72");
    assert_eq!(format_amount_cents(-7), "-0.07");
    for cents in [0i64, 1, -1, 99, -99, 100, 12345678901, -999999999999] {
        let text = cents_to_yuan_text(cents);
        assert_eq!(parse_amount_to_cents(&text).unwrap(), cents);
    }
}

#[test]
fn amount_parsing_grammar() {
    assert_eq!(parse_amount_to_cents("1,234.56").unwrap(), 123456);
    assert_eq!(parse_amount_to_cents("￥ -12.3").unwrap(), -1230);
    assert_eq!(parse_amount_to_cents("100元").unwrap(), 10000);
    assert_eq!(parse_amount_to_cents("+.5").unwrap(), 50);
    assert_eq!(parse_amount_to_cents("").unwrap(), 0);
    assert_eq!(parse_amount_to_cents("  ").unwrap(), 0);
    assert_eq!(parse_amount_to_cents("12.345").unwrap_err(), EngineError::Validation);
    assert_eq!(parse_amount_to_cents("1.2.3").unwrap_err(), EngineError::Validation);
    assert_eq!(parse_amount_to_cents("abc").unwrap_err(), EngineError::Validation);
    assert_eq!(parse_amount_to_cents("-").unwrap_err(), EngineError::Validation);
    // Too large to fit an i64 of cents.
    assert!(parse_amount_to_cents("99999999999999999999").is_err());
    // The statement variant strips commas but not currency marks.
    assert_eq!(parse_amount_text_to_cents("1,000.25").unwrap(), 100025);
    assert!(parse_amount_text_to_cents("￥5").is_err());
}

#[test]
fn preset_tokens_normalize() {
    assert_eq!(parse_preset(None).unwrap(), "ytd");
    assert_eq!(parse_preset(Some(" YTD ")).unwrap(), "ytd");
    assert_eq!(parse_preset_with_default(Some(""), "1y").unwrap(), "1y");
    assert_eq!(parse_preset_with_default(Some("3Y"), "1y").unwrap(), "3y");
    assert_eq!(parse_preset(Some("monthly")).unwrap_err(), EngineError::Validation);
}

#[test]
fn boolean_parameters() {
    assert!(parse_bool_param(Some("YES"), false).unwrap());
    assert!(!parse_bool_param(Some("off"), true).unwrap());
    assert!(parse_bool_param(None, true).unwrap());
    assert_eq!(parse_bool_param(Some("maybe"), true).unwrap_err(), EngineError::Validation);
    assert!(parse_boolish(Some("1"), false).unwrap());
    assert!(boolish_text(" True "));
    assert!(!boolish_text("0"));
    assert!(parse_enabled_flag("on"));
    let args = vec!["--pretty".to_string(), "--verbose".to_string()];
    assert!(parse_bool_flag(&args, "--pretty"));
    assert!(!parse_bool_flag(&args, "--quiet"));
}

#[test]
fn limits_years_and_sort_orders() {
    assert_eq!(parse_limit(None, 200, 500), 200);
    assert_eq!(parse_limit(Some(0), 200, 500), 1);
    assert_eq!(parse_limit(Some(9999), 200, 500), 500);
    assert_eq!(parse_query_limit(None), 500);
    assert_eq!(parse_query_limit(Some(2000)), 1000);
    assert_eq!(parse_year_param(None, 2026).unwrap(), 2026);
    assert_eq!(parse_year_param(Some(" 2030 "), 2026).unwrap(), 2030);
    assert_eq!(parse_year_param(Some("1999"), 2026).unwrap_err(), EngineError::Validation);
    assert_eq!(parse_year_param(Some("soon"), 2026).unwrap_err(), EngineError::Validation);
    assert_eq!(parse_sort_order(None).unwrap(), 1000);
    assert_eq!(parse_sort_order(Some("-5")).unwrap(), -5);
    assert_eq!(parse_sort_order(Some("x")).unwrap_err(), EngineError::Validation);
    assert_eq!(parse_optional_text(Some("  hey  ".to_string())), "hey");
    assert_eq!(parse_optional_text(None), "");
}

#[test]
fn account_kinds_and_classes() {
    assert_eq!(normalize_account_kind(" Cash ").unwrap(), "cash");
    assert_eq!(normalize_account_kind("house").unwrap_err(), EngineError::Validation);
    assert_eq!(account_kind_to_db_type("real_estate"), "other");
    assert_eq!(account_kind_to_db_type("bank"), "bank");
    assert_eq!(parse_query_kind(None).unwrap(), "all");
    assert_eq!(parse_query_kind(Some("Wallet".to_string())).unwrap(), "wallet");
    assert!(parse_query_kind(Some("x".to_string())).is_err());
    assert_eq!(infer_account_kind("acct_liab_12", "other", 0, 0), "liability");
    assert_eq!(infer_account_kind("acct_re_12", "other", 0, 0), "real_estate");
    assert_eq!(infer_account_kind("a", "other", 1, 0), "cash");
    assert_eq!(infer_account_kind("a", "investment", 0, 0), "investment");
    assert_eq!(parse_asset_class(" CASH ").unwrap(), "cash");
    assert!(parse_asset_class("stocks").is_err());
    assert!(validate_asset_account_match("cash", "x", "cash").is_ok());
    assert!(validate_asset_account_match("real_estate", "acct_re_9", "cash").is_ok());
    assert!(validate_asset_account_match("liability", "x", "cash").is_err());
    assert!(validate_asset_account_match("bond", "x", "cash").is_err());
}

#[test]
fn text_normalization() {
    assert_eq!(trim_text("  a\t\tb  c "), "a b c");
    // The full Unicode whitespace set trims, as str::trim would.
    assert_eq!(trim_text("\u{3000}x\u{2003}y\u{3000}"), "x y");
    assert_eq!(normalize_line("x
y"), "x y");
    assert_eq!(trim_cell(" \u{feff}\u{feff} hello "), "hello");
    assert_eq!(normalize_key(" Account Name "), "accountname");
    assert_eq!(normalize_key("总 资 产"), "总资产");
    assert_eq!(quote_ident("ta\"ble"), "\"ta\"\"ble\"");
    let row_vals = vec![" a ".to_string(), "b".to_string()];
    assert_eq!(row_get(&row_vals, Some(0)), "a");
    assert_eq!(row_get(&row_vals, Some(9)), "");
    assert_eq!(row_get(&row_vals, None), "");
}

#[test]
fn date_range_and_statement_helpers() {
    assert!(in_date_range("2026-02-01", "2026-01-01", "2026-03-01"));
    assert!(!in_date_range("2025-12-31", "2026-01-01", ""));
    assert!(!in_date_range("2026-04-01", "", "2026-03-01"));
    assert!(in_date_range("2026-04-01", "", ""));
    assert!(!in_date_range("", "", ""));
    assert_eq!(direction_from_statement_category(" 消费 "), "expense");
    assert_eq!(direction_from_statement_category("还款"), "transfer");
    assert_eq!(direction_from_statement_category("分期"), "other");
    assert!(is_skip_summary("基金申购"));
    assert!(is_skip_summary("账户结息"));
    assert!(!is_skip_summary("银联消费"));
    assert_eq!(loan_key("贷款 1234567890123456"), "1234567890123456");
    assert_eq!(loan_key("贷款 12345"), "unknown");
    assert_eq!(stat_category_set().len(), 9);
}

#[test]
fn identifier_builders_are_deterministic() {
    let a = account_id_from_asset_name("cash", "My Bank");
    assert!(a.starts_with("acct_cash_"));
    assert_eq!(a.len(), "acct_cash_".len() + 12);
    // Deterministic in the name, and different names give different ids.
    assert_eq!(a, account_id_from_asset_name("cash", "My Bank"));
    assert_ne!(a, account_id_from_asset_name("cash", "Other Bank"));
    let suffix = &a["acct_cash_".len()..];
    assert!(suffix.chars().all(|c| c.is_ascii_hexdigit()));
    assert!(account_id_from_asset_name("liability", "L").starts_with("acct_liab_"));
    assert!(account_id_from_asset_name("real_estate", "H").starts_with("acct_re_"));
    assert!(investment_account_id_from_name("F").starts_with("acct_inv_"));
    assert_eq!(
        account_id_from_manual_account("investment", "F"),
        investment_account_id_from_name("F")
    );
    assert!(account_id_from_manual_account("credit_card", "C").starts_with("acct_cc_"));
    assert!(account_id_from_manual_account("misc", "M").starts_with("acct_other_"));
    assert_eq!(account_id_from_last4("1234"), "acct_cmb_credit_1234");
    assert_eq!(account_id_from_last4("  "), "acct_cmb_credit_unknown");
    assert_eq!(account_name_from_last4("1234"), "招行信用卡尾号1234");
    assert_eq!(account_name_from_last4(""), "招行信用卡");
}

#[test]
fn statement_source_names_and_month_keys() {
    let header = PdfHeader {
        account_last4: "1234".to_string(),
        range_start: "2026-01-01".to_string(),
        range_end: "2026-03-31".to_string(),
    };
    assert_eq!(
        stable_source_name(&header),
        "cmb_bank_statement_1234_2026-01-01_2026-03-31.pdf"
    );
    assert_eq!(resolve_source_path_text(Some(" /tmp/a.pdf ".to_string())).unwrap(), "/tmp/a.pdf");
    assert_eq!(resolve_source_path_text(None).unwrap_err(), EngineError::Validation);
    let txn = ParsedEmlTransaction {
        source_file: String::new(),
        source_path: String::new(),
        source_row_index: 0,
        statement_year: 2026,
        statement_month: 3,
        statement_category: "消费".to_string(),
        trans_date: "2026-02-27".to_string(),
        post_date: "2026-03-01".to_string(),
        description: String::new(),
        amount_cents: 0,
        card_last4: String::new(),
        original_amount: String::new(),
        country_area: String::new(),
    };
    assert_eq!(resolve_month_key(&txn), "2026-03");
    let txn2 = ParsedEmlTransaction { post_date: String::new(), ..txn };
    assert_eq!(resolve_month_key(&txn2), "2026-02");
    let txn3 = ParsedEmlTransaction {
        trans_date: String::new(),
        post_date: String::new(),
        ..txn2
    };
    assert_eq!(resolve_month_key(&txn3), "2026-03");
}

#[test]
fn failure_texts_classify() {
    let no_data = EngineError::NoData.message();
    let insufficient = EngineError::InsufficientData.message();
    let validation = EngineError::Validation.message();
    assert!(is_wealth_overview_no_data(&no_data));
    assert!(!is_wealth_overview_no_data(&validation));
    assert!(is_curve_insufficient_data(&no_data));
    assert!(is_curve_insufficient_data(&insufficient));
    assert!(!is_curve_insufficient_data(&validation));
    assert_eq!(classify_error_message(&validation), "VALIDATION_ERROR");
    assert_eq!(classify_error_message(&no_data), "NO_DATA_ERROR");
    assert_eq!(classify_error_message(&insufficient), "NO_DATA_ERROR");
    assert_eq!(classify_error_message("boom"), "UNKNOWN_ERROR");
}

#[test]
fn budget_summary_counts_active_items() {
    let item = |amount: i64, active: bool| MonthlyBudgetItemRow {
        id: String::new(),
        name: String::new(),
        monthly_amount_cents: amount,
        sort_order: 0,
        is_active: active,
        is_builtin: false,
        created_at: String::new(),
        updated_at: String::new(),
    };
    let rows = vec![item(100000, true), item(50000, false), item(20000, true)];
    let s = summarize_monthly_budget_items(&rows);
    assert_eq!(s.total_count, 3);
    assert_eq!(s.active_count, 2);
    assert_eq!(s.monthly_total_cents, 120000);
    assert_eq!(s.annual_total_cents, 1440000);
}
