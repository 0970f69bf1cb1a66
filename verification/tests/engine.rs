use keepwise_core::asof::{build_asof_totals, AsOfHistoryRow};
use keepwise_core::date::Date;
use keepwise_core::dietz::{calculate_modified_dietz, DietzNote, Ratio, TransferRow};
use keepwise_core::error::EngineError;
use keepwise_core::invest::{
    investment_curve_for_account, investment_return_for_account, investment_returns_for_accounts,
    AccountRecords, InvestmentRecordRow,
};
use keepwise_core::picker::{select_begin_snapshot, select_end_snapshot, SnapshotRow};
use keepwise_core::window::resolve_window;

fn d(y: i64, m: i64, day: i64) -> Date {
    Date::from_ymd(y, m, day).unwrap()
}

fn ratio_f64(r: &Ratio) -> f64 {
    r.num as f64 / r.den as f64
}

#[test]
fn window_one_year_preset_clips_to_latest() {
    let w = resolve_window("1y", "", "", d(2024, 1, 1), d(2026, 3, 31)).unwrap();
    assert_eq!(w.effective_to, d(2026, 3, 31));
    assert_eq!(w.effective_from, d(2025, 3, 31));
    assert_eq!(w.latest, d(2026, 3, 31));
}

#[test]
fn window_ytd_preset_starts_january_first() {
    let w = resolve_window("ytd", "", "2026-02-10", d(2024, 1, 1), d(2026, 3, 31)).unwrap();
    assert_eq!(w.effective_to, d(2026, 2, 10));
    assert_eq!(w.effective_from, d(2026, 1, 1));
}

#[test]
fn window_custom_without_from_is_validation_error() {
    let r = resolve_window("custom", "", "", d(2024, 1, 1), d(2026, 3, 31));
    assert_eq!(r.unwrap_err(), EngineError::Validation);
}

#[test]
fn window_three_year_preset_and_explicit_from() {
    let w = resolve_window("3y", "", "", d(2020, 1, 1), d(2026, 3, 31)).unwrap();
    assert_eq!(w.effective_from.days, d(2026, 3, 31).days - 1095);
    let w2 = resolve_window("custom", "2025-06-01", "2026-01-01", d(2020, 1, 1), d(2026, 3, 31))
        .unwrap();
    assert_eq!(w2.effective_from, d(2025, 6, 1));
    assert_eq!(w2.effective_to, d(2026, 1, 1));
}

#[test]
fn window_to_before_earliest_is_no_data() {
    let r = resolve_window("1y", "", "2023-12-31", d(2024, 1, 1), d(2026, 3, 31));
    assert_eq!(r.unwrap_err(), EngineError::NoData);
}

#[test]
fn window_since_inception_starts_at_earliest() {
    let w = resolve_window("since_inception", "", "", d(2024, 2, 2), d(2026, 3, 31)).unwrap();
    assert_eq!(w.effective_from, d(2024, 2, 2));
}

#[test]
fn dietz_end_to_end_flow_weighting() {
    // One contribution of 10000 dated 2026-04-01 inside a window from
    // 2026-01-01 (value 100000) to 2026-06-30 (value 120000).
    let begin = d(2026, 1, 1);
    let end = d(2026, 6, 30);
    let flows = vec![TransferRow { snapshot_date: d(2026, 4, 1), transfer_amount_cents: 10000 }];
    let calc = calculate_modified_dietz(begin, end, 100000, 120000, &flows, false).unwrap();
    assert_eq!(calc.interval_days, 180);
    assert_eq!(calc.net_flow_cents, 10000);
    assert_eq!(calc.profit_cents, 10000);
    // weighted capital = 100000 + 10000 * (90/180)
    let wc = calc.weighted_capital.num as f64 / calc.weighted_capital.den as f64;
    assert!((wc - 105000.0).abs() < 1e-9);
    assert_eq!(calc.weighted_capital_cents, 105000);
    let rate = ratio_f64(calc.return_rate.as_ref().unwrap());
    assert!((rate - 10000.0 / 105000.0).abs() < 1e-6);
    assert!(calc.annualized_defined);
    // The annualized value itself is presentation arithmetic.
    let annualized = (1.0 + rate).powf(365.0 / calc.interval_days as f64) - 1.0;
    assert!(annualized.is_finite() && annualized > rate);
    assert_eq!(calc.cash_flows.len(), 1);
    let w = &calc.cash_flows[0].weight;
    assert_eq!((w.num, w.den), (90, 180));
}

#[test]
fn dietz_zero_net_flow_is_simple_return() {
    let calc = calculate_modified_dietz(d(2026, 1, 1), d(2026, 6, 30), 100000, 120000, &vec![],
        false)
        .unwrap();
    let rate = ratio_f64(calc.return_rate.as_ref().unwrap());
    assert!((rate - 0.2).abs() < 1e-12);
    assert_eq!(calc.profit_cents, 20000);
    assert_eq!(calc.weighted_capital_cents, 100000);
}

#[test]
fn dietz_zero_interval_with_flag_is_zero_return() {
    let calc = calculate_modified_dietz(d(2026, 1, 1), d(2026, 1, 1), 55555, 99999, &vec![], true)
        .unwrap();
    let rate = calc.return_rate.unwrap();
    assert_eq!(rate.num, 0);
    assert!(!calc.annualized_defined);
}

#[test]
fn dietz_zero_interval_without_flag_is_insufficient_data() {
    let r = calculate_modified_dietz(d(2026, 1, 1), d(2026, 1, 1), 100, 100, &vec![], false);
    assert_eq!(r.unwrap_err(), EngineError::InsufficientData);
}

#[test]
fn dietz_end_before_begin_is_validation_error() {
    let r = calculate_modified_dietz(d(2026, 2, 1), d(2026, 1, 1), 100, 100, &vec![], false);
    assert_eq!(r.unwrap_err(), EngineError::Validation);
}

#[test]
fn dietz_non_positive_weighted_capital_is_note_not_error() {
    // A full withdrawal: begin 0, one outflow.
    let flows = vec![TransferRow { snapshot_date: d(2026, 2, 1), transfer_amount_cents: -5000 }];
    let calc = calculate_modified_dietz(d(2026, 1, 1), d(2026, 3, 1), 0, 0, &flows, false).unwrap();
    assert!(calc.return_rate.is_none());
    assert!(!calc.annualized_defined);
    assert_eq!(calc.note, DietzNote::NonPositiveWeightedCapital);
    assert!(calc.note.text().contains("weighted capital"));
}

#[test]
fn dietz_negative_base_leaves_annualized_undefined() {
    // Losses larger than the weighted capital: 1 + r <= 0.
    let calc = calculate_modified_dietz(d(2026, 1, 1), d(2026, 1, 11), 1000, 0, &vec![], false)
        .unwrap();
    let rate = ratio_f64(calc.return_rate.as_ref().unwrap());
    assert!((rate + 1.0).abs() < 1e-12);
    assert!(!calc.annualized_defined);
}

#[test]
fn asof_totals_single_snapshot_is_step_function() {
    let entity = vec![AsOfHistoryRow {
        snapshot_date: d(2026, 2, 10),
        value_cents: 777,
        flow_cents: 0,
    }];
    let dates = vec![d(2026, 2, 1), d(2026, 2, 10), d(2026, 3, 1)];
    let totals = build_asof_totals(&dates, &vec![entity]);
    assert_eq!(totals, vec![0, 777, 777]);
}

#[test]
fn asof_totals_no_look_ahead_on_later_insert() {
    let base = vec![AsOfHistoryRow { snapshot_date: d(2026, 1, 5), value_cents: 100, flow_cents: 0 }];
    let mut grown = base.clone();
    grown.push(AsOfHistoryRow { snapshot_date: d(2026, 2, 20), value_cents: 900, flow_cents: 0 });
    let dates = vec![d(2026, 1, 1), d(2026, 1, 5), d(2026, 2, 1)];
    let before = build_asof_totals(&dates, &vec![base]);
    let after = build_asof_totals(&dates, &vec![grown]);
    assert_eq!(before, after);
    assert_eq!(before, vec![0, 100, 100]);
}

#[test]
fn asof_totals_no_look_ahead_on_insert_between_snapshots() {
    let base = vec![
        AsOfHistoryRow { snapshot_date: d(2026, 1, 5), value_cents: 100, flow_cents: 0 },
        AsOfHistoryRow { snapshot_date: d(2026, 3, 5), value_cents: 900, flow_cents: 0 },
    ];
    let mut grown = base.clone();
    grown.insert(1, AsOfHistoryRow { snapshot_date: d(2026, 2, 20), value_cents: 400, flow_cents: 0 });
    // Dates earlier than the inserted snapshot see no change.
    let early = vec![d(2026, 1, 1), d(2026, 1, 5), d(2026, 2, 1)];
    assert_eq!(
        build_asof_totals(&early, &vec![base]),
        build_asof_totals(&early, &vec![grown])
    );
}

#[test]
fn asof_totals_retain_previous_value_heuristic() {
    // A zero value with a same-day nonzero flow keeps the held value.
    let entity = vec![
        AsOfHistoryRow { snapshot_date: d(2026, 1, 1), value_cents: 500, flow_cents: 0 },
        AsOfHistoryRow { snapshot_date: d(2026, 1, 15), value_cents: 0, flow_cents: -500 },
        AsOfHistoryRow { snapshot_date: d(2026, 2, 1), value_cents: 0, flow_cents: 0 },
    ];
    let dates = vec![d(2026, 1, 1), d(2026, 1, 15), d(2026, 2, 1)];
    let totals = build_asof_totals(&dates, &vec![entity]);
    assert_eq!(totals, vec![500, 500, 0]);
}

#[test]
fn asof_totals_sum_across_entities() {
    let a = vec![AsOfHistoryRow { snapshot_date: d(2026, 1, 1), value_cents: 100, flow_cents: 0 }];
    let b = vec![AsOfHistoryRow { snapshot_date: d(2026, 1, 10), value_cents: 50, flow_cents: 0 }];
    let dates = vec![d(2026, 1, 1), d(2026, 1, 10)];
    let totals = build_asof_totals(&dates, &vec![a, b]);
    assert_eq!(totals, vec![100, 150]);
}

#[test]
fn window_clipped_from_after_to_is_validation_error() {
    // A custom `from` after the clipped `to` cannot form a window.
    let r = resolve_window("custom", "2026-03-01", "2026-02-01", d(2024, 1, 1), d(2026, 3, 31));
    assert_eq!(r.unwrap_err(), EngineError::Validation);
    let r2 = resolve_window("weekly", "", "", d(2024, 1, 1), d(2026, 3, 31));
    assert_eq!(r2.unwrap_err(), EngineError::Validation);
}

#[test]
fn dietz_zero_interval_reports_zero_weights() {
    let flows: Vec<TransferRow> = vec![];
    let calc = calculate_modified_dietz(d(2026, 5, 5), d(2026, 5, 5), 100, 100, &flows, true)
        .unwrap();
    assert_eq!(calc.interval_days, 0);
    assert_eq!(calc.weighted_capital_cents, 100);
    assert!(calc.cash_flows.is_empty());
}

#[test]
fn picker_prefers_positive_value_at_or_before_start() {
    let series = vec![
        SnapshotRow { snapshot_date: d(2026, 1, 1), total_assets_cents: 100 },
        SnapshotRow { snapshot_date: d(2026, 1, 20), total_assets_cents: 0 },
        SnapshotRow { snapshot_date: d(2026, 2, 10), total_assets_cents: 300 },
    ];
    let begin = select_begin_snapshot(&series, d(2026, 1, 25), d(2026, 3, 1)).unwrap();
    assert_eq!(begin.snapshot_date, d(2026, 1, 1));
    let begin2 = select_begin_snapshot(&series, d(2026, 1, 2), d(2026, 3, 1)).unwrap();
    assert_eq!(begin2.snapshot_date, d(2026, 1, 1));
}

#[test]
fn picker_falls_back_to_first_positive_in_window_then_any() {
    let series = vec![
        SnapshotRow { snapshot_date: d(2026, 1, 10), total_assets_cents: 0 },
        SnapshotRow { snapshot_date: d(2026, 2, 10), total_assets_cents: 300 },
    ];
    // No positive at or before the start; first positive inside the window.
    let begin = select_begin_snapshot(&series, d(2026, 1, 15), d(2026, 3, 1)).unwrap();
    assert_eq!(begin.snapshot_date, d(2026, 2, 10));
    // Nothing positive at all in range: the zero row is a valid baseline.
    let zeros = vec![SnapshotRow { snapshot_date: d(2026, 1, 10), total_assets_cents: 0 }];
    let begin3 = select_begin_snapshot(&zeros, d(2026, 1, 15), d(2026, 3, 1)).unwrap();
    assert_eq!(begin3.total_assets_cents, 0);
    assert!(select_begin_snapshot(&vec![], d(2026, 1, 15), d(2026, 3, 1)).is_none());
}

#[test]
fn picker_end_prefers_latest_positive_in_range() {
    let series = vec![
        SnapshotRow { snapshot_date: d(2026, 1, 10), total_assets_cents: 100 },
        SnapshotRow { snapshot_date: d(2026, 2, 10), total_assets_cents: 300 },
        SnapshotRow { snapshot_date: d(2026, 3, 10), total_assets_cents: 0 },
    ];
    let end = select_end_snapshot(&series, d(2026, 1, 10), d(2026, 3, 31)).unwrap();
    assert_eq!(end.snapshot_date, d(2026, 2, 10));
    let only_zero = vec![SnapshotRow { snapshot_date: d(2026, 3, 10), total_assets_cents: 0 }];
    let end2 = select_end_snapshot(&only_zero, d(2026, 1, 10), d(2026, 3, 31)).unwrap();
    assert_eq!(end2.total_assets_cents, 0);
}

fn sample_records() -> Vec<InvestmentRecordRow> {
    vec![
        InvestmentRecordRow {
            snapshot_date: d(2026, 1, 1),
            total_assets_cents: 100000,
            transfer_amount_cents: 0,
        },
        InvestmentRecordRow {
            snapshot_date: d(2026, 4, 1),
            total_assets_cents: 112000,
            transfer_amount_cents: 10000,
        },
        InvestmentRecordRow {
            snapshot_date: d(2026, 6, 30),
            total_assets_cents: 120000,
            transfer_amount_cents: 0,
        },
    ]
}

#[test]
fn single_account_return_end_to_end() {
    let records = sample_records();
    let out = investment_return_for_account(&records, "since_inception", "", "").unwrap();
    assert_eq!(out.begin_snapshot.snapshot_date, d(2026, 1, 1));
    assert_eq!(out.end_snapshot.snapshot_date, d(2026, 6, 30));
    assert_eq!(out.calc.net_flow_cents, 10000);
    assert_eq!(out.calc.profit_cents, 10000);
    assert_eq!(out.calc.weighted_capital_cents, 105000);
    let rate = ratio_f64(out.calc.return_rate.as_ref().unwrap());
    assert!((rate - 10000.0 / 105000.0).abs() < 1e-6);
}

#[test]
fn single_account_return_without_records_is_no_data() {
    let r = investment_return_for_account(&vec![], "ytd", "", "");
    assert_eq!(r.unwrap_err(), EngineError::NoData);
}

#[test]
fn single_account_curve_rows_and_summary() {
    let records = sample_records();
    let out = investment_curve_for_account(&records, "since_inception", "", "").unwrap();
    assert_eq!(out.rows.len(), 3);
    // The anchor point yields a defined zero return.
    let first = &out.rows[0];
    assert_eq!(first.snapshot_date, d(2026, 1, 1));
    assert_eq!(first.cumulative_net_growth_cents, 0);
    assert_eq!(first.cumulative_return_rate.as_ref().unwrap().num, 0);
    let last = &out.rows[2];
    assert_eq!(last.total_assets_cents, 120000);
    assert_eq!(last.transfer_amount_cents, 0);
    assert_eq!(out.rows[1].transfer_amount_cents, 10000);
    // The summary is derived only from the first and last rows.
    assert_eq!(out.summary.count, 3);
    assert_eq!(out.summary.start_assets_cents, first.total_assets_cents);
    assert_eq!(out.summary.end_assets_cents, last.total_assets_cents);
    assert_eq!(
        out.summary.change_cents,
        last.total_assets_cents - first.total_assets_cents
    );
    assert_eq!(
        out.summary.end_net_growth_cents,
        last.cumulative_net_growth_cents
    );
}

#[test]
fn returns_listing_filters_by_keyword_and_limit() {
    let accounts = vec![
        AccountRecords {
            account_id: "acct_inv_alpha".to_string(),
            account_name: "Alpha Fund".to_string(),
            records: sample_records(),
        },
        AccountRecords {
            account_id: "acct_inv_beta".to_string(),
            account_name: "Beta Fund".to_string(),
            records: vec![],
        },
        AccountRecords {
            account_id: "acct_inv_gamma".to_string(),
            account_name: "Gamma Alpha".to_string(),
            records: sample_records(),
        },
    ];
    let entries =
        investment_returns_for_accounts(&accounts, "since_inception", "", "", "ALPHA", 10);
    assert_eq!(entries.len(), 2);
    assert_eq!(entries[0].index, 0);
    assert_eq!(entries[1].index, 2);
    assert!(entries[0].outcome.is_ok());

    let capped = investment_returns_for_accounts(&accounts, "since_inception", "", "", "", 2);
    assert_eq!(capped.len(), 2);
    assert_eq!(capped[0].index, 0);
    assert_eq!(capped[1].index, 1);
    // The empty account resolves to a no-data failure, not a panic.
    assert_eq!(capped[1].outcome.as_ref().unwrap_err(), &EngineError::NoData);
}
