use keepwise_core::asof::AsOfHistoryRow;
use keepwise_core::date::Date;
use keepwise_core::error::EngineError;
use keepwise_core::portfolio::{portfolio_curve, portfolio_return};
use keepwise_core::wealth::{
    parse_wealth_filters, resolve_as_of, wealth_curve, wealth_overview, AssetClass,
    AssetValuationRow, OverviewItemRow, WealthFilters,
};
use keepwise_core::window::resolve_window;

fn d(y: i64, m: i64, day: i64) -> Date {
    Date::from_ymd(y, m, day).unwrap()
}

fn row(s: &str) -> String {
    s.to_string()
}

fn all_filters() -> WealthFilters {
    WealthFilters {
        include_investment: true,
        include_cash: true,
        include_real_estate: true,
        include_liability: true,
    }
}

#[test]
fn wealth_filters_reject_selecting_nothing() {
    let r = parse_wealth_filters(Some("0"), Some("false"), Some("no"), Some("off"));
    assert_eq!(r.unwrap_err(), EngineError::Validation);
    let f = parse_wealth_filters(None, None, None, Some("0")).unwrap();
    assert!(f.include_investment && f.include_cash && f.include_real_estate);
    assert!(!f.include_liability);
    let bad = parse_wealth_filters(Some("maybe"), None, None, None);
    assert_eq!(bad.unwrap_err(), EngineError::Validation);
}

#[test]
fn resolve_as_of_clips_to_latest() {
    assert_eq!(resolve_as_of("", None).unwrap_err(), EngineError::NoData);
    let (req, eff) = resolve_as_of("", Some(d(2026, 3, 31))).unwrap();
    assert_eq!(req, d(2026, 3, 31));
    assert_eq!(eff, d(2026, 3, 31));
    let (req2, eff2) = resolve_as_of("2026-02-01", Some(d(2026, 3, 31))).unwrap();
    assert_eq!(req2, d(2026, 2, 1));
    assert_eq!(eff2, d(2026, 2, 1));
    let (_, eff3) = resolve_as_of("2027-01-01", Some(d(2026, 3, 31))).unwrap();
    assert_eq!(eff3, d(2026, 3, 31));
}

fn overview_fixture() -> (Vec<OverviewItemRow>, Vec<AssetValuationRow>) {
    let investment_rows = vec![OverviewItemRow {
        account_id: row("acct_inv_1"),
        account_name: row("Fund"),
        snapshot_date: d(2026, 3, 1),
        value_cents: 50_000_00,
    }];
    let asset_rows = vec![
        AssetValuationRow {
            account_id: row("acct_cash_1"),
            account_name: row("Bank"),
            asset_class: row("cash"),
            snapshot_date: d(2026, 3, 20),
            value_cents: 20_000_00,
        },
        AssetValuationRow {
            account_id: row("acct_re_1"),
            account_name: row("Home"),
            asset_class: row("real_estate"),
            snapshot_date: d(2026, 2, 1),
            value_cents: 300_000_00,
        },
        AssetValuationRow {
            account_id: row("acct_liab_1"),
            account_name: row("Mortgage"),
            asset_class: row("liability"),
            snapshot_date: d(2026, 3, 31),
            value_cents: 230_000_00,
        },
    ];
    (investment_rows, asset_rows)
}

#[test]
fn wealth_overview_totals_and_reconciliation() {
    let (inv, assets) = overview_fixture();
    let out = wealth_overview(inv, assets, all_filters(), d(2026, 3, 31));
    let s = &out.summary;
    assert_eq!(s.investment_total_cents, 50_000_00);
    assert_eq!(s.cash_total_cents, 20_000_00);
    assert_eq!(s.real_estate_total_cents, 300_000_00);
    assert_eq!(s.liability_total_cents, 230_000_00);
    assert_eq!(s.gross_assets_total_cents, 370_000_00);
    assert_eq!(s.net_asset_total_cents, 140_000_00);
    // The two aggregation paths agree: the self-test reconciles to zero.
    assert_eq!(s.reconciliation_delta_cents, 0);
    assert!(s.reconciliation_ok);
    assert_eq!(s.selected_rows_total_cents, s.net_asset_total_cents);
    assert_eq!(out.rows.len(), 4);
    // Rows are exactly the included inputs, in class emission order.
    assert_eq!(out.rows[0].asset_class, AssetClass::Investment);
    assert_eq!(out.rows[0].account_id, "acct_inv_1");
    assert_eq!(out.rows[1].asset_class, AssetClass::Cash);
    assert_eq!(out.rows[2].asset_class, AssetClass::RealEstate);
    assert_eq!(out.rows[3].asset_class, AssetClass::Liability);
    // stale_days measures against the reference date and is never negative.
    assert_eq!(out.rows[0].stale_days, d(2026, 3, 31).days - d(2026, 3, 1).days);
    assert!(out.rows.iter().all(|r| r.stale_days >= 0));
    assert_eq!(s.stale_account_count, 3);
}

#[test]
fn wealth_overview_excluding_liability() {
    let (inv, assets) = overview_fixture();
    let filters = WealthFilters { include_liability: false, ..all_filters() };
    let out = wealth_overview(inv, assets, filters, d(2026, 3, 31));
    assert_eq!(out.summary.net_asset_total_cents, 370_000_00);
    assert_eq!(out.rows.len(), 3);
    assert_eq!(out.summary.reconciliation_delta_cents, 0);
}

fn investment_entities() -> Vec<Vec<AsOfHistoryRow>> {
    vec![
        vec![
            AsOfHistoryRow { snapshot_date: d(2026, 1, 1), value_cents: 100000, flow_cents: 0 },
            AsOfHistoryRow { snapshot_date: d(2026, 4, 1), value_cents: 112000, flow_cents: 10000 },
            AsOfHistoryRow { snapshot_date: d(2026, 6, 30), value_cents: 120000, flow_cents: 0 },
        ],
        vec![AsOfHistoryRow { snapshot_date: d(2026, 2, 1), value_cents: 50000, flow_cents: 0 }],
    ]
}

#[test]
fn portfolio_return_aggregates_accounts() {
    let entities = investment_entities();
    let out = portfolio_return(&entities, "since_inception", "", "").unwrap();
    assert_eq!(out.account_count, 2);
    assert_eq!(out.window.effective_from, d(2026, 1, 1));
    assert_eq!(out.window.effective_to, d(2026, 6, 30));
    assert_eq!(out.begin_assets_cents, 100000);
    assert_eq!(out.end_assets_cents, 170000);
    assert_eq!(out.calc.net_flow_cents, 10000);
    assert_eq!(out.calc.profit_cents, 170000 - 100000 - 10000);
}

#[test]
fn portfolio_return_without_data_is_no_data() {
    let entities: Vec<Vec<AsOfHistoryRow>> = vec![vec![], vec![]];
    let r = portfolio_return(&entities, "ytd", "", "");
    assert_eq!(r.unwrap_err(), EngineError::NoData);
}

#[test]
fn portfolio_curve_has_one_row_per_union_date() {
    let entities = investment_entities();
    let out = portfolio_curve(&entities, "since_inception", "", "").unwrap();
    // Union dates: 2026-01-01, 02-01, 04-01, 06-30.
    assert_eq!(out.rows.len(), 4);
    assert_eq!(out.rows[0].snapshot_date, d(2026, 1, 1));
    assert_eq!(out.rows[1].snapshot_date, d(2026, 2, 1));
    assert_eq!(out.rows[1].total_assets_cents, 150000);
    assert_eq!(out.rows[2].transfer_amount_cents, 10000);
    assert_eq!(out.rows[3].total_assets_cents, 170000);
    assert_eq!(out.summary.count, 4);
    assert_eq!(out.summary.start_assets_cents, 100000);
    assert_eq!(out.summary.end_assets_cents, 170000);
    // Anchor row: zero cumulative growth, defined zero return.
    assert_eq!(out.rows[0].cumulative_net_growth_cents, 0);
    assert_eq!(out.rows[0].cumulative_return_rate.as_ref().unwrap().num, 0);
}

#[test]
fn wealth_curve_rows_and_growth_columns() {
    let inv = vec![vec![AsOfHistoryRow {
        snapshot_date: d(2026, 1, 10),
        value_cents: 1000,
        flow_cents: 0,
    }]];
    let cash = vec![vec![AsOfHistoryRow {
        snapshot_date: d(2026, 1, 20),
        value_cents: 500,
        flow_cents: 0,
    }]];
    let re: Vec<Vec<AsOfHistoryRow>> = vec![];
    let liab = vec![vec![AsOfHistoryRow {
        snapshot_date: d(2026, 1, 15),
        value_cents: 300,
        flow_cents: 0,
    }]];
    let window = resolve_window("custom", "2026-01-01", "2026-02-01", d(2026, 1, 1), d(2026, 2, 1))
        .unwrap();
    let out = wealth_curve(&inv, &cash, &re, &liab, all_filters(), window);
    // Dates: 01-01 (edge), 01-10, 01-15, 01-20, 02-01 (edge).
    assert_eq!(out.rows.len(), 5);
    let first = &out.rows[0];
    assert_eq!(first.wealth_total_cents, 0);
    let r3 = &out.rows[3];
    assert_eq!(r3.snapshot_date, d(2026, 1, 20));
    assert_eq!(r3.investment_total_cents, 1000);
    assert_eq!(r3.cash_total_cents, 500);
    assert_eq!(r3.liability_total_cents, 300);
    assert_eq!(r3.wealth_total_cents, 1500);
    assert_eq!(r3.net_asset_total_cents, 1200);
    assert_eq!(r3.wealth_net_growth_cents, 1500);
    let last = &out.rows[4];
    assert_eq!(out.summary.wealth.start_cents, first.wealth_total_cents);
    assert_eq!(out.summary.wealth.end_cents, last.wealth_total_cents);
    assert_eq!(out.summary.net_asset.change_cents, 1200);
    // A zero start leaves the change rate undefined.
    assert!(out.summary.wealth.change_rate.is_none());
}
