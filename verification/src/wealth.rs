//! The wealth compositor: multi-asset-class net-worth overview.
//!
//! Selected asset classes are summed into gross assets, liabilities are
//! netted off, and the individual account rows returned to the caller are
//! independently re-summed and compared against the net — a deliberate
//! self-test against drift between the class-subtotal path and the
//! row-emission path. Each row carries its staleness in days, so silently
//! outdated accounts are visible without failing the request.

use vstd::prelude::*;

use crate::date::Date;
use crate::dietz::money_bounded;
use crate::error::EngineError;
use crate::params::{bool_token, norm_token, parse_bool_param};

verus! {

/// Inclusion flags for the four asset classes.
#[derive(Clone, Copy, Debug, PartialEq, Eq, Structural)]
pub struct WealthFilters {
    pub include_investment: bool,
    pub include_cash: bool,
    pub include_real_estate: bool,
    pub include_liability: bool,
}

/// What one inclusion flag resolves to under the boolean grammar: blank
/// or absent text reads as included; an unknown token resolves to nothing.
pub open spec fn wealth_flag(raw: Option<&str>) -> Option<bool> {
    let t = norm_token(
        match raw {
            Some(s) => s@,
            None => Seq::<char>::empty(),
        },
    );
    if t.len() == 0 {
        Some(true)
    } else {
        bool_token(t)
    }
}

/// Parse the four inclusion flags (each defaulting to true); a malformed
/// flag, or selecting no class at all, is a validation error.
pub fn parse_wealth_filters(
    include_investment: Option<&str>,
    include_cash: Option<&str>,
    include_real_estate: Option<&str>,
    include_liability: Option<&str>,
) -> (r: Result<WealthFilters, EngineError>)
    ensures
        ({
            let fi = wealth_flag(include_investment);
            let fc = wealth_flag(include_cash);
            let fr = wealth_flag(include_real_estate);
            let fl = wealth_flag(include_liability);
            &&& (r is Err <==> (fi is None || fc is None || fr is None || fl is None || (fi
                == Some(false) && fc == Some(false) && fr == Some(false) && fl == Some(false))))
            &&& (r matches Ok(f) ==> fi == Some(f.include_investment) && fc == Some(
                f.include_cash,
            ) && fr == Some(f.include_real_estate) && fl == Some(f.include_liability))
            &&& (r matches Err(e) ==> e == EngineError::Validation)
        }),
{
    let inv = match parse_bool_param(include_investment, true) {
        Ok(b) => b,
        Err(e) => {
            return Err(e);
        },
    };
    let cash = match parse_bool_param(include_cash, true) {
        Ok(b) => b,
        Err(e) => {
            return Err(e);
        },
    };
    let re = match parse_bool_param(include_real_estate, true) {
        Ok(b) => b,
        Err(e) => {
            return Err(e);
        },
    };
    let liab = match parse_bool_param(include_liability, true) {
        Ok(b) => b,
        Err(e) => {
            return Err(e);
        },
    };
    if !(inv || cash || re || liab) {
        return Err(EngineError::Validation);
    }
    Ok(
        WealthFilters {
            include_investment: inv,
            include_cash: cash,
            include_real_estate: re,
            include_liability: liab,
        },
    )
}

/// The accepted asset-class keys.
#[derive(Clone, Copy, Debug, PartialEq, Eq, Structural)]
pub enum AssetClass {
    Investment,
    Cash,
    RealEstate,
    Liability,
}

impl AssetClass {
    /// The class's wire token.
    pub fn token(&self) -> (r: String)
        ensures
            *self == AssetClass::Investment ==> r@ == "investment"@,
            *self == AssetClass::Cash ==> r@ == "cash"@,
            *self == AssetClass::RealEstate ==> r@ == "real_estate"@,
            *self == AssetClass::Liability ==> r@ == "liability"@,
    {
        match self {
            AssetClass::Investment => String::from_str("investment"),
            AssetClass::Cash => String::from_str("cash"),
            AssetClass::RealEstate => String::from_str("real_estate"),
            AssetClass::Liability => String::from_str("liability"),
        }
    }
}

/// One latest-per-account investment observation at the reference date.
pub struct OverviewItemRow {
    pub account_id: String,
    pub account_name: String,
    pub snapshot_date: Date,
    pub value_cents: i64,
}

/// One latest-per-account asset valuation at the reference date, in the
/// class the store recorded for it.
pub struct AssetValuationRow {
    pub account_id: String,
    pub account_name: String,
    pub asset_class: String,
    pub snapshot_date: Date,
    pub value_cents: i64,
}

/// One emitted overview row.
pub struct WealthRow {
    pub asset_class: AssetClass,
    pub account_id: String,
    pub account_name: String,
    pub snapshot_date: Date,
    pub value_cents: i64,
    /// Days between the reference date and this account's last snapshot.
    pub stale_days: i64,
}

pub open spec fn sum_item_values(rows: Seq<OverviewItemRow>) -> int
    decreases rows.len(),
{
    if rows.len() == 0 {
        0
    } else {
        sum_item_values(rows.drop_last()) + rows.last().value_cents
    }
}

pub open spec fn sum_asset_values(rows: Seq<AssetValuationRow>) -> int
    decreases rows.len(),
{
    if rows.len() == 0 {
        0
    } else {
        sum_asset_values(rows.drop_last()) + rows.last().value_cents
    }
}

/// The rows recorded under one asset-class key, in input order.
pub open spec fn class_rows(rows: Seq<AssetValuationRow>, class: Seq<char>) -> Seq<
    AssetValuationRow,
>
    decreases rows.len(),
{
    if rows.len() == 0 {
        Seq::empty()
    } else {
        let rest = class_rows(rows.drop_last(), class);
        if rows.last().asset_class@ == class {
            rest.push(rows.last())
        } else {
            rest
        }
    }
}

/// Sum of the emitted rows' values over one side of the ledger: the
/// non-liability rows, or the liability rows.
pub open spec fn sum_rows_side(rows: Seq<WealthRow>, liability_side: bool) -> int
    decreases rows.len(),
{
    if rows.len() == 0 {
        0
    } else {
        sum_rows_side(rows.drop_last(), liability_side) + (
        if (rows.last().asset_class == AssetClass::Liability) == liability_side {
            rows.last().value_cents as int
        } else {
            0
        })
    }
}

pub open spec fn count_stale(rows: Seq<WealthRow>) -> int
    decreases rows.len(),
{
    if rows.len() == 0 {
        0
    } else {
        count_stale(rows.drop_last()) + if rows.last().stale_days > 0 {
            1int
        } else {
            0int
        }
    }
}

/// The emitted row for one investment observation at the reference date.
pub open spec fn overview_row_of(row: OverviewItemRow, as_of_day: int) -> WealthRow {
    WealthRow {
        asset_class: AssetClass::Investment,
        account_id: row.account_id,
        account_name: row.account_name,
        snapshot_date: row.snapshot_date,
        value_cents: row.value_cents,
        stale_days: (as_of_day - row.snapshot_date.days) as i64,
    }
}

/// The emitted row for one asset valuation at the reference date.
pub open spec fn asset_row_of(row: AssetValuationRow, class: AssetClass, as_of_day: int) -> WealthRow {
    WealthRow {
        asset_class: class,
        account_id: row.account_id,
        account_name: row.account_name,
        snapshot_date: row.snapshot_date,
        value_cents: row.value_cents,
        stale_days: (as_of_day - row.snapshot_date.days) as i64,
    }
}

pub open spec fn map_overview_rows(rows: Seq<OverviewItemRow>, as_of_day: int) -> Seq<WealthRow> {
    rows.map_values(|r: OverviewItemRow| overview_row_of(r, as_of_day))
}

pub open spec fn map_asset_rows(
    rows: Seq<AssetValuationRow>,
    class: AssetClass,
    as_of_day: int,
) -> Seq<WealthRow> {
    rows.map_values(|r: AssetValuationRow| asset_row_of(r, class, as_of_day))
}

proof fn lemma_class_rows_dates(rows: Seq<AssetValuationRow>, class: Seq<char>, d: int)
    requires
        forall|i: int| 0 <= i < rows.len() ==> (#[trigger] rows[i]).snapshot_date.days <= d,
    ensures
        forall|i: int|
            0 <= i < class_rows(rows, class).len() ==> (#[trigger] class_rows(rows, class)[i]).snapshot_date.days
                <= d,
    decreases rows.len(),
{
    if rows.len() > 0 {
        let rest = rows.drop_last();
        assert(forall|i: int|
            0 <= i < rest.len() ==> (#[trigger] rest[i]).snapshot_date.days <= d) by {
            assert(forall|i: int| 0 <= i < rest.len() ==> rest[i] == rows[i]);
        }
        lemma_class_rows_dates(rest, class, d);
        let cr = class_rows(rows, class);
        let crr = class_rows(rest, class);
        if rows.last().asset_class@ == class {
            assert(cr == crr.push(rows.last()));
            assert(forall|i: int|
                0 <= i < cr.len() ==> (#[trigger] cr[i]).snapshot_date.days <= d) by {
                assert(forall|i: int| 0 <= i < crr.len() ==> cr[i] == crr[i]);
                assert(cr[cr.len() - 1] == rows.last());
            }
        }
    }
}

/// Class subtotals, the two aggregation paths, and their reconciliation.
pub struct WealthSummary {
    pub investment_total_cents: i64,
    pub cash_total_cents: i64,
    pub real_estate_total_cents: i64,
    pub liability_total_cents: i64,
    /// Sum of the included non-liability class totals.
    pub gross_assets_total_cents: i64,
    /// Gross assets minus the included liability total.
    pub net_asset_total_cents: i64,
    pub selected_rows_assets_total_cents: i64,
    pub selected_rows_liability_total_cents: i64,
    pub selected_rows_total_cents: i64,
    /// `selected_rows_total - net_asset_total`; zero whenever no account
    /// is double-counted across buckets.
    pub reconciliation_delta_cents: i64,
    pub reconciliation_ok: bool,
    pub stale_account_count: usize,
}

pub struct WealthOverviewResult {
    pub summary: WealthSummary,
    pub rows: Vec<WealthRow>,
}

pub open spec fn rows_values_bounded(rows: Seq<AssetValuationRow>) -> bool {
    forall|i: int|
        0 <= i < rows.len() ==> money_bounded((#[trigger] rows[i]).value_cents as int) && rows[i].snapshot_date.wf()
}

proof fn lemma_class_rows_sum_bound(rows: Seq<AssetValuationRow>, class: Seq<char>)
    requires
        rows_values_bounded(rows),
        rows.len() <= 1000,
    ensures
        -1_000_000_000_000_000_000 <= sum_asset_values(class_rows(rows, class))
            <= 1_000_000_000_000_000_000,
        class_rows(rows, class).len() <= rows.len(),
        rows_values_bounded(class_rows(rows, class)),
{
    lemma_class_rows_sum_bound_rec(rows, class);
    let n = class_rows(rows, class).len() as int;
    assert(n * 1_000_000_000_000_000 <= 1_000_000_000_000_000_000) by (nonlinear_arith)
        requires
            0 <= n <= 1000,
    ;
}

proof fn lemma_class_rows_sum_bound_rec(rows: Seq<AssetValuationRow>, class: Seq<char>)
    requires
        rows_values_bounded(rows),
    ensures
        class_rows(rows, class).len() <= rows.len(),
        rows_values_bounded(class_rows(rows, class)),
        -(class_rows(rows, class).len() as int) * 1_000_000_000_000_000 <= sum_asset_values(
            class_rows(rows, class),
        ) <= (class_rows(rows, class).len() as int) * 1_000_000_000_000_000,
    decreases rows.len(),
{
    if rows.len() == 0 {
    } else {
        let rest = rows.drop_last();
        assert(rows_values_bounded(rest)) by {
            assert(forall|i: int| 0 <= i < rest.len() ==> rest[i] == rows[i]);
        }
        lemma_class_rows_sum_bound_rec(rest, class);
        let cr = class_rows(rows, class);
        let crr = class_rows(rest, class);
        if rows.last().asset_class@ == class {
            assert(cr == crr.push(rows.last()));
            assert(forall|i: int|
                0 <= i < cr.len() ==> money_bounded((#[trigger] cr[i]).value_cents as int)
                    && cr[i].snapshot_date.wf()) by {
                assert(forall|i: int| 0 <= i < crr.len() ==> cr[i] == crr[i]);
                assert(cr[cr.len() - 1] == rows.last());
            }
            assert(money_bounded(rows.last().value_cents as int));
            assert(-1_000_000_000_000_000 <= rows.last().value_cents <= 1_000_000_000_000_000);
            assert(cr.drop_last() =~= crr);
            assert(cr.last() == rows.last());
            assert(sum_asset_values(cr) == sum_asset_values(crr) + rows.last().value_cents);
            let n = crr.len() as int;
            assert((n + 1) * 1_000_000_000_000_000 == n * 1_000_000_000_000_000
                + 1_000_000_000_000_000) by (nonlinear_arith);
            assert(cr.len() as int == n + 1);
        } else {
            assert(cr == crr);
        }
    }
}

/// Compose the wealth overview from the latest-per-account rows at the
/// reference date.
///
/// The summary's class totals sum the handed-in rows per class; gross and
/// net follow the filters; and the emitted rows are independently
/// re-summed into the `selected_rows_*` figures. The reconciliation delta
/// is proven zero: with each account row in exactly one bucket, the two
/// aggregation paths always agree.
#[verifier::loop_isolation(false)]
#[verifier::rlimit(60)]
pub fn wealth_overview(
    investment_rows: Vec<OverviewItemRow>,
    asset_rows: Vec<AssetValuationRow>,
    filters: WealthFilters,
    effective_as_of: Date,
) -> (r: WealthOverviewResult)
    requires
        investment_rows@.len() <= 1000,
        asset_rows@.len() <= 1000,
        forall|i: int|
            0 <= i < investment_rows@.len() ==> money_bounded(
                (#[trigger] investment_rows@[i]).value_cents as int,
            ) && investment_rows@[i].snapshot_date.wf(),
        rows_values_bounded(asset_rows@),
        effective_as_of.wf(),
        forall|i: int|
            0 <= i < investment_rows@.len() ==> (#[trigger] investment_rows@[i]).snapshot_date.days
                <= effective_as_of.days,
        forall|i: int|
            0 <= i < asset_rows@.len() ==> (#[trigger] asset_rows@[i]).snapshot_date.days
                <= effective_as_of.days,
    ensures
        ({
            let s = r.summary;
            let inv = investment_rows@;
            let assets = asset_rows@;
            let as_of_day = effective_as_of.days as int;
            &&& s.investment_total_cents == sum_item_values(inv)
            &&& s.cash_total_cents == sum_asset_values(class_rows(assets, "cash"@))
            &&& s.real_estate_total_cents == sum_asset_values(class_rows(assets, "real_estate"@))
            &&& s.liability_total_cents == sum_asset_values(class_rows(assets, "liability"@))
            &&& s.gross_assets_total_cents == (if filters.include_investment {
                s.investment_total_cents as int
            } else {
                0
            }) + (if filters.include_cash {
                s.cash_total_cents as int
            } else {
                0
            }) + (if filters.include_real_estate {
                s.real_estate_total_cents as int
            } else {
                0
            })
            &&& s.net_asset_total_cents == s.gross_assets_total_cents - (
            if filters.include_liability {
                s.liability_total_cents as int
            } else {
                0
            })
            &&& s.selected_rows_assets_total_cents == sum_rows_side(r.rows@, false)
            &&& s.selected_rows_liability_total_cents == sum_rows_side(r.rows@, true)
            &&& s.selected_rows_total_cents == s.selected_rows_assets_total_cents
                - s.selected_rows_liability_total_cents
            &&& s.reconciliation_delta_cents == s.selected_rows_total_cents
                - s.net_asset_total_cents
            &&& s.reconciliation_delta_cents == 0
            &&& s.reconciliation_ok
            &&& s.stale_account_count == count_stale(r.rows@)
            &&& r.rows@ == (if filters.include_investment {
                map_overview_rows(inv, as_of_day)
            } else {
                Seq::<WealthRow>::empty()
            }) + (if filters.include_cash {
                map_asset_rows(class_rows(assets, "cash"@), AssetClass::Cash, as_of_day)
            } else {
                Seq::<WealthRow>::empty()
            }) + (if filters.include_real_estate {
                map_asset_rows(class_rows(assets, "real_estate"@), AssetClass::RealEstate, as_of_day)
            } else {
                Seq::<WealthRow>::empty()
            }) + (if filters.include_liability {
                map_asset_rows(class_rows(assets, "liability"@), AssetClass::Liability, as_of_day)
            } else {
                Seq::<WealthRow>::empty()
            })
            &&& forall|k: int|
                0 <= k < r.rows@.len() ==> (#[trigger] r.rows@[k]).stale_days
                    == effective_as_of.days - r.rows@[k].snapshot_date.days
                    && r.rows@[k].stale_days >= 0
        }),
{
    let ghost inv_seq = investment_rows@;
    let ghost asset_seq = asset_rows@;

    // Split the valuation rows into the three stored classes.
    let mut cash_rows: Vec<AssetValuationRow> = Vec::new();
    let mut re_rows: Vec<AssetValuationRow> = Vec::new();
    let mut liab_rows: Vec<AssetValuationRow> = Vec::new();
    let mut i: usize = 0;
    proof {
        assert(class_rows(asset_seq.take(0), "cash"@) =~= Seq::<AssetValuationRow>::empty());
        assert(class_rows(asset_seq.take(0), "real_estate"@) =~= Seq::<
            AssetValuationRow,
        >::empty());
        assert(class_rows(asset_seq.take(0), "liability"@) =~= Seq::<AssetValuationRow>::empty());
    }
    while i < asset_rows.len()
        invariant
            i <= asset_seq.len(),
            cash_rows@ == class_rows(asset_seq.take(i as int), "cash"@),
            re_rows@ == class_rows(asset_seq.take(i as int), "real_estate"@),
            liab_rows@ == class_rows(asset_seq.take(i as int), "liability"@),
        decreases asset_seq.len() - i,
    {
        let row = &asset_rows[i];
        proof {
            assert(asset_seq.take(i as int + 1).drop_last() =~= asset_seq.take(i as int));
            assert(asset_seq.take(i as int + 1).last() == asset_seq[i as int]);
        }
        proof {
            reveal_strlit("cash");
            reveal_strlit("real_estate");
            reveal_strlit("liability");
        }
        let cloned = AssetValuationRow {
            account_id: row.account_id.clone(),
            account_name: row.account_name.clone(),
            asset_class: row.asset_class.clone(),
            snapshot_date: row.snapshot_date,
            value_cents: row.value_cents,
        };
        proof {
            assert(cloned == asset_seq[i as int]);
        }
        if crate::text::str_eq(cloned.asset_class.as_str(), "cash") {
            cash_rows.push(cloned);
            proof {
                reveal_strlit("cash");
                reveal_strlit("real_estate");
                reveal_strlit("liability");
                assert("cash"@.len() == 4 && "real_estate"@.len() == 11 && "liability"@.len()
                    == 9);
                assert("cash"@ != "real_estate"@ && "cash"@ != "liability"@ && "real_estate"@
                    != "liability"@);
                assert(cash_rows@ =~= class_rows(asset_seq.take(i as int + 1), "cash"@));
                assert(re_rows@ =~= class_rows(asset_seq.take(i as int + 1), "real_estate"@));
                assert(liab_rows@ =~= class_rows(asset_seq.take(i as int + 1), "liability"@));
            }
        } else if crate::text::str_eq(cloned.asset_class.as_str(), "real_estate") {
            re_rows.push(cloned);
            proof {
                reveal_strlit("cash");
                reveal_strlit("real_estate");
                reveal_strlit("liability");
                assert("cash"@.len() == 4 && "real_estate"@.len() == 11 && "liability"@.len()
                    == 9);
                assert("cash"@ != "real_estate"@ && "cash"@ != "liability"@ && "real_estate"@
                    != "liability"@);
                assert(cash_rows@ =~= class_rows(asset_seq.take(i as int + 1), "cash"@));
                assert(re_rows@ =~= class_rows(asset_seq.take(i as int + 1), "real_estate"@));
                assert(liab_rows@ =~= class_rows(asset_seq.take(i as int + 1), "liability"@));
            }
        } else if crate::text::str_eq(cloned.asset_class.as_str(), "liability") {
            liab_rows.push(cloned);
            proof {
                reveal_strlit("cash");
                reveal_strlit("real_estate");
                reveal_strlit("liability");
                assert("cash"@.len() == 4 && "real_estate"@.len() == 11 && "liability"@.len()
                    == 9);
                assert("cash"@ != "real_estate"@ && "cash"@ != "liability"@ && "real_estate"@
                    != "liability"@);
                assert(cash_rows@ =~= class_rows(asset_seq.take(i as int + 1), "cash"@));
                assert(re_rows@ =~= class_rows(asset_seq.take(i as int + 1), "real_estate"@));
                assert(liab_rows@ =~= class_rows(asset_seq.take(i as int + 1), "liability"@));
            }
        } else {
            proof {
                reveal_strlit("cash");
                reveal_strlit("real_estate");
                reveal_strlit("liability");
                assert("cash"@.len() == 4 && "real_estate"@.len() == 11 && "liability"@.len()
                    == 9);
                assert("cash"@ != "real_estate"@ && "cash"@ != "liability"@ && "real_estate"@
                    != "liability"@);
                assert(cash_rows@ =~= class_rows(asset_seq.take(i as int + 1), "cash"@));
                assert(re_rows@ =~= class_rows(asset_seq.take(i as int + 1), "real_estate"@));
                assert(liab_rows@ =~= class_rows(asset_seq.take(i as int + 1), "liability"@));
            }
        }
        i += 1;
    }
    proof {
        assert(asset_seq.take(asset_seq.len() as int) =~= asset_seq);
    }

    // Class subtotals.
    proof {
        lemma_sum_items_bound(inv_seq);
        lemma_class_rows_sum_bound(asset_seq, "cash"@);
        lemma_class_rows_sum_bound(asset_seq, "real_estate"@);
        lemma_class_rows_sum_bound(asset_seq, "liability"@);
    }
    let investment_total = sum_items(&investment_rows);
    let cash_total = sum_assets(&cash_rows);
    let real_estate_total = sum_assets(&re_rows);
    let liability_total = sum_assets(&liab_rows);
    let gross_assets_total = (if filters.include_investment {
        investment_total
    } else {
        0
    }) + (if filters.include_cash {
        cash_total
    } else {
        0
    }) + (if filters.include_real_estate {
        real_estate_total
    } else {
        0
    });
    let selected_liability_total = if filters.include_liability {
        liability_total
    } else {
        0
    };
    let net_asset_total = gross_assets_total - selected_liability_total;

    // Emit the selected rows, re-summing the two sides as we go.
    let mut rows: Vec<WealthRow> = Vec::new();
    let mut sel_assets: i64 = 0;
    let mut sel_liab: i64 = 0;
    let mut stale_count: usize = 0;

    let ghost as_of_day = effective_as_of.days as int;
    if filters.include_investment {
        let mut k: usize = 0;
        proof {
            assert(map_overview_rows(inv_seq.take(0), as_of_day) =~= Seq::<WealthRow>::empty());
        }
        while k < investment_rows.len()
            invariant
                k <= inv_seq.len(),
                sum_rows_side(rows@, false) == sel_assets,
                sel_assets == sum_item_values(inv_seq.take(k as int)),
                sum_rows_side(rows@, true) == 0,
                sel_liab == 0,
                stale_count == count_stale(rows@),
                stale_count <= rows@.len() == k,
                -1_000_000_000_000_000_000 <= sel_assets <= 1_000_000_000_000_000_000,
                rows@ == map_overview_rows(inv_seq.take(k as int), as_of_day),
                forall|j: int|
                    0 <= j < rows@.len() ==> (#[trigger] rows@[j]).stale_days
                        == effective_as_of.days - rows@[j].snapshot_date.days
                        && rows@[j].stale_days >= 0,
            decreases inv_seq.len() - k,
        {
            let row = &investment_rows[k];
            proof {
                assert(inv_seq.take(k as int + 1).drop_last() =~= inv_seq.take(k as int));
                assert(inv_seq.take(k as int + 1).last() == inv_seq[k as int]);
                lemma_sum_items_bound(inv_seq.take(k as int + 1));
            }
            let stale_days = effective_as_of.days - row.snapshot_date.days;
            let ghost pre_rows = rows@;
            rows.push(
                WealthRow {
                    asset_class: AssetClass::Investment,
                    account_id: row.account_id.clone(),
                    account_name: row.account_name.clone(),
                    snapshot_date: row.snapshot_date,
                    value_cents: row.value_cents,
                    stale_days,
                },
            );
            proof {
                assert(rows@.drop_last() =~= pre_rows);
                assert(rows@.last().asset_class == AssetClass::Investment);
                assert(rows@.last() == overview_row_of(inv_seq[k as int], as_of_day));
                assert(rows@ =~= map_overview_rows(inv_seq.take(k as int + 1), as_of_day));
            }
            sel_assets = sel_assets + row.value_cents;
            if stale_days > 0 {
                stale_count = stale_count + 1;
            }
            k += 1;
        }
        proof {
            assert(inv_seq.take(inv_seq.len() as int) =~= inv_seq);
        }
    }
    let ghost seg_inv = rows@;
    proof {
        assert(seg_inv == if filters.include_investment {
            map_overview_rows(inv_seq, as_of_day)
        } else {
            Seq::<WealthRow>::empty()
        });
        lemma_class_rows_dates(asset_seq, "cash"@, as_of_day);
        lemma_class_rows_dates(asset_seq, "real_estate"@, as_of_day);
        lemma_class_rows_dates(asset_seq, "liability"@, as_of_day);
    }
    push_class_rows(
        &mut rows,
        &cash_rows,
        AssetClass::Cash,
        filters.include_cash,
        effective_as_of,
        &mut sel_assets,
        &mut sel_liab,
        &mut stale_count,
    );
    push_class_rows(
        &mut rows,
        &re_rows,
        AssetClass::RealEstate,
        filters.include_real_estate,
        effective_as_of,
        &mut sel_assets,
        &mut sel_liab,
        &mut stale_count,
    );
    push_class_rows(
        &mut rows,
        &liab_rows,
        AssetClass::Liability,
        filters.include_liability,
        effective_as_of,
        &mut sel_assets,
        &mut sel_liab,
        &mut stale_count,
    );
    proof {
        let seg_cash: Seq<WealthRow> = if filters.include_cash {
            map_asset_rows(class_rows(asset_seq, "cash"@), AssetClass::Cash, as_of_day)
        } else {
            Seq::<WealthRow>::empty()
        };
        let seg_re: Seq<WealthRow> = if filters.include_real_estate {
            map_asset_rows(class_rows(asset_seq, "real_estate"@), AssetClass::RealEstate, as_of_day)
        } else {
            Seq::<WealthRow>::empty()
        };
        let seg_liab: Seq<WealthRow> = if filters.include_liability {
            map_asset_rows(class_rows(asset_seq, "liability"@), AssetClass::Liability, as_of_day)
        } else {
            Seq::<WealthRow>::empty()
        };
        assert(rows@ =~= seg_inv + seg_cash + seg_re + seg_liab);
    }

    let selected_rows_total = sel_assets - sel_liab;
    let reconciliation_delta = selected_rows_total - net_asset_total;
    let summary = WealthSummary {
        investment_total_cents: investment_total,
        cash_total_cents: cash_total,
        real_estate_total_cents: real_estate_total,
        liability_total_cents: liability_total,
        gross_assets_total_cents: gross_assets_total,
        net_asset_total_cents: net_asset_total,
        selected_rows_assets_total_cents: sel_assets,
        selected_rows_liability_total_cents: sel_liab,
        selected_rows_total_cents: selected_rows_total,
        reconciliation_delta_cents: reconciliation_delta,
        reconciliation_ok: reconciliation_delta == 0,
        stale_account_count: stale_count,
    };
    WealthOverviewResult { summary, rows }
}

/// Append one class's rows (when included), extending the side sums.
#[verifier::loop_isolation(false)]
fn push_class_rows(
    rows: &mut Vec<WealthRow>,
    class_list: &Vec<AssetValuationRow>,
    class: AssetClass,
    selected: bool,
    effective_as_of: Date,
    sel_assets: &mut i64,
    sel_liab: &mut i64,
    stale_count: &mut usize,
)
    requires
        old(rows)@.len() <= 100_000,
        class_list@.len() <= 1000,
        rows_values_bounded(class_list@),
        effective_as_of.wf(),
        forall|i: int|
            0 <= i < class_list@.len() ==> (#[trigger] class_list@[i]).snapshot_date.days
                <= effective_as_of.days,
        sum_rows_side(old(rows)@, false) == *old(sel_assets),
        sum_rows_side(old(rows)@, true) == *old(sel_liab),
        count_stale(old(rows)@) == *old(stale_count) <= old(rows)@.len(),
        -4_000_000_000_000_000_000 <= *old(sel_assets) <= 4_000_000_000_000_000_000,
        -4_000_000_000_000_000_000 <= *old(sel_liab) <= 4_000_000_000_000_000_000,
        forall|j: int|
            0 <= j < old(rows)@.len() ==> (#[trigger] old(rows)@[j]).stale_days
                == effective_as_of.days - old(rows)@[j].snapshot_date.days
                && old(rows)@[j].stale_days >= 0,
    ensures
        sum_rows_side(final(rows)@, false) == *final(sel_assets),
        sum_rows_side(final(rows)@, true) == *final(sel_liab),
        count_stale(final(rows)@) == *final(stale_count) <= final(rows)@.len(),
        final(rows)@.len() <= old(rows)@.len() + class_list@.len(),
        final(rows)@ == old(rows)@ + (if selected {
            map_asset_rows(class_list@, class, effective_as_of.days as int)
        } else {
            Seq::<WealthRow>::empty()
        }),
        forall|j: int|
            0 <= j < final(rows)@.len() ==> (#[trigger] final(rows)@[j]).stale_days
                == effective_as_of.days - final(rows)@[j].snapshot_date.days
                && final(rows)@[j].stale_days >= 0,
        *final(sel_assets) == *old(sel_assets) + (if selected && class != AssetClass::Liability {
            sum_asset_values(class_list@)
        } else {
            0
        }),
        *final(sel_liab) == *old(sel_liab) + (if selected && class == AssetClass::Liability {
            sum_asset_values(class_list@)
        } else {
            0
        }),
{
    if !selected {
        proof {
            assert(rows@ =~= old(rows)@ + Seq::<WealthRow>::empty());
        }
        return ;
    }
    let mut k: usize = 0;
    proof {
        assert(class_list@.take(0) =~= Seq::<AssetValuationRow>::empty());
        assert(map_asset_rows(class_list@.take(0), class, effective_as_of.days as int) =~= Seq::<
            WealthRow,
        >::empty());
        assert(rows@ =~= old(rows)@ + map_asset_rows(
            class_list@.take(0),
            class,
            effective_as_of.days as int,
        ));
        lemma_sum_assets_len_bound(class_list@);
    }
    while k < class_list.len()
        invariant
            k <= class_list@.len(),
            sum_rows_side(rows@, false) == *sel_assets,
            sum_rows_side(rows@, true) == *sel_liab,
            count_stale(rows@) == *stale_count <= rows@.len(),
            rows@.len() == old(rows)@.len() + k,
            rows@ == old(rows)@ + map_asset_rows(
                class_list@.take(k as int),
                class,
                effective_as_of.days as int,
            ),
            *sel_assets == *old(sel_assets) + (if class != AssetClass::Liability {
                sum_asset_values(class_list@.take(k as int))
            } else {
                0
            }),
            *sel_liab == *old(sel_liab) + (if class == AssetClass::Liability {
                sum_asset_values(class_list@.take(k as int))
            } else {
                0
            }),
            forall|j: int|
                0 <= j < rows@.len() ==> (#[trigger] rows@[j]).stale_days == effective_as_of.days
                    - rows@[j].snapshot_date.days && rows@[j].stale_days >= 0,
        decreases class_list@.len() - k,
    {
        let row = &class_list[k];
        proof {
            assert(class_list@.take(k as int + 1).drop_last() =~= class_list@.take(k as int));
            assert(class_list@.take(k as int + 1).last() == class_list@[k as int]);
            lemma_sum_assets_len_bound(class_list@.take(k as int));
            lemma_sum_assets_len_bound(class_list@.take(k as int + 1));
        }
        let stale_days = effective_as_of.days - row.snapshot_date.days;
        let ghost pre_rows = rows@;
        rows.push(
            WealthRow {
                asset_class: class,
                account_id: row.account_id.clone(),
                account_name: row.account_name.clone(),
                snapshot_date: row.snapshot_date,
                value_cents: row.value_cents,
                stale_days,
            },
        );
        proof {
            assert(rows@.drop_last() =~= pre_rows);
            assert(rows@.last().asset_class == class);
            assert(rows@.last() == asset_row_of(
                class_list@[k as int],
                class,
                effective_as_of.days as int,
            ));
            assert(rows@ =~= old(rows)@ + map_asset_rows(
                class_list@.take(k as int + 1),
                class,
                effective_as_of.days as int,
            ));
        }
        match class {
            AssetClass::Liability => {
                *sel_liab = *sel_liab + row.value_cents;
            },
            _ => {
                *sel_assets = *sel_assets + row.value_cents;
            },
        }
        if stale_days > 0 {
            *stale_count = *stale_count + 1;
        }
        k += 1;
    }
    proof {
        assert(class_list@.take(class_list@.len() as int) =~= class_list@);
    }
}

/// Resolve the overview's reference date: the explicit `as_of` (or the
/// latest observed date when blank), clipped to not exceed the latest
/// observed date. With no data at all the overview is a no-data failure.
pub fn resolve_as_of(as_of_raw: &str, latest_available: Option<Date>) -> (r: Result<
    (Date, Date),
    EngineError,
>)
    requires
        latest_available matches Some(d) ==> d.wf(),
    ensures
        latest_available is None ==> r == Err::<(Date, Date), EngineError>(EngineError::NoData),
        latest_available matches Some(latest) ==> ({
            let t = crate::text::trim_of(as_of_raw@);
            if t.len() == 0 {
                r == Ok::<(Date, Date), EngineError>((latest, latest))
            } else {
                match crate::date::parse_iso_spec(as_of_raw@) {
                    None => r == Err::<(Date, Date), EngineError>(EngineError::Validation),
                    Some(d) => r matches Ok(p) && p.0.days == d && p.1.days == (
                    if d < latest.days {
                        d
                    } else {
                        latest.days as int
                    }) && p.1.wf(),
                }
            }
        }),
{
    let latest = match latest_available {
        Some(d) => d,
        None => {
            return Err(EngineError::NoData);
        },
    };
    let cs = crate::text::str_chars(as_of_raw);
    let t = crate::text::trim_chars(&cs);
    if t.len() == 0 {
        return Ok((latest, latest));
    }
    let requested = match crate::date::parse_iso_date(as_of_raw) {
        Ok(d) => d,
        Err(e) => {
            return Err(e);
        },
    };
    let effective = if requested.days < latest.days {
        requested
    } else {
        latest
    };
    Ok((requested, effective))
}

/// One row of the wealth curve: per-class as-of totals at one date, the
/// filtered wealth and net figures, and growth against the first row.
#[derive(Clone, Copy, Debug, PartialEq, Eq, Structural)]
pub struct WealthCurvePoint {
    pub snapshot_date: Date,
    pub investment_total_cents: i64,
    pub cash_total_cents: i64,
    pub real_estate_total_cents: i64,
    pub liability_total_cents: i64,
    pub wealth_total_cents: i64,
    pub net_asset_total_cents: i64,
    pub wealth_net_growth_cents: i64,
    pub liability_net_growth_cents: i64,
    pub net_asset_net_growth_cents: i64,
    pub investment_net_growth_cents: i64,
    pub cash_net_growth_cents: i64,
    pub real_estate_net_growth_cents: i64,
}

/// Start/end/change of one curve column, with the change as a fraction of
/// a positive start.
#[derive(Clone, Copy, Debug, PartialEq, Eq, Structural)]
pub struct WealthColumnSummary {
    pub start_cents: i64,
    pub end_cents: i64,
    pub change_cents: i64,
    pub change_rate: Option<crate::dietz::Ratio>,
}

/// The wealth curve's summary, derived only from the first and last rows.
#[derive(Clone, Copy, Debug, PartialEq, Eq, Structural)]
pub struct WealthCurveSummary {
    pub wealth: WealthColumnSummary,
    pub liability: WealthColumnSummary,
    pub net_asset: WealthColumnSummary,
    pub investment: WealthColumnSummary,
    pub cash: WealthColumnSummary,
    pub real_estate: WealthColumnSummary,
}

pub open spec fn column_summary_spec(start: int, end: int) -> WealthColumnSummary {
    WealthColumnSummary {
        start_cents: start as i64,
        end_cents: end as i64,
        change_cents: (end - start) as i64,
        change_rate: if start > 0 {
            Some(crate::dietz::Ratio { num: (end - start) as i128, den: start as i128 })
        } else {
            None
        },
    }
}

fn exec_column_summary(start: i64, end: i64) -> (r: WealthColumnSummary)
    requires
        -4_000_000_000_000_000_000 <= start <= 4_000_000_000_000_000_000,
        -4_000_000_000_000_000_000 <= end <= 4_000_000_000_000_000_000,
    ensures
        r == column_summary_spec(start as int, end as int),
{
    WealthColumnSummary {
        start_cents: start,
        end_cents: end,
        change_cents: end - start,
        change_rate: if start > 0 {
            Some(crate::dietz::Ratio { num: (end as i128) - (start as i128), den: start as i128 })
        } else {
            None
        },
    }
}

/// The full result of a wealth curve request.
pub struct WealthCurveResult {
    pub window: crate::window::Window,
    pub rows: Vec<WealthCurvePoint>,
    pub summary: WealthCurveSummary,
}

/// Entity groups a curve can be computed over.
pub open spec fn class_groups_wf(gs: Seq<Seq<crate::asof::AsOfHistoryRow>>) -> bool {
    &&& forall|e: int| 0 <= e < gs.len() ==> crate::asof::series_wf(#[trigger] gs[e])
    &&& gs.len() <= 1000
}

/// Build the wealth curve: one row per date in the union of all four
/// classes' snapshot dates inside the effective window (plus the window
/// edges). Each row carries the four class totals from the as-of
/// aggregator, the filtered wealth and net figures, and the growth of
/// every column against the first row; the summary is derived only from
/// the first and last rows.
#[verifier::loop_isolation(false)]
#[verifier::rlimit(100)]
pub fn wealth_curve(
    investment_entities: &Vec<Vec<crate::asof::AsOfHistoryRow>>,
    cash_entities: &Vec<Vec<crate::asof::AsOfHistoryRow>>,
    real_estate_entities: &Vec<Vec<crate::asof::AsOfHistoryRow>>,
    liability_entities: &Vec<Vec<crate::asof::AsOfHistoryRow>>,
    filters: WealthFilters,
    window: crate::window::Window,
) -> (r: WealthCurveResult)
    requires
        class_groups_wf(investment_entities@.map_values(|v: Vec<crate::asof::AsOfHistoryRow>| v@)),
        class_groups_wf(cash_entities@.map_values(|v: Vec<crate::asof::AsOfHistoryRow>| v@)),
        class_groups_wf(real_estate_entities@.map_values(|v: Vec<crate::asof::AsOfHistoryRow>| v@)),
        class_groups_wf(liability_entities@.map_values(|v: Vec<crate::asof::AsOfHistoryRow>| v@)),
        window.effective_from.wf(),
        window.effective_to.wf(),
        window.effective_from.days <= window.effective_to.days,
    ensures
        ({
            let inv = investment_entities@.map_values(|v: Vec<crate::asof::AsOfHistoryRow>| v@);
            let cash = cash_entities@.map_values(|v: Vec<crate::asof::AsOfHistoryRow>| v@);
            let re = real_estate_entities@.map_values(|v: Vec<crate::asof::AsOfHistoryRow>| v@);
            let liab = liability_entities@.map_values(|v: Vec<crate::asof::AsOfHistoryRow>| v@);
            let rows = r.rows@;
            &&& r.window == window
            &&& rows.len() >= 1
            &&& (forall|i: int, j: int|
                0 <= i < j < rows.len() ==> (#[trigger] rows[i]).snapshot_date.days < (
                #[trigger] rows[j]).snapshot_date.days)
            &&& (forall|x: int|
                (exists|k: int|
                    0 <= k < rows.len() && (#[trigger] rows[k]).snapshot_date.days == x) <==> (x
                    == window.effective_from.days || x == window.effective_to.days || (
                window.effective_from.days <= x <= window.effective_to.days && (
                crate::asof::day_in_groups(inv, x) || crate::asof::day_in_groups(cash, x)
                    || crate::asof::day_in_groups(re, x) || crate::asof::day_in_groups(liab, x)))))
            &&& (forall|k: int|
                0 <= k < rows.len() ==> ({
                    let d = (#[trigger] rows[k]).snapshot_date.days as int;
                    &&& rows[k].investment_total_cents == crate::asof::asof_total(inv, d)
                    &&& rows[k].cash_total_cents == crate::asof::asof_total(cash, d)
                    &&& rows[k].real_estate_total_cents == crate::asof::asof_total(re, d)
                    &&& rows[k].liability_total_cents == crate::asof::asof_total(liab, d)
                    &&& rows[k].wealth_total_cents == (if filters.include_investment {
                        rows[k].investment_total_cents as int
                    } else {
                        0
                    }) + (if filters.include_cash {
                        rows[k].cash_total_cents as int
                    } else {
                        0
                    }) + (if filters.include_real_estate {
                        rows[k].real_estate_total_cents as int
                    } else {
                        0
                    })
                    &&& rows[k].net_asset_total_cents == rows[k].wealth_total_cents - (
                    if filters.include_liability {
                        rows[k].liability_total_cents as int
                    } else {
                        0
                    })
                    &&& rows[k].wealth_net_growth_cents == rows[k].wealth_total_cents
                        - rows[0].wealth_total_cents
                    &&& rows[k].liability_net_growth_cents == rows[k].liability_total_cents
                        - rows[0].liability_total_cents
                    &&& rows[k].net_asset_net_growth_cents == rows[k].net_asset_total_cents
                        - rows[0].net_asset_total_cents
                    &&& rows[k].investment_net_growth_cents == rows[k].investment_total_cents
                        - rows[0].investment_total_cents
                    &&& rows[k].cash_net_growth_cents == rows[k].cash_total_cents
                        - rows[0].cash_total_cents
                    &&& rows[k].real_estate_net_growth_cents == rows[k].real_estate_total_cents
                        - rows[0].real_estate_total_cents
                }))
            &&& r.summary.wealth == column_summary_spec(
                rows[0].wealth_total_cents as int,
                rows[rows.len() - 1].wealth_total_cents as int,
            )
            &&& r.summary.liability == column_summary_spec(
                rows[0].liability_total_cents as int,
                rows[rows.len() - 1].liability_total_cents as int,
            )
            &&& r.summary.net_asset == column_summary_spec(
                rows[0].net_asset_total_cents as int,
                rows[rows.len() - 1].net_asset_total_cents as int,
            )
            &&& r.summary.investment == column_summary_spec(
                rows[0].investment_total_cents as int,
                rows[rows.len() - 1].investment_total_cents as int,
            )
            &&& r.summary.cash == column_summary_spec(
                rows[0].cash_total_cents as int,
                rows[rows.len() - 1].cash_total_cents as int,
            )
            &&& r.summary.real_estate == column_summary_spec(
                rows[0].real_estate_total_cents as int,
                rows[rows.len() - 1].real_estate_total_cents as int,
            )
        }),
{
    let ghost inv = investment_entities@.map_values(|v: Vec<crate::asof::AsOfHistoryRow>| v@);
    let ghost cashg = cash_entities@.map_values(|v: Vec<crate::asof::AsOfHistoryRow>| v@);
    let ghost reg = real_estate_entities@.map_values(|v: Vec<crate::asof::AsOfHistoryRow>| v@);
    let ghost liabg = liability_entities@.map_values(|v: Vec<crate::asof::AsOfHistoryRow>| v@);
    proof {
        lemma_groups_dates_wf(investment_entities@);
        lemma_groups_dates_wf(cash_entities@);
        lemma_groups_dates_wf(real_estate_entities@);
        lemma_groups_dates_wf(liability_entities@);
    }
    let lo = window.effective_from;
    let hi = window.effective_to;
    let mut dates: Vec<Date> = Vec::new();
    dates.push(lo);
    proof {
        assert(dates@[0] == lo);
        assert(crate::asof::sorted_strict(dates@));
    }
    crate::asof::insert_day_sorted(&mut dates, hi);
    crate::asof::add_groups_dates(&mut dates, investment_entities, lo, hi);
    crate::asof::add_groups_dates(&mut dates, cash_entities, lo, hi);
    crate::asof::add_groups_dates(&mut dates, real_estate_entities, lo, hi);
    crate::asof::add_groups_dates(&mut dates, liability_entities, lo, hi);
    proof {
        assert(crate::asof::contains_day(dates@, lo.days as int));
        assert(crate::asof::contains_day(dates@, hi.days as int));
        assert(crate::asof::dates_sorted(dates@)) by {
            assert(forall|i: int, j: int|
                0 <= i < j < dates@.len() ==> (#[trigger] dates@[i]).days < (
                #[trigger] dates@[j]).days);
        }
        assert forall|k: int|
            0 <= k < dates@.len() implies lo.days <= (#[trigger] dates@[k]).days <= hi.days by {
            assert(crate::asof::contains_day(dates@, dates@[k].days as int));
        }
        assert(dates@.len() >= 1) by {
            assert(crate::asof::contains_day(dates@, lo.days as int));
        }
        lemma_groups_series_wf(investment_entities@);
        lemma_groups_series_wf(cash_entities@);
        lemma_groups_series_wf(real_estate_entities@);
        lemma_groups_series_wf(liability_entities@);
    }
    let inv_totals = crate::asof::build_asof_totals(&dates, investment_entities);
    let cash_totals = crate::asof::build_asof_totals(&dates, cash_entities);
    let re_totals = crate::asof::build_asof_totals(&dates, real_estate_entities);
    let liab_totals = crate::asof::build_asof_totals(&dates, liability_entities);

    let mut rows: Vec<WealthCurvePoint> = Vec::new();
    let mut k: usize = 0;
    while k < dates.len()
        invariant
            k <= dates@.len(),
            dates@.len() >= 1,
            rows@.len() == k,
            inv == investment_entities@.map_values(|v: Vec<crate::asof::AsOfHistoryRow>| v@),
            cashg == cash_entities@.map_values(|v: Vec<crate::asof::AsOfHistoryRow>| v@),
            reg == real_estate_entities@.map_values(|v: Vec<crate::asof::AsOfHistoryRow>| v@),
            liabg == liability_entities@.map_values(|v: Vec<crate::asof::AsOfHistoryRow>| v@),
            class_groups_wf(inv) && class_groups_wf(cashg) && class_groups_wf(reg)
                && class_groups_wf(liabg),
            inv_totals@.len() == dates@.len() && cash_totals@.len() == dates@.len()
                && re_totals@.len() == dates@.len() && liab_totals@.len() == dates@.len(),
            forall|j: int|
                0 <= j < dates@.len() ==> inv_totals@[j] == crate::asof::asof_total(
                    inv,
                    (#[trigger] dates@[j]).days as int,
                ) && cash_totals@[j] == crate::asof::asof_total(cashg, dates@[j].days as int)
                    && re_totals@[j] == crate::asof::asof_total(reg, dates@[j].days as int)
                    && liab_totals@[j] == crate::asof::asof_total(liabg, dates@[j].days as int),
            forall|j: int|
                0 <= j < k ==> (#[trigger] rows@[j]).snapshot_date == dates@[j],
            forall|j: int|
                0 <= j < k ==> point_matches(
                    #[trigger] rows@[j],
                    rows@[0],
                    filters,
                    inv_totals@[j],
                    cash_totals@[j],
                    re_totals@[j],
                    liab_totals@[j],
                ),
        decreases dates@.len() - k,
    {
        let d = dates[k];
        proof {
            lemma_class_totals_bounded(inv, d.days as int);
            lemma_class_totals_bounded(cashg, d.days as int);
            lemma_class_totals_bounded(reg, d.days as int);
            lemma_class_totals_bounded(liabg, d.days as int);
            if k > 0 {
                assert(point_matches(
                    rows@[0],
                    rows@[0],
                    filters,
                    inv_totals@[0],
                    cash_totals@[0],
                    re_totals@[0],
                    liab_totals@[0],
                ));
                lemma_class_totals_bounded(inv, dates@[0].days as int);
                lemma_class_totals_bounded(cashg, dates@[0].days as int);
                lemma_class_totals_bounded(reg, dates@[0].days as int);
                lemma_class_totals_bounded(liabg, dates@[0].days as int);
            }
        }
        let invv = inv_totals[k];
        let cashv = cash_totals[k];
        let rev = re_totals[k];
        let liabv = liab_totals[k];
        let wealth = (if filters.include_investment {
            invv
        } else {
            0
        }) + (if filters.include_cash {
            cashv
        } else {
            0
        }) + (if filters.include_real_estate {
            rev
        } else {
            0
        });
        let net = wealth - (if filters.include_liability {
            liabv
        } else {
            0
        });
        let (w0, l0, n0, i0, c0, r0) = if k == 0 {
            (wealth, liabv, net, invv, cashv, rev)
        } else {
            let f = rows[0];
            (
                f.wealth_total_cents,
                f.liability_total_cents,
                f.net_asset_total_cents,
                f.investment_total_cents,
                f.cash_total_cents,
                f.real_estate_total_cents,
            )
        };
        rows.push(
            WealthCurvePoint {
                snapshot_date: d,
                investment_total_cents: invv,
                cash_total_cents: cashv,
                real_estate_total_cents: rev,
                liability_total_cents: liabv,
                wealth_total_cents: wealth,
                net_asset_total_cents: net,
                wealth_net_growth_cents: wealth - w0,
                liability_net_growth_cents: liabv - l0,
                net_asset_net_growth_cents: net - n0,
                investment_net_growth_cents: invv - i0,
                cash_net_growth_cents: cashv - c0,
                real_estate_net_growth_cents: rev - r0,
            },
        );
        k += 1;
    }
    proof {
        lemma_class_totals_bounded(inv, dates@[0].days as int);
        lemma_class_totals_bounded(cashg, dates@[0].days as int);
        lemma_class_totals_bounded(reg, dates@[0].days as int);
        lemma_class_totals_bounded(liabg, dates@[0].days as int);
        let last = dates@.len() - 1;
        lemma_class_totals_bounded(inv, dates@[last].days as int);
        lemma_class_totals_bounded(cashg, dates@[last].days as int);
        lemma_class_totals_bounded(reg, dates@[last].days as int);
        lemma_class_totals_bounded(liabg, dates@[last].days as int);
    }
    let first = rows[0];
    let last = rows[rows.len() - 1];
    let summary = WealthCurveSummary {
        wealth: exec_column_summary(first.wealth_total_cents, last.wealth_total_cents),
        liability: exec_column_summary(first.liability_total_cents, last.liability_total_cents),
        net_asset: exec_column_summary(first.net_asset_total_cents, last.net_asset_total_cents),
        investment: exec_column_summary(first.investment_total_cents, last.investment_total_cents),
        cash: exec_column_summary(first.cash_total_cents, last.cash_total_cents),
        real_estate: exec_column_summary(
            first.real_estate_total_cents,
            last.real_estate_total_cents,
        ),
    };
    proof {
        assert forall|x: int|
            (exists|j: int|
                0 <= j < rows@.len() && (#[trigger] rows@[j]).snapshot_date.days == x) <==> (x
            == lo.days || x == hi.days || (lo.days <= x <= hi.days && (crate::asof::day_in_groups(
            inv,
            x,
        ) || crate::asof::day_in_groups(cashg, x) || crate::asof::day_in_groups(reg, x)
            || crate::asof::day_in_groups(liabg, x)))) by {
            if exists|j: int|
                0 <= j < rows@.len() && (#[trigger] rows@[j]).snapshot_date.days == x {
                let j = choose|j: int|
                    0 <= j < rows@.len() && (#[trigger] rows@[j]).snapshot_date.days == x;
                assert(dates@[j].days == x);
                assert(crate::asof::contains_day(dates@, x));
            }
            if x == lo.days || x == hi.days || (lo.days <= x <= hi.days && (
            crate::asof::day_in_groups(inv, x) || crate::asof::day_in_groups(cashg, x)
                || crate::asof::day_in_groups(reg, x) || crate::asof::day_in_groups(liabg, x))) {
                assert(crate::asof::contains_day(dates@, x));
                let j = choose|j: int|
                    0 <= j < dates@.len() && (#[trigger] dates@[j]).days == x;
                assert(rows@[j].snapshot_date.days == x);
            }
        }
    }
    WealthCurveResult { window, rows, summary }
}

/// The relation every emitted curve row satisfies against the first row
/// and its date's class totals.
pub open spec fn point_matches(
    p: WealthCurvePoint,
    first: WealthCurvePoint,
    filters: WealthFilters,
    invv: i64,
    cashv: i64,
    rev: i64,
    liabv: i64,
) -> bool {
    &&& p.investment_total_cents == invv
    &&& p.cash_total_cents == cashv
    &&& p.real_estate_total_cents == rev
    &&& p.liability_total_cents == liabv
    &&& p.wealth_total_cents == (if filters.include_investment {
        invv as int
    } else {
        0
    }) + (if filters.include_cash {
        cashv as int
    } else {
        0
    }) + (if filters.include_real_estate {
        rev as int
    } else {
        0
    })
    &&& p.net_asset_total_cents == p.wealth_total_cents - (if filters.include_liability {
        liabv as int
    } else {
        0
    })
    &&& p.wealth_net_growth_cents == p.wealth_total_cents - first.wealth_total_cents
    &&& p.liability_net_growth_cents == p.liability_total_cents - first.liability_total_cents
    &&& p.net_asset_net_growth_cents == p.net_asset_total_cents - first.net_asset_total_cents
    &&& p.investment_net_growth_cents == p.investment_total_cents - first.investment_total_cents
    &&& p.cash_net_growth_cents == p.cash_total_cents - first.cash_total_cents
    &&& p.real_estate_net_growth_cents == p.real_estate_total_cents - first.real_estate_total_cents
}

proof fn lemma_groups_dates_wf(gs: Seq<Vec<crate::asof::AsOfHistoryRow>>)
    requires
        class_groups_wf(gs.map_values(|v: Vec<crate::asof::AsOfHistoryRow>| v@)),
    ensures
        forall|e: int, i: int|
            0 <= e < gs.len() && 0 <= i < (#[trigger] gs[e])@.len() ==> (
            #[trigger] gs[e]@[i]).snapshot_date.wf(),
{
    let all = gs.map_values(|v: Vec<crate::asof::AsOfHistoryRow>| v@);
    assert forall|e: int, i: int|
        0 <= e < gs.len() && 0 <= i < (#[trigger] gs[e])@.len() implies (
    #[trigger] gs[e]@[i]).snapshot_date.wf() by {
        assert(all[e] == gs[e]@);
        assert(crate::asof::series_wf(all[e]));
    }
}

proof fn lemma_groups_series_wf(gs: Seq<Vec<crate::asof::AsOfHistoryRow>>)
    requires
        class_groups_wf(gs.map_values(|v: Vec<crate::asof::AsOfHistoryRow>| v@)),
    ensures
        forall|e: int| 0 <= e < gs.len() ==> crate::asof::series_wf((#[trigger] gs[e])@),
{
    let all = gs.map_values(|v: Vec<crate::asof::AsOfHistoryRow>| v@);
    assert forall|e: int| 0 <= e < gs.len() implies crate::asof::series_wf((#[trigger] gs[e])@) by {
        assert(all[e] == gs[e]@);
        assert(crate::asof::series_wf(all[e]));
    }
}

proof fn lemma_class_totals_bounded(gs: Seq<Seq<crate::asof::AsOfHistoryRow>>, day: int)
    requires
        class_groups_wf(gs),
    ensures
        -1_000_000_000_000_000_000 <= crate::asof::asof_total(gs, day) <= 1_000_000_000_000_000_000,
{
    assert forall|e: int, i: int|
        0 <= e < gs.len() && 0 <= i < (#[trigger] gs[e]).len() implies money_bounded(
        (#[trigger] gs[e][i]).value_cents as int,
    ) by {
        assert(crate::asof::series_wf(gs[e]));
    }
    crate::asof::lemma_asof_total_small(gs, day);
}

fn sum_items(rows: &Vec<OverviewItemRow>) -> (r: i64)
    requires
        rows@.len() <= 1000,
        forall|i: int|
            0 <= i < rows@.len() ==> money_bounded((#[trigger] rows@[i]).value_cents as int),
    ensures
        r == sum_item_values(rows@),
{
    let mut acc: i64 = 0;
    let mut i: usize = 0;
    proof {
        assert(rows@.take(0) =~= Seq::<OverviewItemRow>::empty());
    }
    while i < rows.len()
        invariant
            i <= rows@.len() <= 1000,
            forall|j: int|
                0 <= j < rows@.len() ==> money_bounded((#[trigger] rows@[j]).value_cents as int),
            acc == sum_item_values(rows@.take(i as int)),
        decreases rows@.len() - i,
    {
        proof {
            assert(rows@.take(i as int + 1).drop_last() =~= rows@.take(i as int));
            assert(rows@.take(i as int + 1).last() == rows@[i as int]);
            lemma_sum_items_bound(rows@.take(i as int));
            lemma_sum_items_bound(rows@.take(i as int + 1));
        }
        acc = acc + rows[i].value_cents;
        i += 1;
    }
    proof {
        assert(rows@.take(rows@.len() as int) =~= rows@);
    }
    acc
}

fn sum_assets(rows: &Vec<AssetValuationRow>) -> (r: i64)
    requires
        rows@.len() <= 1000,
        rows_values_bounded(rows@),
    ensures
        r == sum_asset_values(rows@),
{
    let mut acc: i64 = 0;
    let mut i: usize = 0;
    proof {
        assert(rows@.take(0) =~= Seq::<AssetValuationRow>::empty());
    }
    while i < rows.len()
        invariant
            i <= rows@.len() <= 1000,
            rows_values_bounded(rows@),
            acc == sum_asset_values(rows@.take(i as int)),
        decreases rows@.len() - i,
    {
        proof {
            assert(rows@.take(i as int + 1).drop_last() =~= rows@.take(i as int));
            assert(rows@.take(i as int + 1).last() == rows@[i as int]);
            assert(rows_values_bounded(rows@.take(i as int))) by {
                assert(forall|j: int|
                    0 <= j < i ==> rows@.take(i as int)[j] == rows@[j]);
            }
            assert(rows_values_bounded(rows@.take(i as int + 1))) by {
                assert(forall|j: int|
                    0 <= j < i + 1 ==> rows@.take(i as int + 1)[j] == rows@[j]);
            }
            lemma_sum_assets_len_bound(rows@.take(i as int));
            lemma_sum_assets_len_bound(rows@.take(i as int + 1));
        }
        acc = acc + rows[i].value_cents;
        i += 1;
    }
    proof {
        assert(rows@.take(rows@.len() as int) =~= rows@);
    }
    acc
}

proof fn lemma_sum_items_bound(rows: Seq<OverviewItemRow>)
    requires
        forall|i: int|
            0 <= i < rows.len() ==> money_bounded((#[trigger] rows[i]).value_cents as int),
    ensures
        -(rows.len() as int) * 1_000_000_000_000_000 <= sum_item_values(rows) <= (
        rows.len() as int) * 1_000_000_000_000_000,
        rows.len() <= 1000 ==> -1_000_000_000_000_000_000 <= sum_item_values(rows)
            <= 1_000_000_000_000_000_000,
    decreases rows.len(),
{
    if rows.len() > 0 {
        let rest = rows.drop_last();
        assert(forall|i: int|
            0 <= i < rest.len() ==> money_bounded((#[trigger] rest[i]).value_cents as int)) by {
            assert(forall|i: int| 0 <= i < rest.len() ==> rest[i] == rows[i]);
        }
        lemma_sum_items_bound(rest);
        let n = rest.len() as int;
        assert((n + 1) * 1_000_000_000_000_000 == n * 1_000_000_000_000_000 + 1_000_000_000_000_000)
            by (nonlinear_arith);
    }
    let n = rows.len() as int;
    if n <= 1000 {
        assert(n * 1_000_000_000_000_000 <= 1_000_000_000_000_000_000) by (nonlinear_arith)
            requires
                0 <= n <= 1000,
        ;
    }
}

proof fn lemma_sum_assets_len_bound(rows: Seq<AssetValuationRow>)
    requires
        rows_values_bounded(rows),
    ensures
        -(rows.len() as int) * 1_000_000_000_000_000 <= sum_asset_values(rows) <= (
        rows.len() as int) * 1_000_000_000_000_000,
        rows.len() <= 1000 ==> -1_000_000_000_000_000_000 <= sum_asset_values(rows)
            <= 1_000_000_000_000_000_000,
    decreases rows.len(),
{
    if rows.len() > 0 {
        let rest = rows.drop_last();
        assert(rows_values_bounded(rest)) by {
            assert(forall|i: int| 0 <= i < rest.len() ==> rest[i] == rows[i]);
        }
        lemma_sum_assets_len_bound(rest);
        let n = rest.len() as int;
        assert((n + 1) * 1_000_000_000_000_000 == n * 1_000_000_000_000_000 + 1_000_000_000_000_000)
            by (nonlinear_arith);
    }
    let n = rows.len() as int;
    if n <= 1000 {
        assert(n * 1_000_000_000_000_000 <= 1_000_000_000_000_000_000) by (nonlinear_arith)
            requires
                0 <= n <= 1000,
        ;
    }
}

} // verus!
