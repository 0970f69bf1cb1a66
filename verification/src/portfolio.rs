//! Portfolio-level investment return and return curve: all accounts'
//! snapshot series aggregated through the as-of totals, with the cash
//! flows of every account counted against the shared window.

use vstd::prelude::*;

use crate::asof::{
    asof_total, build_asof_totals, collect_union_dates, contains_day, day_in_groups, series_wf,
    sorted_strict, AsOfHistoryRow, lemma_asof_total_small,
};
use crate::date::Date;
use crate::dietz::{
    abs_int, calculate_modified_dietz, dietz_profit, dietz_return_rate, flows_in_window,
    sum_abs_flows, total_bounded, ModifiedDietzCalc, Ratio, TransferRow, MAX_MONEY_CENTS,
};
use crate::error::EngineError;
use crate::invest::{curve_summary_spec, dietz_fields_ok, CurvePoint, CurveSummary};
use crate::window::{resolve_window, resolve_window_spec, Window};

verus! {

/// One entity's nonzero flows dated inside `(lo, hi]`, in series order.
pub open spec fn entity_flows(s: Seq<AsOfHistoryRow>, lo: int, hi: int) -> Seq<TransferRow>
    decreases s.len(),
{
    if s.len() == 0 {
        Seq::empty()
    } else {
        let rest = entity_flows(s.drop_last(), lo, hi);
        let r = s.last();
        if lo < r.snapshot_date.days <= hi && r.flow_cents != 0 {
            rest.push(
                TransferRow { snapshot_date: r.snapshot_date, transfer_amount_cents: r.flow_cents },
            )
        } else {
            rest
        }
    }
}

/// The portfolio's flows inside `(lo, hi]`: every entity's nonzero flows,
/// entity by entity. Order does not matter to the Dietz sums.
pub open spec fn portfolio_flows(gs: Seq<Seq<AsOfHistoryRow>>, lo: int, hi: int) -> Seq<
    TransferRow,
>
    decreases gs.len(),
{
    if gs.len() == 0 {
        Seq::empty()
    } else {
        portfolio_flows(gs.drop_last(), lo, hi) + entity_flows(gs.last(), lo, hi)
    }
}

pub open spec fn sum_abs_series_flows(s: Seq<AsOfHistoryRow>) -> int
    decreases s.len(),
{
    if s.len() == 0 {
        0
    } else {
        sum_abs_series_flows(s.drop_last()) + abs_int(s.last().flow_cents as int)
    }
}

/// Total absolute flow over all entities: the portfolio's exactness
/// budget.
pub open spec fn total_abs_flows(gs: Seq<Seq<AsOfHistoryRow>>) -> int
    decreases gs.len(),
{
    if gs.len() == 0 {
        0
    } else {
        total_abs_flows(gs.drop_last()) + sum_abs_series_flows(gs.last())
    }
}

/// Net flow attributed to exactly day `d` across all entities.
pub open spec fn series_day_flow(s: Seq<AsOfHistoryRow>, d: int) -> int
    decreases s.len(),
{
    if s.len() == 0 {
        0
    } else {
        series_day_flow(s.drop_last(), d) + if s.last().snapshot_date.days == d {
            s.last().flow_cents as int
        } else {
            0
        }
    }
}

pub open spec fn day_flow_sum(gs: Seq<Seq<AsOfHistoryRow>>, d: int) -> int
    decreases gs.len(),
{
    if gs.len() == 0 {
        0
    } else {
        day_flow_sum(gs.drop_last(), d) + series_day_flow(gs.last(), d)
    }
}

proof fn lemma_entity_flows_ok(s: Seq<AsOfHistoryRow>, lo: int, hi: int)
    requires
        forall|i: int| 0 <= i < s.len() ==> (#[trigger] s[i]).snapshot_date.wf(),
    ensures
        sum_abs_flows(entity_flows(s, lo, hi)) <= sum_abs_series_flows(s),
        0 <= sum_abs_series_flows(s),
        flows_in_window(entity_flows(s, lo, hi), lo, hi),
    decreases s.len(),
{
    if s.len() > 0 {
        let rest = s.drop_last();
        assert(forall|i: int| 0 <= i < rest.len() ==> (#[trigger] rest[i]).snapshot_date.wf()) by {
            assert(forall|i: int| 0 <= i < rest.len() ==> rest[i] == s[i]);
        }
        lemma_entity_flows_ok(rest, lo, hi);
        let fb = entity_flows(s, lo, hi);
        let fbr = entity_flows(rest, lo, hi);
        let r = s.last();
        if lo < r.snapshot_date.days <= hi && r.flow_cents != 0 {
            assert(fb == fbr.push(
                TransferRow { snapshot_date: r.snapshot_date, transfer_amount_cents: r.flow_cents },
            ));
            assert(fb.drop_last() =~= fbr);
            assert(forall|i: int|
                0 <= i < fb.len() ==> (#[trigger] fb[i]).snapshot_date.wf() && lo
                    < fb[i].snapshot_date.days <= hi) by {
                assert(forall|i: int| 0 <= i < fbr.len() ==> fb[i] == fbr[i]);
                assert(fb[fb.len() - 1].snapshot_date == r.snapshot_date);
            }
        }
    }
}

proof fn lemma_series_day_flow_bound(s: Seq<AsOfHistoryRow>, d: int)
    ensures
        abs_int(series_day_flow(s, d)) <= sum_abs_series_flows(s),
        0 <= sum_abs_series_flows(s),
    decreases s.len(),
{
    if s.len() > 0 {
        lemma_series_day_flow_bound(s.drop_last(), d);
    }
}

proof fn lemma_sum_abs_flows_concat(a: Seq<TransferRow>, b: Seq<TransferRow>)
    ensures
        sum_abs_flows(a + b) == sum_abs_flows(a) + sum_abs_flows(b),
    decreases b.len(),
{
    if b.len() == 0 {
        assert(a + b =~= a);
    } else {
        lemma_sum_abs_flows_concat(a, b.drop_last());
        assert((a + b).drop_last() =~= a + b.drop_last());
        assert((a + b).last() == b.last());
    }
}

proof fn lemma_flows_in_window_concat(a: Seq<TransferRow>, b: Seq<TransferRow>, lo: int, hi: int)
    requires
        flows_in_window(a, lo, hi),
        flows_in_window(b, lo, hi),
    ensures
        flows_in_window(a + b, lo, hi),
{
    assert forall|i: int|
        0 <= i < (a + b).len() implies (#[trigger] (a + b)[i]).snapshot_date.wf() && lo < (a
        + b)[i].snapshot_date.days <= hi by {
        if i < a.len() {
            assert((a + b)[i] == a[i]);
        } else {
            assert((a + b)[i] == b[i - a.len()]);
        }
    }
}

proof fn lemma_portfolio_flows_ok(gs: Seq<Seq<AsOfHistoryRow>>, lo: int, hi: int)
    requires
        forall|e: int, i: int|
            0 <= e < gs.len() && 0 <= i < (#[trigger] gs[e]).len() ==> (
            #[trigger] gs[e][i]).snapshot_date.wf(),
    ensures
        sum_abs_flows(portfolio_flows(gs, lo, hi)) <= total_abs_flows(gs),
        0 <= total_abs_flows(gs),
        flows_in_window(portfolio_flows(gs, lo, hi), lo, hi),
    decreases gs.len(),
{
    if gs.len() > 0 {
        let rest = gs.drop_last();
        assert(forall|e: int, i: int|
            0 <= e < rest.len() && 0 <= i < (#[trigger] rest[e]).len() ==> (
            #[trigger] rest[e][i]).snapshot_date.wf()) by {
            assert(forall|e: int| 0 <= e < rest.len() ==> rest[e] == gs[e]);
        }
        lemma_portfolio_flows_ok(rest, lo, hi);
        assert(forall|i: int| 0 <= i < gs.last().len() ==> (#[trigger] gs.last()[i]).snapshot_date.wf())
            by {
            assert(gs.last() == gs[gs.len() - 1]);
        }
        lemma_entity_flows_ok(gs.last(), lo, hi);
        lemma_sum_abs_flows_concat(portfolio_flows(rest, lo, hi), entity_flows(gs.last(), lo, hi));
        lemma_flows_in_window_concat(
            portfolio_flows(rest, lo, hi),
            entity_flows(gs.last(), lo, hi),
            lo,
            hi,
        );
    }
}

#[verifier::loop_isolation(false)]
fn exec_entity_flows(s: &Vec<AsOfHistoryRow>, lo: Date, hi: Date, out: &mut Vec<TransferRow>)
    ensures
        final(out)@ == old(out)@ + entity_flows(s@, lo.days as int, hi.days as int),
{
    let mut i: usize = 0;
    proof {
        assert(entity_flows(s@.take(0), lo.days as int, hi.days as int) =~= Seq::<
            TransferRow,
        >::empty());
        assert(out@ =~= old(out)@ + entity_flows(s@.take(0), lo.days as int, hi.days as int));
    }
    while i < s.len()
        invariant
            i <= s@.len(),
            out@ == old(out)@ + entity_flows(s@.take(i as int), lo.days as int, hi.days as int),
        decreases s@.len() - i,
    {
        let row = s[i];
        proof {
            assert(s@.take(i as int + 1).drop_last() =~= s@.take(i as int));
            assert(s@.take(i as int + 1).last() == s@[i as int]);
        }
        if lo.days < row.snapshot_date.days && row.snapshot_date.days <= hi.days && row.flow_cents
            != 0 {
            out.push(
                TransferRow {
                    snapshot_date: row.snapshot_date,
                    transfer_amount_cents: row.flow_cents,
                },
            );
            proof {
                assert(out@ =~= old(out)@ + entity_flows(
                    s@.take(i as int + 1),
                    lo.days as int,
                    hi.days as int,
                ));
            }
        }
        i += 1;
    }
    proof {
        assert(s@.take(s@.len() as int) =~= s@);
    }
}

#[verifier::loop_isolation(false)]
fn exec_portfolio_flows(gs: &Vec<Vec<AsOfHistoryRow>>, lo: Date, hi: Date) -> (r: Vec<TransferRow>)
    ensures
        r@ == portfolio_flows(
            gs@.map_values(|v: Vec<AsOfHistoryRow>| v@),
            lo.days as int,
            hi.days as int,
        ),
{
    let ghost all = gs@.map_values(|v: Vec<AsOfHistoryRow>| v@);
    let mut out: Vec<TransferRow> = Vec::new();
    let mut e: usize = 0;
    proof {
        assert(portfolio_flows(all.take(0), lo.days as int, hi.days as int) =~= Seq::<
            TransferRow,
        >::empty());
    }
    while e < gs.len()
        invariant
            e <= gs@.len(),
            all == gs@.map_values(|v: Vec<AsOfHistoryRow>| v@),
            out@ == portfolio_flows(all.take(e as int), lo.days as int, hi.days as int),
        decreases gs@.len() - e,
    {
        proof {
            assert(all.take(e as int + 1).drop_last() =~= all.take(e as int));
            assert(all.take(e as int + 1).last() == all[e as int]);
            assert(all[e as int] == gs@[e as int]@);
        }
        exec_entity_flows(&gs[e], lo, hi, &mut out);
        e += 1;
    }
    proof {
        assert(all.take(all.len() as int) =~= all);
    }
    out
}

#[verifier::loop_isolation(false)]
fn exec_day_flow_sum(gs: &Vec<Vec<AsOfHistoryRow>>, d: Date) -> (r: i64)
    requires
        total_abs_flows(gs@.map_values(|v: Vec<AsOfHistoryRow>| v@)) <= MAX_MONEY_CENTS,
    ensures
        r == day_flow_sum(gs@.map_values(|v: Vec<AsOfHistoryRow>| v@), d.days as int),
        -MAX_MONEY_CENTS <= r <= MAX_MONEY_CENTS,
{
    let ghost all = gs@.map_values(|v: Vec<AsOfHistoryRow>| v@);
    proof {
        lemma_total_abs_prefix(all, 0);
    }
    let mut acc: i64 = 0;
    let mut e: usize = 0;
    proof {
        assert(day_flow_sum(all.take(0), d.days as int) == 0);
        lemma_day_flow_sum_bound(all.take(0), d.days as int);
    }
    while e < gs.len()
        invariant
            e <= gs@.len(),
            all == gs@.map_values(|v: Vec<AsOfHistoryRow>| v@),
            total_abs_flows(all) <= MAX_MONEY_CENTS,
            acc == day_flow_sum(all.take(e as int), d.days as int),
            -MAX_MONEY_CENTS <= acc <= MAX_MONEY_CENTS,
        decreases gs@.len() - e,
    {
        proof {
            assert(all.take(e as int + 1).drop_last() =~= all.take(e as int));
            assert(all.take(e as int + 1).last() == all[e as int]);
            assert(all[e as int] == gs@[e as int]@);
            lemma_day_flow_sum_bound(all.take(e as int), d.days as int);
            lemma_day_flow_sum_bound(all.take(e as int + 1), d.days as int);
            lemma_total_abs_prefix(all, e as int);
            lemma_total_abs_prefix(all, e as int + 1);
        }
        proof {
            lemma_total_abs_series_part(all, e as int);
            lemma_series_day_flow_bound(all[e as int], d.days as int);
        }
        let sv = exec_series_day_flow(&gs[e], d);
        proof {
            lemma_day_flow_sum_bound(all.take(e as int + 1), d.days as int);
        }
        acc = acc + sv;
        e += 1;
    }
    proof {
        assert(all.take(all.len() as int) =~= all);
    }
    acc
}

proof fn lemma_total_abs_series_part(gs: Seq<Seq<AsOfHistoryRow>>, e: int)
    requires
        0 <= e < gs.len(),
    ensures
        sum_abs_series_flows(gs[e]) <= total_abs_flows(gs),
    decreases gs.len(),
{
    let rest = gs.drop_last();
    if e == gs.len() - 1 {
        lemma_day_flow_sum_bound(rest, 0);
        lemma_series_day_flow_bound(gs.last(), 0);
        assert(gs[e] == gs.last());
    } else {
        lemma_total_abs_series_part(rest, e);
        lemma_series_day_flow_bound(gs.last(), 0);
        assert(rest[e] == gs[e]);
    }
}

proof fn lemma_day_flow_sum_bound(gs: Seq<Seq<AsOfHistoryRow>>, d: int)
    ensures
        abs_int(day_flow_sum(gs, d)) <= total_abs_flows(gs),
        0 <= total_abs_flows(gs),
    decreases gs.len(),
{
    if gs.len() > 0 {
        lemma_day_flow_sum_bound(gs.drop_last(), d);
        lemma_series_day_flow_bound(gs.last(), d);
    }
}

proof fn lemma_total_abs_nonneg(gs: Seq<Seq<AsOfHistoryRow>>)
    ensures
        0 <= total_abs_flows(gs),
    decreases gs.len(),
{
    if gs.len() > 0 {
        lemma_total_abs_nonneg(gs.drop_last());
        lemma_series_day_flow_bound(gs.last(), 0);
    }
}

proof fn lemma_total_abs_prefix(gs: Seq<Seq<AsOfHistoryRow>>, e: int)
    requires
        0 <= e <= gs.len(),
    ensures
        0 <= total_abs_flows(gs.take(e)) <= total_abs_flows(gs),
    decreases gs.len() - e,
{
    lemma_total_abs_nonneg(gs.take(e));
    if e == gs.len() {
        assert(gs.take(e) =~= gs);
    } else {
        lemma_total_abs_prefix(gs, e + 1);
        assert(gs.take(e + 1).drop_last() =~= gs.take(e));
        assert(gs.take(e + 1).last() == gs[e]);
        lemma_series_day_flow_bound(gs[e], 0);
    }
}

#[verifier::loop_isolation(false)]
fn exec_series_day_flow(s: &Vec<AsOfHistoryRow>, d: Date) -> (r: i64)
    requires
        sum_abs_series_flows(s@) <= MAX_MONEY_CENTS,
    ensures
        r == series_day_flow(s@, d.days as int),
        abs_int(r as int) <= sum_abs_series_flows(s@),
{
    let mut acc: i64 = 0;
    let mut i: usize = 0;
    proof {
        assert(series_day_flow(s@.take(0), d.days as int) == 0);
        lemma_series_prefix_bounds(s@, 0);
    }
    while i < s.len()
        invariant
            i <= s@.len(),
            sum_abs_series_flows(s@) <= MAX_MONEY_CENTS,
            acc == series_day_flow(s@.take(i as int), d.days as int),
        decreases s@.len() - i,
    {
        proof {
            assert(s@.take(i as int + 1).drop_last() =~= s@.take(i as int));
            assert(s@.take(i as int + 1).last() == s@[i as int]);
            lemma_series_prefix_bounds(s@, i as int);
            lemma_series_prefix_bounds(s@, i as int + 1);
            lemma_series_day_flow_bound(s@.take(i as int), d.days as int);
            lemma_series_day_flow_bound(s@.take(i as int + 1), d.days as int);
        }
        let row = s[i];
        if row.snapshot_date.days == d.days {
            acc = acc + row.flow_cents;
        }
        i += 1;
    }
    proof {
        assert(s@.take(s@.len() as int) =~= s@);
        lemma_series_day_flow_bound(s@, d.days as int);
    }
    acc
}

proof fn lemma_series_prefix_bounds(s: Seq<AsOfHistoryRow>, i: int)
    requires
        0 <= i <= s.len(),
    ensures
        0 <= sum_abs_series_flows(s.take(i)) <= sum_abs_series_flows(s),
    decreases s.len() - i,
{
    lemma_series_day_flow_bound(s.take(i), 0);
    if i == s.len() {
        assert(s.take(i) =~= s);
    } else {
        lemma_series_prefix_bounds(s, i + 1);
        assert(s.take(i + 1).drop_last() =~= s.take(i));
        assert(s.take(i + 1).last() == s[i]);
    }
}

/// The earliest and latest snapshot dates over all entities, if any
/// entity has a snapshot at all.
pub open spec fn series_bounds(s: Seq<AsOfHistoryRow>) -> Option<(int, int)>
    decreases s.len(),
{
    if s.len() == 0 {
        None
    } else {
        let r = s.last().snapshot_date.days as int;
        match series_bounds(s.drop_last()) {
            None => Some((r, r)),
            Some((lo, hi)) => Some(
                (
                    if r < lo {
                        r
                    } else {
                        lo
                    },
                    if r > hi {
                        r
                    } else {
                        hi
                    },
                ),
            ),
        }
    }
}

pub open spec fn groups_bounds(gs: Seq<Seq<AsOfHistoryRow>>) -> Option<(int, int)>
    decreases gs.len(),
{
    if gs.len() == 0 {
        None
    } else {
        let rest = groups_bounds(gs.drop_last());
        let mine = series_bounds(gs.last());
        match (rest, mine) {
            (None, None) => None,
            (Some(b), None) => Some(b),
            (None, Some(b)) => Some(b),
            (Some((a1, b1)), Some((a2, b2))) => Some(
                (
                    if a2 < a1 {
                        a2
                    } else {
                        a1
                    },
                    if b2 > b1 {
                        b2
                    } else {
                        b1
                    },
                ),
            ),
        }
    }
}

#[verifier::loop_isolation(false)]
fn exec_series_bounds(s: &Vec<AsOfHistoryRow>) -> (r: Option<(Date, Date)>)
    requires
        forall|i: int| 0 <= i < s@.len() ==> (#[trigger] s@[i]).snapshot_date.wf(),
    ensures
        r is Some <==> series_bounds(s@) is Some,
        r matches Some((lo, hi)) ==> series_bounds(s@) == Some((lo.days as int, hi.days as int))
            && lo.wf() && hi.wf(),
{
    let mut best: Option<(Date, Date)> = None;
    let mut i: usize = 0;
    proof {
        assert(series_bounds(s@.take(0)) is None);
    }
    while i < s.len()
        invariant
            i <= s@.len(),
            forall|j: int| 0 <= j < s@.len() ==> (#[trigger] s@[j]).snapshot_date.wf(),
            best is Some <==> series_bounds(s@.take(i as int)) is Some,
            best matches Some((lo, hi)) ==> series_bounds(s@.take(i as int)) == Some(
                (lo.days as int, hi.days as int),
            ) && lo.wf() && hi.wf(),
        decreases s@.len() - i,
    {
        let row = s[i];
        proof {
            assert(s@.take(i as int + 1).drop_last() =~= s@.take(i as int));
            assert(s@.take(i as int + 1).last() == s@[i as int]);
        }
        best = match best {
            None => Some((row.snapshot_date, row.snapshot_date)),
            Some((lo, hi)) => Some(
                (
                    if row.snapshot_date.days < lo.days {
                        row.snapshot_date
                    } else {
                        lo
                    },
                    if row.snapshot_date.days > hi.days {
                        row.snapshot_date
                    } else {
                        hi
                    },
                ),
            ),
        };
        i += 1;
    }
    proof {
        assert(s@.take(s@.len() as int) =~= s@);
    }
    best
}

/// The union date bounds over all entities' snapshots.
#[verifier::loop_isolation(false)]
pub fn union_bounds(gs: &Vec<Vec<AsOfHistoryRow>>) -> (r: Option<(Date, Date)>)
    requires
        forall|e: int, i: int|
            0 <= e < gs@.len() && 0 <= i < (#[trigger] gs@[e])@.len() ==> (
            #[trigger] gs@[e]@[i]).snapshot_date.wf(),
    ensures
        ({
            let all = gs@.map_values(|v: Vec<AsOfHistoryRow>| v@);
            &&& (r is Some <==> groups_bounds(all) is Some)
            &&& (r matches Some((lo, hi)) ==> groups_bounds(all) == Some(
                (lo.days as int, hi.days as int),
            ) && lo.wf() && hi.wf())
        }),
{
    let ghost all = gs@.map_values(|v: Vec<AsOfHistoryRow>| v@);
    let mut best: Option<(Date, Date)> = None;
    let mut e: usize = 0;
    proof {
        assert(groups_bounds(all.take(0)) is None);
    }
    while e < gs.len()
        invariant
            e <= gs@.len(),
            all == gs@.map_values(|v: Vec<AsOfHistoryRow>| v@),
            forall|x: int, i: int|
                0 <= x < gs@.len() && 0 <= i < (#[trigger] gs@[x])@.len() ==> (
                #[trigger] gs@[x]@[i]).snapshot_date.wf(),
            best is Some <==> groups_bounds(all.take(e as int)) is Some,
            best matches Some((lo, hi)) ==> groups_bounds(all.take(e as int)) == Some(
                (lo.days as int, hi.days as int),
            ) && lo.wf() && hi.wf(),
        decreases gs@.len() - e,
    {
        proof {
            assert(all.take(e as int + 1).drop_last() =~= all.take(e as int));
            assert(all.take(e as int + 1).last() == all[e as int]);
            assert(all[e as int] == gs@[e as int]@);
        }
        let mine = exec_series_bounds(&gs[e]);
        best = match (best, mine) {
            (None, None) => None,
            (Some(b), None) => Some(b),
            (None, Some(b)) => Some(b),
            (Some((a1, b1)), Some((a2, b2))) => Some(
                (
                    if a2.days < a1.days {
                        a2
                    } else {
                        a1
                    },
                    if b2.days > b1.days {
                        b2
                    } else {
                        b1
                    },
                ),
            ),
        };
        e += 1;
    }
    proof {
        assert(all.take(all.len() as int) =~= all);
    }
    best
}

/// The full result of a portfolio return request.
#[derive(Debug)]
pub struct PortfolioReturnResult {
    pub window: Window,
    pub begin_assets_cents: i64,
    pub end_assets_cents: i64,
    pub account_count: usize,
    pub calc: ModifiedDietzCalc,
}

/// Portfolio-wide usability of the entity series.
pub open spec fn groups_wf(gs: Seq<Seq<AsOfHistoryRow>>) -> bool {
    &&& forall|e: int| 0 <= e < gs.len() ==> series_wf(#[trigger] gs[e])
    &&& gs.len() <= 1000
    &&& total_abs_flows(gs) <= MAX_MONEY_CENTS
}

/// Compute the whole portfolio's Modified Dietz return over a requested
/// window: begin and end values come from the as-of aggregator's totals
/// at the effective window edges, and every account's flows inside the
/// window count.
pub fn portfolio_return(
    entities: &Vec<Vec<AsOfHistoryRow>>,
    preset: &str,
    from_raw: &str,
    to_raw: &str,
) -> (r: Result<PortfolioReturnResult, EngineError>)
    requires
        groups_wf(entities@.map_values(|v: Vec<AsOfHistoryRow>| v@)),
    ensures
        ({
            let all = entities@.map_values(|v: Vec<AsOfHistoryRow>| v@);
            match groups_bounds(all) {
                None => r == Err::<PortfolioReturnResult, EngineError>(EngineError::NoData),
                Some((earliest, latest)) => match resolve_window_spec(
                    preset@,
                    from_raw@,
                    to_raw@,
                    Date { days: earliest as i64 },
                    Date { days: latest as i64 },
                ) {
                    Err(e) => r == Err::<PortfolioReturnResult, EngineError>(e),
                    Ok(w) => if w.effective_from.days >= w.effective_to.days {
                        r == Err::<PortfolioReturnResult, EngineError>(
                            EngineError::InsufficientData,
                        )
                    } else {
                        r matches Ok(out) && out.window == w && out.account_count
                            == entities@.len() && out.begin_assets_cents == asof_total(
                            all,
                            w.effective_from.days as int,
                        ) && out.end_assets_cents == asof_total(all, w.effective_to.days as int)
                            && dietz_fields_ok(
                            out.calc,
                            w.effective_from.days as int,
                            w.effective_to.days as int,
                            out.begin_assets_cents as int,
                            out.end_assets_cents as int,
                            portfolio_flows(
                                all,
                                w.effective_from.days as int,
                                w.effective_to.days as int,
                            ),
                        )
                    },
                },
            }
        }),
{
    let ghost all = entities@.map_values(|v: Vec<AsOfHistoryRow>| v@);
    proof {
        assert forall|e: int, i: int|
            0 <= e < entities@.len() && 0 <= i < (#[trigger] entities@[e])@.len() implies (
        #[trigger] entities@[e]@[i]).snapshot_date.wf() by {
            assert(all[e] == entities@[e]@);
            assert(series_wf(all[e]));
        }
    }
    let (earliest, latest) = match union_bounds(entities) {
        Some(b) => b,
        None => {
            return Err(EngineError::NoData);
        },
    };
    let window = match resolve_window(preset, from_raw, to_raw, earliest, latest) {
        Ok(w) => w,
        Err(e) => {
            return Err(e);
        },
    };
    if window.effective_from.days >= window.effective_to.days {
        return Err(EngineError::InsufficientData);
    }
    let dates = collect_union_dates(entities, window.effective_from, window.effective_to);
    proof {
        assert(crate::asof::dates_sorted(dates@)) by {
            assert(forall|i: int, j: int|
                0 <= i < j < dates@.len() ==> (#[trigger] dates@[i]).days < (
                #[trigger] dates@[j]).days);
        }
        assert forall|e: int|
            0 <= e < entities@.len() implies series_wf((#[trigger] entities@[e])@) by {
            assert(all[e] == entities@[e]@);
            assert(series_wf(all[e]));
        }
    }
    let totals = build_asof_totals(&dates, entities);
    proof {
        assert forall|k: int|
            0 <= k < dates@.len() implies window.effective_from.days <= (
        #[trigger] dates@[k]).days <= window.effective_to.days by {
            assert(contains_day(dates@, dates@[k].days as int));
        }
        lemma_union_endpoints(
            dates@,
            window.effective_from.days as int,
            window.effective_to.days as int,
        );
    }
    let begin_assets = totals[0];
    let end_assets = totals[totals.len() - 1];
    proof {
        lemma_portfolio_flows_ok(
            all,
            window.effective_from.days as int,
            window.effective_to.days as int,
        );
        assert forall|e: int, i: int|
            0 <= e < all.len() && 0 <= i < (#[trigger] all[e]).len() implies crate::dietz::money_bounded(
            (#[trigger] all[e][i]).value_cents as int,
        ) by {
            assert(series_wf(all[e]));
        }
        lemma_asof_total_small(all, window.effective_from.days as int);
        lemma_asof_total_small(all, window.effective_to.days as int);
    }
    let flows = exec_portfolio_flows(entities, window.effective_from, window.effective_to);
    let calc = match calculate_modified_dietz(
        window.effective_from,
        window.effective_to,
        begin_assets,
        end_assets,
        &flows,
        false,
    ) {
        Ok(c) => c,
        Err(_) => {
            proof {
                assert(false);
            }
            return Err(EngineError::InsufficientData);
        },
    };
    Ok(
        PortfolioReturnResult {
            window,
            begin_assets_cents: begin_assets,
            end_assets_cents: end_assets,
            account_count: entities.len(),
            calc,
        },
    )
}

/// The curve row of the whole portfolio at day `d`, anchored at the
/// window start with its as-of total as the begin value.
pub open spec fn portfolio_point_spec(
    gs: Seq<Seq<AsOfHistoryRow>>,
    begin_day: int,
    begin_value: int,
    d: int,
) -> CurvePoint {
    let fl = portfolio_flows(gs, begin_day, d);
    let total = asof_total(gs, d);
    CurvePoint {
        snapshot_date: Date { days: d as i64 },
        effective_snapshot_date: Date { days: d as i64 },
        total_assets_cents: total as i64,
        transfer_amount_cents: day_flow_sum(gs, d) as i64,
        cumulative_net_growth_cents: dietz_profit(begin_value, total, fl) as i64,
        cumulative_return_rate: dietz_return_rate(begin_value, total, fl, begin_day, d),
    }
}

/// The full result of a portfolio curve request.
#[derive(Debug)]
pub struct PortfolioCurveResult {
    pub window: Window,
    pub begin_assets_cents: i64,
    pub account_count: usize,
    pub rows: Vec<CurvePoint>,
    pub summary: CurveSummary,
}

/// Build the portfolio's cumulative return curve: one row per date in the
/// union of snapshot dates inside the effective window (plus the window
/// edges), each computed by the Modified Dietz calculator anchored at the
/// window start's as-of total, with the zero-interval flag set.
#[verifier::loop_isolation(false)]
#[verifier::rlimit(100)]
pub fn portfolio_curve(
    entities: &Vec<Vec<AsOfHistoryRow>>,
    preset: &str,
    from_raw: &str,
    to_raw: &str,
) -> (r: Result<PortfolioCurveResult, EngineError>)
    requires
        groups_wf(entities@.map_values(|v: Vec<AsOfHistoryRow>| v@)),
    ensures
        ({
            let all = entities@.map_values(|v: Vec<AsOfHistoryRow>| v@);
            match groups_bounds(all) {
                None => r == Err::<PortfolioCurveResult, EngineError>(EngineError::NoData),
                Some((earliest, latest)) => match resolve_window_spec(
                    preset@,
                    from_raw@,
                    to_raw@,
                    Date { days: earliest as i64 },
                    Date { days: latest as i64 },
                ) {
                    Err(e) => r == Err::<PortfolioCurveResult, EngineError>(e),
                    Ok(w) => r matches Ok(out) && out.window == w && out.account_count
                        == entities@.len() && out.begin_assets_cents == asof_total(
                        all,
                        w.effective_from.days as int,
                    ) && out.summary == curve_summary_spec(out.rows@) && out.rows@.len() >= 1 && (
                    forall|i: int, j: int|
                        0 <= i < j < out.rows@.len() ==> (#[trigger] out.rows@[i]).snapshot_date.days
                            < (#[trigger] out.rows@[j]).snapshot_date.days) && (forall|k: int|
                        0 <= k < out.rows@.len() ==> (#[trigger] out.rows@[k])
                            == portfolio_point_spec(
                            all,
                            w.effective_from.days as int,
                            asof_total(all, w.effective_from.days as int),
                            out.rows@[k].snapshot_date.days as int,
                        )) && (forall|x: int|
                        (exists|k: int|
                            0 <= k < out.rows@.len() && (#[trigger] out.rows@[k]).snapshot_date.days
                                == x) <==> (x == w.effective_from.days || x == w.effective_to.days
                            || (w.effective_from.days <= x <= w.effective_to.days && day_in_groups(
                            all,
                            x,
                        )))),
                },
            }
        }),
{
    let ghost all = entities@.map_values(|v: Vec<AsOfHistoryRow>| v@);
    proof {
        assert forall|e: int, i: int|
            0 <= e < entities@.len() && 0 <= i < (#[trigger] entities@[e])@.len() implies (
        #[trigger] entities@[e]@[i]).snapshot_date.wf() by {
            assert(all[e] == entities@[e]@);
            assert(series_wf(all[e]));
        }
        assert forall|e: int, i: int|
            0 <= e < all.len() && 0 <= i < (#[trigger] all[e]).len() implies crate::dietz::money_bounded(
            (#[trigger] all[e][i]).value_cents as int,
        ) by {
            assert(series_wf(all[e]));
        }
    }
    let (earliest, latest) = match union_bounds(entities) {
        Some(b) => b,
        None => {
            return Err(EngineError::NoData);
        },
    };
    let window = match resolve_window(preset, from_raw, to_raw, earliest, latest) {
        Ok(w) => w,
        Err(e) => {
            return Err(e);
        },
    };
    let dates = collect_union_dates(entities, window.effective_from, window.effective_to);
    proof {
        assert(crate::asof::dates_sorted(dates@)) by {
            assert(forall|i: int, j: int|
                0 <= i < j < dates@.len() ==> (#[trigger] dates@[i]).days < (
                #[trigger] dates@[j]).days);
        }
        assert forall|e: int|
            0 <= e < entities@.len() implies series_wf((#[trigger] entities@[e])@) by {
            assert(all[e] == entities@[e]@);
            assert(series_wf(all[e]));
        }
        assert forall|k: int|
            0 <= k < dates@.len() implies window.effective_from.days <= (
        #[trigger] dates@[k]).days <= window.effective_to.days by {
            assert(contains_day(dates@, dates@[k].days as int));
        }
        lemma_asof_total_small(all, window.effective_from.days as int);
    }
    let totals = build_asof_totals(&dates, entities);
    proof {
        lemma_union_endpoints(
            dates@,
            window.effective_from.days as int,
            window.effective_to.days as int,
        );
    }
    let begin_assets = totals[0];

    let mut rows: Vec<CurvePoint> = Vec::new();
    let mut k: usize = 0;
    while k < dates.len()
        invariant
            k <= dates@.len(),
            totals@.len() == dates@.len(),
            rows@.len() == k,
            all == entities@.map_values(|v: Vec<AsOfHistoryRow>| v@),
            groups_wf(all),
            window.effective_from.wf(),
            window.effective_to.wf(),
            begin_assets == asof_total(all, window.effective_from.days as int),
            -1_000_000_000_000_000_000 <= begin_assets <= 1_000_000_000_000_000_000,
            sorted_strict(dates@),
            forall|j: int|
                0 <= j < dates@.len() ==> window.effective_from.days <= (
                #[trigger] dates@[j]).days <= window.effective_to.days && dates@[j].wf(),
            forall|j: int|
                0 <= j < dates@.len() ==> totals@[j] == asof_total(
                    all,
                    (#[trigger] dates@[j]).days as int,
                ),
            forall|j: int|
                0 <= j < k ==> (#[trigger] rows@[j]).snapshot_date == dates@[j],
            forall|j: int|
                0 <= j < k ==> (#[trigger] rows@[j]) == portfolio_point_spec(
                    all,
                    window.effective_from.days as int,
                    begin_assets as int,
                    dates@[j].days as int,
                ),
            forall|j: int|
                0 <= j < k ==> crate::dietz::total_bounded(
                    (#[trigger] rows@[j]).total_assets_cents as int,
                ),
        decreases dates@.len() - k,
    {
        let d = dates[k];
        let point_assets = totals[k];
        proof {
            lemma_portfolio_flows_ok(all, window.effective_from.days as int, d.days as int);
            lemma_asof_total_small(all, d.days as int);
        }
        let flows = exec_portfolio_flows(entities, window.effective_from, d);
        let calc = match calculate_modified_dietz(
            window.effective_from,
            d,
            begin_assets,
            point_assets,
            &flows,
            true,
        ) {
            Ok(c) => c,
            Err(_) => {
                proof {
                    assert(false);
                }
                return Err(EngineError::InsufficientData);
            },
        };
        let transfer = exec_day_flow_sum(entities, d);
        rows.push(
            CurvePoint {
                snapshot_date: d,
                effective_snapshot_date: d,
                total_assets_cents: point_assets,
                transfer_amount_cents: transfer,
                cumulative_net_growth_cents: calc.profit_cents,
                cumulative_return_rate: calc.return_rate,
            },
        );
        k += 1;
    }

    let summary = if rows.len() == 0 {
        proof {
            assert(false);
        }
        CurveSummary {
            count: 0,
            start_assets_cents: 0,
            end_assets_cents: 0,
            change_cents: 0,
            change_rate: None,
            end_net_growth_cents: 0,
            end_cumulative_return_rate: None,
        }
    } else {
        let first = rows[0];
        let last = rows[rows.len() - 1];
        CurveSummary {
            count: rows.len(),
            start_assets_cents: first.total_assets_cents,
            end_assets_cents: last.total_assets_cents,
            change_cents: last.total_assets_cents - first.total_assets_cents,
            change_rate: if first.total_assets_cents > 0 {
                Some(
                    Ratio {
                        num: (last.total_assets_cents as i128) - (first.total_assets_cents as i128),
                        den: first.total_assets_cents as i128,
                    },
                )
            } else {
                None
            },
            end_net_growth_cents: last.cumulative_net_growth_cents,
            end_cumulative_return_rate: last.cumulative_return_rate,
        }
    };
    proof {
        assert forall|x: int|
            (exists|j: int|
                0 <= j < rows@.len() && (#[trigger] rows@[j]).snapshot_date.days == x) <==> (x
            == window.effective_from.days || x == window.effective_to.days || (
        window.effective_from.days <= x <= window.effective_to.days && day_in_groups(
            all,
            x,
        ))) by {
            if exists|j: int|
                0 <= j < rows@.len() && (#[trigger] rows@[j]).snapshot_date.days == x {
                let j = choose|j: int|
                    0 <= j < rows@.len() && (#[trigger] rows@[j]).snapshot_date.days == x;
                assert(dates@[j].days == x);
                assert(contains_day(dates@, x));
            }
            if x == window.effective_from.days || x == window.effective_to.days || (
            window.effective_from.days <= x <= window.effective_to.days && day_in_groups(all, x)) {
                assert(contains_day(dates@, x));
                let j = choose|j: int| 0 <= j < dates@.len() && (#[trigger] dates@[j]).days == x;
                assert(rows@[j].snapshot_date.days == x);
            }
        }
    }
    Ok(
        PortfolioCurveResult {
            window,
            begin_assets_cents: begin_assets,
            account_count: entities.len(),
            rows,
            summary,
        },
    )
}

/// In a sorted date list that contains its bounds and stays inside them,
/// the first entry is the lower bound and the last the upper.
proof fn lemma_union_endpoints(ds: Seq<Date>, lo: int, hi: int)
    requires
        sorted_strict(ds),
        ds.len() >= 1,
        contains_day(ds, lo),
        contains_day(ds, hi),
        forall|k: int| 0 <= k < ds.len() ==> lo <= (#[trigger] ds[k]).days <= hi,
    ensures
        ds[0].days == lo,
        ds[ds.len() - 1].days == hi,
{
    let kl = choose|k: int| 0 <= k < ds.len() && (#[trigger] ds[k]).days == lo;
    if kl > 0 {
        assert(ds[0].days < ds[kl].days);
    }
    let kh = choose|k: int| 0 <= k < ds.len() && (#[trigger] ds[k]).days == hi;
    if kh < ds.len() - 1 {
        assert(ds[kh].days < ds[ds.len() - 1].days);
    }
}

} // verus!
