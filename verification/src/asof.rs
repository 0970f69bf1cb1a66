//! The as-of aggregator: step-function forward fill over sparse snapshots.
//!
//! For a shared, sorted list of reference dates and one chronological
//! snapshot series per entity, the aggregator reconstructs each entity's
//! "current value" at every reference date — the value of the last snapshot
//! at or before that date — and sums the entities into per-date totals.
//! One linear merge per entity; no repeated scanning.

use vstd::prelude::*;

use crate::date::Date;
use crate::dietz::{abs_int, money_bounded, MAX_MONEY_CENTS};

verus! {

/// One (date, value, net flow) observation of an entity.
#[derive(Clone, Copy, Debug, PartialEq, Eq, Structural)]
pub struct AsOfHistoryRow {
    pub snapshot_date: Date,
    pub value_cents: i64,
    pub flow_cents: i64,
}

/// The retain-previous-value heuristic, isolated so it can be revisited on
/// its own: a snapshot reporting value 0 with a nonzero same-day flow,
/// while a positive value is already held, does not reset the running
/// value. Inherited compatibility rule; it can mask a liquidation to zero.
pub open spec fn retains_previous_value(value: int, flow: int, current: int) -> bool {
    value == 0 && flow != 0 && current > 0
}

pub fn exec_retains_previous_value(value: i64, flow: i64, current: i64) -> (r: bool)
    ensures
        r == retains_previous_value(value as int, flow as int, current as int),
{
    value == 0 && flow != 0 && current > 0
}

/// The running value after replaying a series in order, starting from 0.
pub open spec fn running_value(series: Seq<AsOfHistoryRow>) -> int
    decreases series.len(),
{
    if series.len() == 0 {
        0
    } else {
        let prev = running_value(series.drop_last());
        let s = series.last();
        if retains_previous_value(s.value_cents as int, s.flow_cents as int, prev) {
            prev
        } else {
            s.value_cents as int
        }
    }
}

/// The rows of `series` dated at or before `day`, in order.
pub open spec fn upto(series: Seq<AsOfHistoryRow>, day: int) -> Seq<AsOfHistoryRow>
    decreases series.len(),
{
    if series.len() == 0 {
        Seq::empty()
    } else {
        let rest = upto(series.drop_last(), day);
        if series.last().snapshot_date.days <= day {
            rest.push(series.last())
        } else {
            rest
        }
    }
}

/// The forward-filled current value of one entity at `day`.
pub open spec fn asof_value(series: Seq<AsOfHistoryRow>, day: int) -> int {
    running_value(upto(series, day))
}

/// The total over a set of entities at `day`.
pub open spec fn asof_total(entities: Seq<Seq<AsOfHistoryRow>>, day: int) -> int
    decreases entities.len(),
{
    if entities.len() == 0 {
        0
    } else {
        asof_total(entities.drop_last(), day) + asof_value(entities.last(), day)
    }
}

/// A usable entity series: dates well formed and nondecreasing, values in
/// the engine's money range.
pub open spec fn series_wf(s: Seq<AsOfHistoryRow>) -> bool {
    &&& forall|i: int|
        0 <= i < s.len() ==> (#[trigger] s[i]).snapshot_date.wf() && money_bounded(
            s[i].value_cents as int,
        )
    &&& forall|i: int, j: int|
        0 <= i < j < s.len() ==> (#[trigger] s[i]).snapshot_date.days
            <= (#[trigger] s[j]).snapshot_date.days
}

pub open spec fn dates_sorted(ds: Seq<Date>) -> bool {
    forall|i: int, j: int|
        0 <= i < j < ds.len() ==> (#[trigger] ds[i]).days <= (#[trigger] ds[j]).days
}

proof fn lemma_running_value_bounded(series: Seq<AsOfHistoryRow>)
    requires
        forall|i: int| 0 <= i < series.len() ==> money_bounded((#[trigger] series[i]).value_cents as int),
    ensures
        money_bounded(running_value(series)),
    decreases series.len(),
{
    if series.len() > 0 {
        let rest = series.drop_last();
        assert(forall|i: int|
            0 <= i < rest.len() ==> money_bounded((#[trigger] rest[i]).value_cents as int)) by {
            assert(forall|i: int| 0 <= i < rest.len() ==> rest[i] == series[i]);
        }
        lemma_running_value_bounded(rest);
    }
}

proof fn lemma_upto_bounded(series: Seq<AsOfHistoryRow>, day: int)
    requires
        forall|i: int| 0 <= i < series.len() ==> money_bounded((#[trigger] series[i]).value_cents as int),
    ensures
        forall|i: int|
            0 <= i < upto(series, day).len() ==> money_bounded(
                (#[trigger] upto(series, day)[i]).value_cents as int,
            ),
    decreases series.len(),
{
    if series.len() > 0 {
        let rest = series.drop_last();
        assert(forall|i: int|
            0 <= i < rest.len() ==> money_bounded((#[trigger] rest[i]).value_cents as int)) by {
            assert(forall|i: int| 0 <= i < rest.len() ==> rest[i] == series[i]);
        }
        lemma_upto_bounded(rest, day);
        let u = upto(series, day);
        let ur = upto(rest, day);
        if series.last().snapshot_date.days <= day {
            assert(u == ur.push(series.last()));
            assert(money_bounded(series.last().value_cents as int));
            assert forall|i: int| 0 <= i < u.len() implies money_bounded(
                (#[trigger] u[i]).value_cents as int,
            ) by {
                if i < ur.len() {
                    assert(u[i] == ur[i]);
                } else {
                    assert(u[i] == series.last());
                }
            }
        } else {
            assert(u == ur);
        }
    }
}

proof fn lemma_asof_total_len_bound(entities: Seq<Seq<AsOfHistoryRow>>, day: int)
    requires
        forall|e: int, i: int|
            0 <= e < entities.len() && 0 <= i < (#[trigger] entities[e]).len() ==> money_bounded(
                (#[trigger] entities[e][i]).value_cents as int,
            ),
    ensures
        abs_int(asof_total(entities, day)) <= entities.len() * MAX_MONEY_CENTS,
    decreases entities.len(),
{
    if entities.len() == 0 {
    } else {
        let rest = entities.drop_last();
        assert(forall|e: int, i: int|
            0 <= e < rest.len() && 0 <= i < (#[trigger] rest[e]).len() ==> money_bounded(
                (#[trigger] rest[e][i]).value_cents as int,
            )) by {
            assert(forall|e: int| 0 <= e < rest.len() ==> rest[e] == entities[e]);
        }
        lemma_asof_total_len_bound(rest, day);
        lemma_asof_value_bounded(entities.last(), day);
        let n = entities.len() as int;
        assert((n - 1) * MAX_MONEY_CENTS + MAX_MONEY_CENTS == n * MAX_MONEY_CENTS)
            by (nonlinear_arith);
    }
}

/// Totals over at most 1000 bounded entities stay far inside `i64`.
pub proof fn lemma_asof_total_small(entities: Seq<Seq<AsOfHistoryRow>>, day: int)
    requires
        forall|e: int, i: int|
            0 <= e < entities.len() && 0 <= i < (#[trigger] entities[e]).len() ==> money_bounded(
                (#[trigger] entities[e][i]).value_cents as int,
            ),
        entities.len() <= 1000,
    ensures
        -1_000_000_000_000_000_000 <= asof_total(entities, day) <= 1_000_000_000_000_000_000,
{
    lemma_asof_total_len_bound(entities, day);
    let n = entities.len() as int;
    assert(n * MAX_MONEY_CENTS <= 1_000_000_000_000_000_000) by (nonlinear_arith)
        requires
            MAX_MONEY_CENTS == 1_000_000_000_000_000,
            0 <= n <= 1000,
    ;
}

/// The as-of value of a bounded series stays in the money range.
pub proof fn lemma_asof_value_bounded(series: Seq<AsOfHistoryRow>, day: int)
    requires
        forall|i: int| 0 <= i < series.len() ==> money_bounded((#[trigger] series[i]).value_cents as int),
    ensures
        money_bounded(asof_value(series, day)),
{
    lemma_upto_bounded(series, day);
    lemma_running_value_bounded(upto(series, day));
}

/// In a sorted series, the rows at or before `day` form the prefix of
/// length `i`, where `i` is any witness index separating them.
proof fn lemma_upto_is_prefix(series: Seq<AsOfHistoryRow>, day: int, i: int)
    requires
        0 <= i <= series.len(),
        forall|j: int| 0 <= j < i ==> (#[trigger] series[j]).snapshot_date.days <= day,
        forall|j: int| i <= j < series.len() ==> (#[trigger] series[j]).snapshot_date.days > day,
    ensures
        upto(series, day) == series.take(i),
    decreases series.len(),
{
    if series.len() == 0 {
        assert(upto(series, day) =~= series.take(i));
    } else {
        let rest = series.drop_last();
        if i == series.len() {
            lemma_upto_is_prefix(rest, day, i - 1);
            assert(rest.take(i - 1) =~= rest);
            assert(upto(series, day) =~= series.take(i));
        } else {
            assert(series.last().snapshot_date.days > day);
            lemma_upto_is_prefix(rest, day, i);
            assert(rest.take(i) =~= series.take(i));
        }
    }
}

/// Law: one entity with a single snapshot at date `d0` with value `v` is a
/// step function — the total is 0 at every date before `d0` and exactly `v`
/// at every date at or after `d0`.
pub proof fn lemma_single_snapshot_step_function(row: AsOfHistoryRow, day: int)
    ensures
        asof_total(seq![seq![row]], day) == if day < row.snapshot_date.days {
            0int
        } else {
            row.value_cents as int
        },
{
    let s = seq![row];
    assert(s.len() == 1 && s.last() == row);
    assert(s.drop_last() =~= Seq::<AsOfHistoryRow>::empty());
    assert(upto(s.drop_last(), day) == Seq::<AsOfHistoryRow>::empty());
    if row.snapshot_date.days <= day {
        let u = upto(s, day);
        assert(u == Seq::<AsOfHistoryRow>::empty().push(row));
        assert(u.len() == 1 && u.last() == row);
        assert(u.drop_last() =~= Seq::<AsOfHistoryRow>::empty());
        assert(running_value(u.drop_last()) == 0);
        assert(!retains_previous_value(row.value_cents as int, row.flow_cents as int, 0));
        assert(running_value(u) == row.value_cents as int);
    } else {
        assert(upto(s, day) == Seq::<AsOfHistoryRow>::empty());
        assert(asof_value(s, day) == 0);
    }
    let ss = seq![s];
    assert(ss.len() == 1 && ss.last() == s);
    assert(ss.drop_last() =~= Seq::<Seq<AsOfHistoryRow>>::empty());
    assert(asof_total(ss.drop_last(), day) == 0);
    assert(asof_total(ss, day) == asof_value(s, day));
}

proof fn lemma_upto_insert_later(series: Seq<AsOfHistoryRow>, pos: int, row: AsOfHistoryRow, day: int)
    requires
        0 <= pos <= series.len(),
        row.snapshot_date.days > day,
    ensures
        upto(series.insert(pos, row), day) == upto(series, day),
    decreases series.len(),
{
    let grown = series.insert(pos, row);
    if pos == series.len() {
        assert(grown.drop_last() =~= series);
        assert(grown.last() == row);
    } else {
        assert(grown.drop_last() =~= series.drop_last().insert(pos, row));
        assert(grown.last() == series.last());
        lemma_upto_insert_later(series.drop_last(), pos, row, day);
    }
}

/// Law (no look-ahead): inserting a snapshot dated after `day` anywhere in
/// an entity's series never changes that entity's as-of value at `day`.
pub proof fn lemma_no_look_ahead_value(
    series: Seq<AsOfHistoryRow>,
    pos: int,
    row: AsOfHistoryRow,
    day: int,
)
    requires
        0 <= pos <= series.len(),
        row.snapshot_date.days > day,
    ensures
        asof_value(series.insert(pos, row), day) == asof_value(series, day),
{
    lemma_upto_insert_later(series, pos, row, day);
}

/// Law (no look-ahead, totals): inserting a later snapshot into any one
/// entity's series never changes the aggregated total at any earlier date.
pub proof fn lemma_no_look_ahead_total(
    entities: Seq<Seq<AsOfHistoryRow>>,
    e: int,
    pos: int,
    row: AsOfHistoryRow,
    day: int,
)
    requires
        0 <= e < entities.len(),
        0 <= pos <= entities[e].len(),
        row.snapshot_date.days > day,
    ensures
        asof_total(entities.update(e, entities[e].insert(pos, row)), day) == asof_total(
            entities,
            day,
        ),
    decreases entities.len(),
{
    let grown = entities.update(e, entities[e].insert(pos, row));
    if e == entities.len() - 1 {
        assert(grown.drop_last() =~= entities.drop_last());
        assert(grown.last() == entities[e].insert(pos, row));
        lemma_no_look_ahead_value(entities[e], pos, row, day);
        assert(entities.last() == entities[e]);
    } else {
        assert(grown.drop_last() =~= entities.drop_last().update(e, entities[e].insert(pos, row)));
        assert(grown.last() == entities.last());
        assert(entities.drop_last()[e] == entities[e]);
        lemma_no_look_ahead_total(entities.drop_last(), e, pos, row, day);
    }
}

pub open spec fn sorted_strict(ds: Seq<Date>) -> bool {
    forall|i: int, j: int|
        0 <= i < j < ds.len() ==> (#[trigger] ds[i]).days < (#[trigger] ds[j]).days
}

pub open spec fn contains_day(ds: Seq<Date>, d: int) -> bool {
    exists|k: int| 0 <= k < ds.len() && (#[trigger] ds[k]).days == d
}

/// Whether some entity has a snapshot dated exactly `d`.
pub open spec fn day_in_groups(gs: Seq<Seq<AsOfHistoryRow>>, d: int) -> bool {
    exists|e: int, i: int|
        0 <= e < gs.len() && 0 <= i < (#[trigger] gs[e]).len() && (#[trigger] gs[e][i]).snapshot_date.days
            == d
}

/// Insert a day into a sorted, duplicate-free date list, keeping it so.
#[verifier::loop_isolation(false)]
pub fn insert_day_sorted(out: &mut Vec<Date>, d: Date)
    requires
        sorted_strict(old(out)@),
        forall|k: int| 0 <= k < old(out)@.len() ==> (#[trigger] old(out)@[k]).wf(),
        d.wf(),
    ensures
        sorted_strict(final(out)@),
        forall|k: int| 0 <= k < final(out)@.len() ==> (#[trigger] final(out)@[k]).wf(),
        forall|x: int| contains_day(final(out)@, x) <==> contains_day(old(out)@, x) || x == d.days,
        final(out)@.len() <= old(out)@.len() + 1,
{
    let ghost pre = out@;
    let n = out.len();
    let mut p: usize = 0;
    while p < n && out[p].days < d.days
        invariant
            p <= n == out@.len(),
            out@ == pre,
            forall|k: int| 0 <= k < p ==> (#[trigger] out@[k]).days < d.days,
        decreases n - p,
    {
        p += 1;
    }
    if p < n && out[p].days == d.days {
        proof {
            assert(contains_day(pre, d.days as int));
            assert(forall|x: int| contains_day(out@, x) <==> contains_day(pre, x));
        }
        return ;
    }
    proof {
        assert(forall|k: int| p <= k < n ==> (#[trigger] pre[k]).days > d.days) by {
            if p < n {
                assert(pre[p as int].days > d.days);
                assert(forall|k: int| p < k < n ==> pre[p as int].days < (#[trigger] pre[k]).days);
            }
        }
    }
    out.insert(p, d);
    proof {
        let now = out@;
        assert(now == pre.insert(p as int, d));
        assert(forall|k: int| 0 <= k < p ==> now[k] == pre[k]);
        assert(now[p as int] == d);
        assert(forall|k: int| p < k < now.len() ==> now[k] == pre[k - 1]);
        assert forall|i: int, j: int| 0 <= i < j < now.len() implies (#[trigger] now[i]).days < (
        #[trigger] now[j]).days by {
            if j < p {
            } else if i > p {
            } else if i == p {
                assert(now[j] == pre[j - 1] && j - 1 >= p);
            } else if j == p {
                assert(now[i] == pre[i]);
            } else {
                // i < p < j
                assert(now[i] == pre[i] && now[j] == pre[j - 1]);
                if i < j - 1 {
                } else {
                    assert(i == j - 1 && i < p && j - 1 >= p);
                }
            }
        }
        assert forall|x: int| contains_day(now, x) implies contains_day(pre, x) || x == d.days by {
            let k = choose|k: int| 0 <= k < now.len() && (#[trigger] now[k]).days == x;
            if k < p {
                assert(pre[k].days == x);
            } else if k > p {
                assert(pre[k - 1].days == x);
            }
        }
        assert forall|x: int| contains_day(pre, x) || x == d.days implies contains_day(
            now,
            x,
        ) by {
            if x == d.days {
                assert(now[p as int].days == x);
            } else {
                let k = choose|k: int| 0 <= k < pre.len() && (#[trigger] pre[k]).days == x;
                if k < p {
                    assert(now[k].days == x);
                } else {
                    assert(now[k + 1].days == x);
                }
            }
        }
    }
}

/// Add one entity's snapshot dates inside `[lo, hi]` to a sorted list.
#[verifier::loop_isolation(false)]
pub fn add_series_dates(out: &mut Vec<Date>, series: &Vec<AsOfHistoryRow>, lo: Date, hi: Date)
    requires
        sorted_strict(old(out)@),
        forall|k: int| 0 <= k < old(out)@.len() ==> (#[trigger] old(out)@[k]).wf(),
        forall|i: int| 0 <= i < series@.len() ==> (#[trigger] series@[i]).snapshot_date.wf(),
    ensures
        sorted_strict(final(out)@),
        forall|k: int| 0 <= k < final(out)@.len() ==> (#[trigger] final(out)@[k]).wf(),
        forall|x: int|
            contains_day(final(out)@, x) <==> contains_day(old(out)@, x) || (lo.days <= x <= hi.days
                && (exists|i: int|
                0 <= i < series@.len() && (#[trigger] series@[i]).snapshot_date.days == x)),
{
    let mut i: usize = 0;
    while i < series.len()
        invariant
            i <= series@.len(),
            sorted_strict(out@),
            forall|k: int| 0 <= k < out@.len() ==> (#[trigger] out@[k]).wf(),
            forall|j: int| 0 <= j < series@.len() ==> (#[trigger] series@[j]).snapshot_date.wf(),
            forall|x: int|
                contains_day(out@, x) <==> contains_day(old(out)@, x) || (lo.days <= x <= hi.days
                    && (exists|j: int|
                    0 <= j < i && (#[trigger] series@[j]).snapshot_date.days == x)),
        decreases series@.len() - i,
    {
        let row = series[i];
        if lo.days <= row.snapshot_date.days && row.snapshot_date.days <= hi.days {
            insert_day_sorted(out, row.snapshot_date);
            proof {
                assert(series@[i as int].snapshot_date.days == row.snapshot_date.days);
            }
        }
        i += 1;
        proof {
            assert forall|x: int|
                contains_day(out@, x) <==> contains_day(old(out)@, x) || (lo.days <= x <= hi.days
                    && (exists|j: int|
                    0 <= j < i && (#[trigger] series@[j]).snapshot_date.days == x)) by {
                if lo.days <= x <= hi.days && exists|j: int|
                    0 <= j < i && (#[trigger] series@[j]).snapshot_date.days == x {
                    let j = choose|j: int|
                        0 <= j < i && (#[trigger] series@[j]).snapshot_date.days == x;
                    assert(j < i);
                }
            }
        }
    }
}

/// Add every snapshot date inside `[lo, hi]` from a set of entities to a
/// sorted date list.
#[verifier::loop_isolation(false)]
pub fn add_groups_dates(out: &mut Vec<Date>, groups: &Vec<Vec<AsOfHistoryRow>>, lo: Date, hi: Date)
    requires
        sorted_strict(old(out)@),
        forall|k: int| 0 <= k < old(out)@.len() ==> (#[trigger] old(out)@[k]).wf(),
        forall|e: int, i: int|
            0 <= e < groups@.len() && 0 <= i < (#[trigger] groups@[e])@.len() ==> (
            #[trigger] groups@[e]@[i]).snapshot_date.wf(),
    ensures
        sorted_strict(final(out)@),
        forall|k: int| 0 <= k < final(out)@.len() ==> (#[trigger] final(out)@[k]).wf(),
        forall|x: int|
            contains_day(final(out)@, x) <==> contains_day(old(out)@, x) || (lo.days <= x <= hi.days
                && day_in_groups(groups@.map_values(|v: Vec<AsOfHistoryRow>| v@), x)),
{
    let ghost all = groups@.map_values(|v: Vec<AsOfHistoryRow>| v@);
    let mut e: usize = 0;
    while e < groups.len()
        invariant
            e <= groups@.len(),
            all == groups@.map_values(|v: Vec<AsOfHistoryRow>| v@),
            sorted_strict(out@),
            forall|k: int| 0 <= k < out@.len() ==> (#[trigger] out@[k]).wf(),
            forall|x2: int, i: int|
                0 <= x2 < groups@.len() && 0 <= i < (#[trigger] groups@[x2])@.len() ==> (
                #[trigger] groups@[x2]@[i]).snapshot_date.wf(),
            forall|x: int|
                contains_day(out@, x) <==> contains_day(old(out)@, x) || (lo.days <= x <= hi.days
                    && (exists|g: int, i: int|
                    0 <= g < e && 0 <= i < (#[trigger] all[g]).len() && (#[trigger] all[g][i]).snapshot_date.days
                        == x)),
        decreases groups@.len() - e,
    {
        let series = &groups[e];
        proof {
            assert(all[e as int] == series@);
        }
        add_series_dates(out, series, lo, hi);
        e += 1;
        proof {
            assert forall|x: int|
                contains_day(out@, x) <==> contains_day(old(out)@, x) || (lo.days <= x <= hi.days
                    && (exists|g: int, i: int|
                    0 <= g < e && 0 <= i < (#[trigger] all[g]).len() && (#[trigger] all[g][i]).snapshot_date.days
                        == x)) by {
                if lo.days <= x <= hi.days && exists|g: int, i: int|
                    0 <= g < e && 0 <= i < (#[trigger] all[g]).len() && (
                    #[trigger] all[g][i]).snapshot_date.days == x {
                    let (g, i) = choose|g: int, i: int|
                        0 <= g < e && 0 <= i < (#[trigger] all[g]).len() && (
                        #[trigger] all[g][i]).snapshot_date.days == x;
                    if g == e - 1 {
                        assert(series@[i].snapshot_date.days == x);
                    }
                }
            }
        }
    }
    proof {
        assert(all.take(all.len() as int) =~= all);
    }
}

/// The sorted, duplicate-free union of the window endpoints and every
/// snapshot date inside the window, over a set of entities.
#[verifier::loop_isolation(false)]
pub fn collect_union_dates(groups: &Vec<Vec<AsOfHistoryRow>>, lo: Date, hi: Date) -> (r: Vec<Date>)
    requires
        lo.wf(),
        hi.wf(),
        lo.days <= hi.days,
        forall|e: int, i: int|
            0 <= e < groups@.len() && 0 <= i < (#[trigger] groups@[e])@.len() ==> (
            #[trigger] groups@[e]@[i]).snapshot_date.wf(),
    ensures
        sorted_strict(r@),
        forall|k: int| 0 <= k < r@.len() ==> (#[trigger] r@[k]).wf(),
        contains_day(r@, lo.days as int),
        contains_day(r@, hi.days as int),
        forall|x: int|
            contains_day(r@, x) <==> (x == lo.days || x == hi.days || (lo.days <= x <= hi.days
                && day_in_groups(groups@.map_values(|v: Vec<AsOfHistoryRow>| v@), x))),
        r@.len() >= 1,
{
    let ghost all = groups@.map_values(|v: Vec<AsOfHistoryRow>| v@);
    let mut out: Vec<Date> = Vec::new();
    out.push(lo);
    proof {
        assert(out@[0] == lo);
        assert(sorted_strict(out@));
    }
    insert_day_sorted(&mut out, hi);
    let mut e: usize = 0;
    while e < groups.len()
        invariant
            e <= groups@.len(),
            all == groups@.map_values(|v: Vec<AsOfHistoryRow>| v@),
            sorted_strict(out@),
            forall|k: int| 0 <= k < out@.len() ==> (#[trigger] out@[k]).wf(),
            forall|x2: int, i: int|
                0 <= x2 < groups@.len() && 0 <= i < (#[trigger] groups@[x2])@.len() ==> (
                #[trigger] groups@[x2]@[i]).snapshot_date.wf(),
            forall|x: int|
                contains_day(out@, x) <==> (x == lo.days || x == hi.days || (lo.days <= x <= hi.days
                    && (exists|g: int, i: int|
                    0 <= g < e && 0 <= i < (#[trigger] all[g]).len() && (#[trigger] all[g][i]).snapshot_date.days
                        == x))),
        decreases groups@.len() - e,
    {
        let series = &groups[e];
        proof {
            assert(all[e as int] == series@);
        }
        add_series_dates(&mut out, series, lo, hi);
        e += 1;
        proof {
            assert forall|x: int|
                contains_day(out@, x) <==> (x == lo.days || x == hi.days || (lo.days <= x
                    <= hi.days && (exists|g: int, i: int|
                    0 <= g < e && 0 <= i < (#[trigger] all[g]).len() && (#[trigger] all[g][i]).snapshot_date.days
                        == x))) by {
                if lo.days <= x <= hi.days && exists|g: int, i: int|
                    0 <= g < e && 0 <= i < (#[trigger] all[g]).len() && (
                    #[trigger] all[g][i]).snapshot_date.days == x {
                    let (g, i) = choose|g: int, i: int|
                        0 <= g < e && 0 <= i < (#[trigger] all[g]).len() && (
                        #[trigger] all[g][i]).snapshot_date.days == x;
                    if g == e - 1 {
                        assert(series@[i].snapshot_date.days == x);
                    }
                }
            }
        }
    }
    proof {
        assert(contains_day(out@, lo.days as int));
        assert(contains_day(out@, hi.days as int));
    }
    out
}

/// Per-date totals over a set of entities.
///
/// `dates` is the shared sorted reference-date list; `entities` holds one
/// chronological series per constituent entity. The result is aligned with
/// `dates`: entry `k` is the sum over all entities of the forward-filled
/// value at `dates[k]`.
pub fn build_asof_totals(dates: &Vec<Date>, entities: &Vec<Vec<AsOfHistoryRow>>) -> (r: Vec<i64>)
    requires
        dates_sorted(dates@),
        forall|e: int| 0 <= e < entities@.len() ==> series_wf((#[trigger] entities@[e])@),
        entities@.len() <= 1000,
    ensures
        r@.len() == dates@.len(),
        forall|k: int|
            0 <= k < dates@.len() ==> r@[k] == asof_total(
                entities@.map_values(|v: Vec<AsOfHistoryRow>| v@),
                (#[trigger] dates@[k]).days as int,
            ),
{
    let ghost all = entities@.map_values(|v: Vec<AsOfHistoryRow>| v@);
    let mut totals: Vec<i64> = Vec::new();
    let n = dates.len();
    let mut k0: usize = 0;
    while k0 < n
        invariant
            totals@.len() == k0 <= n == dates@.len(),
            forall|k: int| 0 <= k < k0 ==> totals@[k] == 0,
        decreases n - k0,
    {
        totals.push(0);
        k0 += 1;
    }
    proof {
        assert(all.take(0) =~= Seq::<Seq<AsOfHistoryRow>>::empty());
    }

    let mut e: usize = 0;
    while e < entities.len()
        invariant
            0 <= e <= entities@.len() <= 1000,
            all == entities@.map_values(|v: Vec<AsOfHistoryRow>| v@),
            dates_sorted(dates@),
            forall|x: int| 0 <= x < entities@.len() ==> series_wf((#[trigger] entities@[x])@),
            totals@.len() == dates@.len(),
            forall|k: int|
                0 <= k < dates@.len() ==> totals@[k] == asof_total(
                    all.take(e as int),
                    (#[trigger] dates@[k]).days as int,
                ),
        decreases entities@.len() - e,
    {
        let series = &entities[e];
        let ghost sv = series@;
        proof {
            assert(all[e as int] == sv);
            assert(series_wf(sv));
        }
        let mut idx: usize = 0;
        let mut current: i64 = 0;
        let mut k: usize = 0;
        proof {
            assert(sv.take(0) =~= Seq::<AsOfHistoryRow>::empty());
        }
        while k < dates.len()
            invariant
                0 <= e < entities@.len() <= 1000,
                all == entities@.map_values(|v: Vec<AsOfHistoryRow>| v@),
                sv == entities@[e as int]@,
                sv == series@,
                series_wf(sv),
                dates_sorted(dates@),
                forall|x: int| 0 <= x < entities@.len() ==> series_wf((#[trigger] entities@[x])@),
                0 <= k <= dates@.len(),
                totals@.len() == dates@.len(),
                0 <= idx <= sv.len(),
                current == running_value(sv.take(idx as int)),
                money_bounded(current as int),
                forall|j: int| 0 <= j < idx ==> (#[trigger] sv[j]).snapshot_date.days <= (if k > 0 {
                    dates@[k - 1].days as int
                } else {
                    sv[j].snapshot_date.days as int
                }),
                k == 0 ==> idx == 0,
                forall|j: int|
                    0 <= j < k ==> totals@[j] == asof_total(all.take(e as int), (
                    #[trigger] dates@[j]).days as int) + asof_value(sv, dates@[j].days as int),
                forall|j: int|
                    k <= j < dates@.len() ==> totals@[j] == asof_total(
                        all.take(e as int),
                        (#[trigger] dates@[j]).days as int,
                    ),
            decreases dates@.len() - k,
        {
            let d = dates[k];
            while idx < series.len() && series[idx].snapshot_date.days <= d.days
                invariant
                    sv == series@,
                    series_wf(sv),
                    0 <= idx <= sv.len(),
                    k < dates@.len(),
                    d == dates@[k as int],
                    current == running_value(sv.take(idx as int)),
                    money_bounded(current as int),
                    forall|j: int|
                        0 <= j < idx ==> (#[trigger] sv[j]).snapshot_date.days <= d.days as int,
                decreases sv.len() - idx,
            {
                let row = series[idx];
                proof {
                    assert(sv.take(idx as int + 1).drop_last() =~= sv.take(idx as int));
                    assert(sv.take(idx as int + 1).last() == sv[idx as int]);
                    assert(money_bounded(sv[idx as int].value_cents as int));
                }
                if exec_retains_previous_value(row.value_cents, row.flow_cents, current) {
                    // keep the previous running value (isolated heuristic)
                } else {
                    current = row.value_cents;
                }
                idx += 1;
            }
            proof {
                assert(forall|j: int|
                    idx <= j < sv.len() ==> (#[trigger] sv[j]).snapshot_date.days > d.days as int)
                    by {
                    if idx < sv.len() {
                        assert(sv[idx as int].snapshot_date.days > d.days);
                        assert(forall|j: int|
                            idx < j < sv.len() ==> (#[trigger] sv[j]).snapshot_date.days
                                >= sv[idx as int].snapshot_date.days);
                    }
                }
                lemma_upto_is_prefix(sv, d.days as int, idx as int);
                assert(current == asof_value(sv, d.days as int));
            }
            let prev_total = totals[k];
            proof {
                lemma_asof_value_bounded(sv, d.days as int);
                let pre = all.take(e as int);
                assert forall|x: int, i: int|
                    0 <= x < pre.len() && 0 <= i < (#[trigger] pre[x]).len() implies money_bounded(
                    (#[trigger] pre[x][i]).value_cents as int,
                ) by {
                    assert(pre[x] == all[x]);
                    assert(all[x] == entities@[x]@);
                    assert(series_wf(entities@[x]@));
                }
                lemma_asof_total_small(pre, d.days as int);
                assert(prev_total == asof_total(pre, d.days as int));
            }
            let new_total = prev_total + current;
            totals.set(k, new_total);
            k += 1;
        }
        proof {
            assert(all.take(e as int + 1).drop_last() =~= all.take(e as int));
            assert(all.take(e as int + 1).last() == sv);
            assert(forall|j: int|
                0 <= j < dates@.len() ==> asof_total(all.take(e as int + 1), (
                #[trigger] dates@[j]).days as int) == asof_total(all.take(e as int), dates@[j].days as int)
                + asof_value(sv, dates@[j].days as int));
        }
        e += 1;
    }
    proof {
        assert(all.take(entities@.len() as int) =~= all);
    }
    totals
}

} // verus!
