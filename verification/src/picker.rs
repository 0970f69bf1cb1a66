//! The snapshot picker: begin/end snapshot selection inside a window.
//!
//! Preferring snapshots with a positive value avoids anchoring a return on
//! a placeholder/zero row when a real one exists nearby; the final
//! any-value fallback accepts zero only as a legitimate baseline (a brand
//! new account).

use vstd::prelude::*;

use crate::date::Date;

verus! {

/// One dated observation of an entity's total value.
#[derive(Clone, Copy, Debug, PartialEq, Eq, Structural)]
pub struct SnapshotRow {
    pub snapshot_date: Date,
    pub total_assets_cents: i64,
}

pub open spec fn row_matches(row: SnapshotRow, lo: int, hi: int, positive_only: bool) -> bool {
    lo <= row.snapshot_date.days <= hi && (!positive_only || row.total_assets_cents > 0)
}

/// The last row (in series order) with `lo <= date <= hi`, restricted to
/// positive values when `positive_only` is set.
pub open spec fn last_match(
    s: Seq<SnapshotRow>,
    lo: int,
    hi: int,
    positive_only: bool,
) -> Option<SnapshotRow>
    decreases s.len(),
{
    if s.len() == 0 {
        None
    } else if row_matches(s.last(), lo, hi, positive_only) {
        Some(s.last())
    } else {
        last_match(s.drop_last(), lo, hi, positive_only)
    }
}

/// The first row (in series order) with `lo <= date <= hi`, restricted to
/// positive values when `positive_only` is set.
pub open spec fn first_match(
    s: Seq<SnapshotRow>,
    lo: int,
    hi: int,
    positive_only: bool,
) -> Option<SnapshotRow>
    decreases s.len(),
{
    if s.len() == 0 {
        None
    } else if row_matches(s[0], lo, hi, positive_only) {
        Some(s[0])
    } else {
        first_match(s.skip(1), lo, hi, positive_only)
    }
}

/// Begin-snapshot policy: (a) the latest positive-value snapshot at or
/// before the window start; (b) else the earliest positive-value snapshot
/// inside the window; (c) else the latest snapshot of any value at or
/// before the window start.
pub open spec fn begin_snapshot_spec(
    s: Seq<SnapshotRow>,
    from_day: int,
    to_day: int,
) -> Option<SnapshotRow> {
    match last_match(s, 0, from_day, true) {
        Some(row) => Some(row),
        None => match first_match(s, from_day, to_day, true) {
            Some(row) => Some(row),
            None => last_match(s, 0, from_day, false),
        },
    }
}

/// End-snapshot policy: (a) the latest positive-value snapshot within
/// `[begin_day, to_day]`; (b) else the latest snapshot of any value there.
pub open spec fn end_snapshot_spec(
    s: Seq<SnapshotRow>,
    begin_day: int,
    to_day: int,
) -> Option<SnapshotRow> {
    match last_match(s, begin_day, to_day, true) {
        Some(row) => Some(row),
        None => last_match(s, begin_day, to_day, false),
    }
}

fn exec_row_matches(row: &SnapshotRow, lo: i64, hi: i64, positive_only: bool) -> (r: bool)
    ensures
        r == row_matches(*row, lo as int, hi as int, positive_only),
{
    lo <= row.snapshot_date.days && row.snapshot_date.days <= hi && (!positive_only
        || row.total_assets_cents > 0)
}

fn exec_last_match(s: &Vec<SnapshotRow>, lo: i64, hi: i64, positive_only: bool) -> (r: Option<
    SnapshotRow,
>)
    ensures
        r == last_match(s@, lo as int, hi as int, positive_only),
{
    let mut i: usize = s.len();
    proof {
        assert(s@.take(s@.len() as int) =~= s@);
    }
    while i > 0
        invariant
            i <= s@.len(),
            last_match(s@, lo as int, hi as int, positive_only) == last_match(
                s@.take(i as int),
                lo as int,
                hi as int,
                positive_only,
            ),
        decreases i,
    {
        proof {
            assert(s@.take(i as int).drop_last() =~= s@.take(i as int - 1));
            assert(s@.take(i as int).last() == s@[i as int - 1]);
        }
        i -= 1;
        if exec_row_matches(&s[i], lo, hi, positive_only) {
            return Some(s[i]);
        }
    }
    proof {
        assert(s@.take(0) =~= Seq::<SnapshotRow>::empty());
    }
    None
}

fn exec_first_match(s: &Vec<SnapshotRow>, lo: i64, hi: i64, positive_only: bool) -> (r: Option<
    SnapshotRow,
>)
    ensures
        r == first_match(s@, lo as int, hi as int, positive_only),
{
    let mut i: usize = 0;
    proof {
        assert(s@.skip(0) =~= s@);
    }
    while i < s.len()
        invariant
            i <= s@.len(),
            first_match(s@, lo as int, hi as int, positive_only) == first_match(
                s@.skip(i as int),
                lo as int,
                hi as int,
                positive_only,
            ),
        decreases s@.len() - i,
    {
        proof {
            assert(s@.skip(i as int)[0] == s@[i as int]);
            assert(s@.skip(i as int).skip(1) =~= s@.skip(i as int + 1));
        }
        if exec_row_matches(&s[i], lo, hi, positive_only) {
            return Some(s[i]);
        }
        i += 1;
    }
    proof {
        assert(s@.skip(s@.len() as int) =~= Seq::<SnapshotRow>::empty());
    }
    None
}

/// Select the begin snapshot for a window over one entity's chronological
/// series. `None` means the entity has no usable snapshot at all.
pub fn select_begin_snapshot(
    series: &Vec<SnapshotRow>,
    window_from: Date,
    window_to: Date,
) -> (r: Option<SnapshotRow>)
    requires
        window_from.wf(),
        window_to.wf(),
    ensures
        r == begin_snapshot_spec(series@, window_from.days as int, window_to.days as int),
{
    if let Some(row) = exec_last_match(series, 0, window_from.days, true) {
        return Some(row);
    }
    if let Some(row) = exec_first_match(series, window_from.days, window_to.days, true) {
        return Some(row);
    }
    exec_last_match(series, 0, window_from.days, false)
}

/// Select the end snapshot within `[begin_date, window_to]`. `None` means
/// no snapshot exists in that range.
pub fn select_end_snapshot(series: &Vec<SnapshotRow>, begin_date: Date, window_to: Date) -> (r:
    Option<SnapshotRow>)
    requires
        begin_date.wf(),
        window_to.wf(),
    ensures
        r == end_snapshot_spec(series@, begin_date.days as int, window_to.days as int),
{
    if let Some(row) = exec_last_match(series, begin_date.days, window_to.days, true) {
        return Some(row);
    }
    exec_last_match(series, begin_date.days, window_to.days, false)
}

/// Whatever the policy tier, a selected row always comes from the series.
pub proof fn lemma_last_match_in_series(s: Seq<SnapshotRow>, lo: int, hi: int, p: bool)
    ensures
        last_match(s, lo, hi, p) matches Some(row) ==> exists|i: int|
            0 <= i < s.len() && s[i] == row && row_matches(row, lo, hi, p),
    decreases s.len(),
{
    if s.len() > 0 && !row_matches(s.last(), lo, hi, p) {
        lemma_last_match_in_series(s.drop_last(), lo, hi, p);
        match last_match(s, lo, hi, p) {
            Some(row) => {
                let i = choose|i: int|
                    0 <= i < s.drop_last().len() && s.drop_last()[i] == row && row_matches(
                        row,
                        lo,
                        hi,
                        p,
                    );
                assert(s[i] == row);
            },
            None => {},
        }
    }
}

pub proof fn lemma_first_match_in_series(s: Seq<SnapshotRow>, lo: int, hi: int, p: bool)
    ensures
        first_match(s, lo, hi, p) matches Some(row) ==> exists|i: int|
            0 <= i < s.len() && s[i] == row && row_matches(row, lo, hi, p),
    decreases s.len(),
{
    if s.len() > 0 && !row_matches(s[0], lo, hi, p) {
        lemma_first_match_in_series(s.skip(1), lo, hi, p);
        match first_match(s, lo, hi, p) {
            Some(row) => {
                let i = choose|i: int|
                    0 <= i < s.skip(1).len() && s.skip(1)[i] == row && row_matches(row, lo, hi, p);
                assert(s[i + 1] == row);
            },
            None => {},
        }
    }
}

} // verus!
