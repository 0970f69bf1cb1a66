//! Investment return and return-curve computation for one account.
//!
//! The caller hands in the account's chronological investment records —
//! (date, total value, net transfer) — and the raw request text; the
//! engine resolves the window, picks begin/end snapshots, derives the cash
//! flows strictly inside the bracket, and runs the Modified Dietz
//! calculator. The curve builder replays the same calculation anchored at
//! the window's begin snapshot for every candidate date.

use vstd::prelude::*;

use crate::date::Date;
use crate::dietz::{
    abs_int, calculate_modified_dietz, dietz_annualized_defined, dietz_profit, dietz_return_rate,
    dietz_wc_den, dietz_wc_num, flow_details, flows_in_window, money_bounded, round_div_half_away,
    sum_abs_flows, sum_flows, total_bounded, DietzNote, ModifiedDietzCalc, Ratio, TransferRow,
    MAX_MONEY_CENTS,
};
use crate::error::EngineError;
use crate::text::{contains_seq, lower_of, trim_of};
use crate::picker::{
    begin_snapshot_spec, end_snapshot_spec, lemma_first_match_in_series,
    lemma_last_match_in_series, select_begin_snapshot, select_end_snapshot, SnapshotRow,
};
use crate::window::{resolve_window, resolve_window_spec, Window};

verus! {

/// One stored investment record: a dated observation of the account's
/// total value plus the net external transfer attributed to that date.
#[derive(Clone, Copy, Debug, PartialEq, Eq, Structural)]
pub struct InvestmentRecordRow {
    pub snapshot_date: Date,
    pub total_assets_cents: i64,
    pub transfer_amount_cents: i64,
}

pub open spec fn sum_abs_transfers(rs: Seq<InvestmentRecordRow>) -> int
    decreases rs.len(),
{
    if rs.len() == 0 {
        0
    } else {
        sum_abs_transfers(rs.drop_last()) + abs_int(rs.last().transfer_amount_cents as int)
    }
}

/// A usable record series: dates well formed and strictly increasing (at
/// most one record per date), values in the money range, and total
/// absolute transfers small enough for exact arithmetic.
pub open spec fn records_wf(rs: Seq<InvestmentRecordRow>) -> bool {
    &&& forall|i: int|
        0 <= i < rs.len() ==> (#[trigger] rs[i]).snapshot_date.wf() && money_bounded(
            rs[i].total_assets_cents as int,
        )
    &&& forall|i: int, j: int|
        0 <= i < j < rs.len() ==> (#[trigger] rs[i]).snapshot_date.days
            < (#[trigger] rs[j]).snapshot_date.days
    &&& sum_abs_transfers(rs) <= MAX_MONEY_CENTS
}

/// The (date, value) view of a record series, as the picker sees it.
pub open spec fn snapshot_view(rs: Seq<InvestmentRecordRow>) -> Seq<SnapshotRow> {
    rs.map_values(
        |r: InvestmentRecordRow|
            SnapshotRow { snapshot_date: r.snapshot_date, total_assets_cents: r.total_assets_cents },
    )
}

/// The nonzero transfers with `lo < date <= hi`, in series order.
pub open spec fn flows_between(rs: Seq<InvestmentRecordRow>, lo: int, hi: int) -> Seq<TransferRow>
    decreases rs.len(),
{
    if rs.len() == 0 {
        Seq::empty()
    } else {
        let rest = flows_between(rs.drop_last(), lo, hi);
        let r = rs.last();
        if lo < r.snapshot_date.days <= hi && r.transfer_amount_cents != 0 {
            rest.push(
                TransferRow {
                    snapshot_date: r.snapshot_date,
                    transfer_amount_cents: r.transfer_amount_cents,
                },
            )
        } else {
            rest
        }
    }
}

proof fn lemma_flows_between_ok(rs: Seq<InvestmentRecordRow>, lo: int, hi: int)
    requires
        forall|i: int| 0 <= i < rs.len() ==> (#[trigger] rs[i]).snapshot_date.wf(),
    ensures
        sum_abs_flows(flows_between(rs, lo, hi)) <= sum_abs_transfers(rs),
        flows_in_window(flows_between(rs, lo, hi), lo, hi),
    decreases rs.len(),
{
    if rs.len() > 0 {
        let rest = rs.drop_last();
        assert(forall|i: int| 0 <= i < rest.len() ==> (#[trigger] rest[i]).snapshot_date.wf()) by {
            assert(forall|i: int| 0 <= i < rest.len() ==> rest[i] == rs[i]);
        }
        lemma_flows_between_ok(rest, lo, hi);
        let fb = flows_between(rs, lo, hi);
        let fbr = flows_between(rest, lo, hi);
        let r = rs.last();
        if lo < r.snapshot_date.days <= hi && r.transfer_amount_cents != 0 {
            assert(fb == fbr.push(
                TransferRow {
                    snapshot_date: r.snapshot_date,
                    transfer_amount_cents: r.transfer_amount_cents,
                },
            ));
            assert(fb.drop_last() == fbr);
            assert(forall|i: int|
                0 <= i < fb.len() ==> (#[trigger] fb[i]).snapshot_date.wf() && lo
                    < fb[i].snapshot_date.days <= hi) by {
                assert(forall|i: int| 0 <= i < fbr.len() ==> fb[i] == fbr[i]);
                assert(fb[fb.len() - 1].snapshot_date == r.snapshot_date);
            }
        } else {
            assert(sum_abs_transfers(rs) == sum_abs_transfers(rest) + abs_int(
                r.transfer_amount_cents as int,
            ));
        }
    }
}

fn exec_snapshot_view(records: &Vec<InvestmentRecordRow>) -> (r: Vec<SnapshotRow>)
    ensures
        r@ == snapshot_view(records@),
{
    let mut out: Vec<SnapshotRow> = Vec::new();
    let mut i: usize = 0;
    proof {
        assert(out@ =~= snapshot_view(records@.take(0)));
    }
    while i < records.len()
        invariant
            i <= records@.len(),
            out@ == snapshot_view(records@.take(i as int)),
        decreases records@.len() - i,
    {
        let rec = records[i];
        out.push(
            SnapshotRow {
                snapshot_date: rec.snapshot_date,
                total_assets_cents: rec.total_assets_cents,
            },
        );
        i += 1;
        proof {
            assert(out@ =~= snapshot_view(records@.take(i as int)));
        }
    }
    proof {
        assert(records@.take(records@.len() as int) =~= records@);
    }
    out
}

fn exec_flows_between(records: &Vec<InvestmentRecordRow>, lo: Date, hi: Date) -> (r: Vec<
    TransferRow,
>)
    ensures
        r@ == flows_between(records@, lo.days as int, hi.days as int),
{
    let mut out: Vec<TransferRow> = Vec::new();
    let mut i: usize = 0;
    proof {
        assert(flows_between(records@.take(0), lo.days as int, hi.days as int) =~= Seq::<
            TransferRow,
        >::empty());
    }
    while i < records.len()
        invariant
            i <= records@.len(),
            out@ == flows_between(records@.take(i as int), lo.days as int, hi.days as int),
        decreases records@.len() - i,
    {
        let rec = records[i];
        proof {
            assert(records@.take(i as int + 1).drop_last() =~= records@.take(i as int));
            assert(records@.take(i as int + 1).last() == records@[i as int]);
        }
        if lo.days < rec.snapshot_date.days && rec.snapshot_date.days <= hi.days
            && rec.transfer_amount_cents != 0 {
            out.push(
                TransferRow {
                    snapshot_date: rec.snapshot_date,
                    transfer_amount_cents: rec.transfer_amount_cents,
                },
            );
        }
        i += 1;
    }
    proof {
        assert(records@.take(records@.len() as int) =~= records@);
    }
    out
}

/// All bundled facts the Dietz calculator guarantees about a result.
pub open spec fn dietz_fields_ok(
    c: ModifiedDietzCalc,
    begin_day: int,
    end_day: int,
    begin_value: int,
    end_value: int,
    fl: Seq<TransferRow>,
) -> bool {
    &&& c.interval_days == end_day - begin_day
    &&& c.net_flow_cents == sum_flows(fl)
    &&& c.profit_cents == dietz_profit(begin_value, end_value, fl)
    &&& c.weighted_capital.num == dietz_wc_num(begin_value, fl, begin_day, end_day)
    &&& c.weighted_capital.den == dietz_wc_den(begin_day, end_day)
    &&& c.weighted_capital_cents == round_div_half_away(
        c.weighted_capital.num as int,
        c.weighted_capital.den as int,
    )
    &&& c.return_rate == dietz_return_rate(begin_value, end_value, fl, begin_day, end_day)
    &&& c.annualized_defined == dietz_annualized_defined(
        begin_value,
        end_value,
        fl,
        begin_day,
        end_day,
    )
    &&& c.note == if dietz_wc_num(begin_value, fl, begin_day, end_day) <= 0 {
        DietzNote::NonPositiveWeightedCapital
    } else {
        DietzNote::Clear
    }
    &&& c.cash_flows@ == flow_details(fl, end_day, end_day - begin_day)
}

/// The full result of a single-account return request.
#[derive(Debug)]
pub struct InvestmentReturnResult {
    pub window: Window,
    pub begin_snapshot: SnapshotRow,
    pub end_snapshot: SnapshotRow,
    pub calc: ModifiedDietzCalc,
}

/// Compute the Modified Dietz return of one account over a requested
/// window.
///
/// Fails with `NoData` when the account has no records, when the window
/// resolver finds no data in range, or when no begin/end snapshot exists;
/// with `InsufficientData` when the selected snapshots do not bracket a
/// positive interval; and with `Validation` on malformed request text.
pub fn investment_return_for_account(
    records: &Vec<InvestmentRecordRow>,
    preset: &str,
    from_raw: &str,
    to_raw: &str,
) -> (r: Result<InvestmentReturnResult, EngineError>)
    requires
        records_wf(records@),
    ensures
        records@.len() == 0 ==> r == Err::<InvestmentReturnResult, EngineError>(
            EngineError::NoData,
        ),
        records@.len() > 0 ==> ({
            let earliest = records@[0].snapshot_date;
            let latest = records@[records@.len() - 1].snapshot_date;
            let sv = snapshot_view(records@);
            match resolve_window_spec(preset@, from_raw@, to_raw@, earliest, latest) {
                Err(e) => r == Err::<InvestmentReturnResult, EngineError>(e),
                Ok(w) => match begin_snapshot_spec(
                    sv,
                    w.effective_from.days as int,
                    w.effective_to.days as int,
                ) {
                    None => r == Err::<InvestmentReturnResult, EngineError>(EngineError::NoData),
                    Some(b) => match end_snapshot_spec(
                        sv,
                        b.snapshot_date.days as int,
                        w.effective_to.days as int,
                    ) {
                        None => r == Err::<InvestmentReturnResult, EngineError>(
                            EngineError::NoData,
                        ),
                        Some(en) => if b.snapshot_date.days >= en.snapshot_date.days {
                            r == Err::<InvestmentReturnResult, EngineError>(
                                EngineError::InsufficientData,
                            )
                        } else {
                            r matches Ok(out) && out.window == w && out.begin_snapshot == b
                                && out.end_snapshot == en && dietz_fields_ok(
                                out.calc,
                                b.snapshot_date.days as int,
                                en.snapshot_date.days as int,
                                b.total_assets_cents as int,
                                en.total_assets_cents as int,
                                flows_between(
                                    records@,
                                    b.snapshot_date.days as int,
                                    en.snapshot_date.days as int,
                                ),
                            )
                        },
                    },
                },
            }
        }),
{
    if records.len() == 0 {
        return Err(EngineError::NoData);
    }
    let earliest = records[0].snapshot_date;
    let latest = records[records.len() - 1].snapshot_date;
    let window = match resolve_window(preset, from_raw, to_raw, earliest, latest) {
        Ok(w) => w,
        Err(e) => {
            return Err(e);
        },
    };
    let series = exec_snapshot_view(records);
    let begin = match select_begin_snapshot(&series, window.effective_from, window.effective_to) {
        Some(b) => b,
        None => {
            return Err(EngineError::NoData);
        },
    };
    proof {
        lemma_last_match_in_series(series@, 0, window.effective_from.days as int, true);
        lemma_first_match_in_series(
            series@,
            window.effective_from.days as int,
            window.effective_to.days as int,
            true,
        );
        lemma_last_match_in_series(series@, 0, window.effective_from.days as int, false);
    }
    let end = match select_end_snapshot(&series, begin.snapshot_date, window.effective_to) {
        Some(en) => en,
        None => {
            return Err(EngineError::NoData);
        },
    };
    if begin.snapshot_date.days >= end.snapshot_date.days {
        return Err(EngineError::InsufficientData);
    }
    proof {
        lemma_last_match_in_series(
            series@,
            begin.snapshot_date.days as int,
            window.effective_to.days as int,
            true,
        );
        lemma_last_match_in_series(
            series@,
            begin.snapshot_date.days as int,
            window.effective_to.days as int,
            false,
        );
        lemma_flows_between_ok(
            records@,
            begin.snapshot_date.days as int,
            end.snapshot_date.days as int,
        );
    }
    let flows = exec_flows_between(records, begin.snapshot_date, end.snapshot_date);
    let calc = match calculate_modified_dietz(
        begin.snapshot_date,
        end.snapshot_date,
        begin.total_assets_cents,
        end.total_assets_cents,
        &flows,
        false,
    ) {
        Ok(c) => c,
        Err(_) => {
            proof {
                assert(false);
            }
            return Err(EngineError::InsufficientData);
        },
    };
    Ok(InvestmentReturnResult { window, begin_snapshot: begin, end_snapshot: end, calc })
}

/// The window/begin/end selection a return request resolves to, before
/// the Dietz arithmetic: the exact outcome ladder of
/// `investment_return_for_account`.
pub open spec fn return_selection(
    records: Seq<InvestmentRecordRow>,
    preset: Seq<char>,
    from_raw: Seq<char>,
    to_raw: Seq<char>,
) -> Result<(Window, SnapshotRow, SnapshotRow), EngineError> {
    if records.len() == 0 {
        Err(EngineError::NoData)
    } else {
        let earliest = records[0].snapshot_date;
        let latest = records[records.len() - 1].snapshot_date;
        let sv = snapshot_view(records);
        match resolve_window_spec(preset, from_raw, to_raw, earliest, latest) {
            Err(e) => Err(e),
            Ok(w) => match begin_snapshot_spec(
                sv,
                w.effective_from.days as int,
                w.effective_to.days as int,
            ) {
                None => Err(EngineError::NoData),
                Some(b) => match end_snapshot_spec(
                    sv,
                    b.snapshot_date.days as int,
                    w.effective_to.days as int,
                ) {
                    None => Err(EngineError::NoData),
                    Some(en) => if b.snapshot_date.days >= en.snapshot_date.days {
                        Err(EngineError::InsufficientData)
                    } else {
                        Ok((w, b, en))
                    },
                },
            },
        }
    }
}

/// One account handed to the multi-account listing.
pub struct AccountRecords {
    pub account_id: String,
    pub account_name: String,
    pub records: Vec<InvestmentRecordRow>,
}

/// One listing entry: the account's position in the input, its identity,
/// and its return computation's outcome.
pub struct AccountReturnEntry {
    pub index: usize,
    pub account_id: String,
    pub account_name: String,
    pub record_count: usize,
    pub outcome: Result<InvestmentReturnResult, EngineError>,
}

/// Whether an account passes a (lower-cased, trimmed) keyword filter: a
/// blank keyword passes everything, else the keyword must occur in the
/// lower-cased identifier or display name.
pub open spec fn passes_keyword(id: Seq<char>, name: Seq<char>, kw: Seq<char>) -> bool {
    kw.len() == 0 || contains_seq(lower_of(id), kw) || contains_seq(lower_of(name), kw)
}

/// How many of the first `i` accounts pass the keyword filter.
pub open spec fn passing_before(accounts: Seq<AccountRecords>, kw: Seq<char>, i: int) -> int
    decreases i,
{
    if i <= 0 {
        0
    } else {
        passing_before(accounts, kw, i - 1) + if passes_keyword(
            accounts[i - 1].account_id@,
            accounts[i - 1].account_name@,
            kw,
        ) {
            1int
        } else {
            0int
        }
    }
}

/// Everything the listing guarantees about one emitted entry.
pub open spec fn entry_ok(
    e: AccountReturnEntry,
    accounts: Seq<AccountRecords>,
    preset: Seq<char>,
    from_raw: Seq<char>,
    to_raw: Seq<char>,
    kw: Seq<char>,
    limit: int,
) -> bool {
    &&& e.index < accounts.len()
    &&& e.account_id@ == accounts[e.index as int].account_id@
    &&& e.account_name@ == accounts[e.index as int].account_name@
    &&& e.record_count == accounts[e.index as int].records@.len()
    &&& passes_keyword(e.account_id@, e.account_name@, kw)
    &&& passing_before(accounts, kw, e.index as int) < limit
    &&& match e.outcome {
        Err(err) => return_selection(accounts[e.index as int].records@, preset, from_raw, to_raw)
            == Err::<(Window, SnapshotRow, SnapshotRow), EngineError>(err),
        Ok(out) => return_selection(accounts[e.index as int].records@, preset, from_raw, to_raw)
            == Ok::<(Window, SnapshotRow, SnapshotRow), EngineError>(
            (out.window, out.begin_snapshot, out.end_snapshot),
        ) && dietz_fields_ok(
            out.calc,
            out.begin_snapshot.snapshot_date.days as int,
            out.end_snapshot.snapshot_date.days as int,
            out.begin_snapshot.total_assets_cents as int,
            out.end_snapshot.total_assets_cents as int,
            flows_between(
                accounts[e.index as int].records@,
                out.begin_snapshot.snapshot_date.days as int,
                out.end_snapshot.snapshot_date.days as int,
            ),
        ),
    }
}

/// Compute per-account returns for a keyword-filtered, limit-capped list
/// of accounts. Entries come back in input order, each carrying its input
/// index and either the account's return result or the failure that
/// account resolved to. Ranking and averaging of the rows is presentation
/// work left to the caller.
#[verifier::loop_isolation(false)]
#[verifier::rlimit(100)]
pub fn investment_returns_for_accounts(
    accounts: &Vec<AccountRecords>,
    preset: &str,
    from_raw: &str,
    to_raw: &str,
    keyword: &str,
    limit: usize,
) -> (r: Vec<AccountReturnEntry>)
    requires
        forall|a: int| 0 <= a < accounts@.len() ==> records_wf((#[trigger] accounts@[a]).records@),
        limit >= 1,
    ensures
        ({
            let kw = lower_of(trim_of(keyword@));
            &&& (forall|k: int, l: int|
                0 <= k < l < r@.len() ==> (#[trigger] r@[k]).index < (#[trigger] r@[l]).index)
            &&& (forall|k: int|
                0 <= k < r@.len() ==> entry_ok(
                    #[trigger] r@[k],
                    accounts@,
                    preset@,
                    from_raw@,
                    to_raw@,
                    kw,
                    limit as int,
                ))
            &&& (forall|a: int|
                0 <= a < accounts@.len() ==> ((passes_keyword(
                    (#[trigger] accounts@[a]).account_id@,
                    accounts@[a].account_name@,
                    kw,
                ) && passing_before(accounts@, kw, a) < limit) <==> (exists|k: int|
                    0 <= k < r@.len() && (#[trigger] r@[k]).index == a)))
        }),
{
    let kw_chars = crate::text::lower_chars(&crate::text::trim_chars(&crate::text::str_chars(keyword)));
    let ghost kw = lower_of(trim_of(keyword@));
    proof {
        assert(kw_chars@ == kw);
    }
    let mut out: Vec<AccountReturnEntry> = Vec::new();
    let mut taken: usize = 0;
    let mut a: usize = 0;
    while a < accounts.len()
        invariant
            a <= accounts@.len(),
            kw_chars@ == kw,
            kw == lower_of(trim_of(keyword@)),
            limit >= 1,
            forall|x: int|
                0 <= x < accounts@.len() ==> records_wf((#[trigger] accounts@[x]).records@),
            taken == (if passing_before(accounts@, kw, a as int) <= limit {
                passing_before(accounts@, kw, a as int)
            } else {
                limit as int
            }),
            forall|k: int, l: int|
                0 <= k < l < out@.len() ==> (#[trigger] out@[k]).index < (#[trigger] out@[l]).index,
            forall|k: int| 0 <= k < out@.len() ==> (#[trigger] out@[k]).index < a,
            forall|k: int|
                0 <= k < out@.len() ==> entry_ok(
                    #[trigger] out@[k],
                    accounts@,
                    preset@,
                    from_raw@,
                    to_raw@,
                    kw,
                    limit as int,
                ),
            forall|x: int|
                0 <= x < a ==> ((passes_keyword(
                    (#[trigger] accounts@[x]).account_id@,
                    accounts@[x].account_name@,
                    kw,
                ) && passing_before(accounts@, kw, x) < limit) <==> (exists|k: int|
                    0 <= k < out@.len() && (#[trigger] out@[k]).index == x)),
        decreases accounts@.len() - a,
    {
        let acct = &accounts[a];
        let id_low = crate::text::lower_chars(&crate::text::str_chars(acct.account_id.as_str()));
        let name_low = crate::text::lower_chars(
            &crate::text::str_chars(acct.account_name.as_str()),
        );
        let passes = kw_chars.len() == 0 || crate::text::chars_contains(&id_low, &kw_chars)
            || crate::text::chars_contains(&name_low, &kw_chars);
        proof {
            assert(passes == passes_keyword(
                accounts@[a as int].account_id@,
                accounts@[a as int].account_name@,
                kw,
            ));
        }
        if passes && taken < limit {
            let outcome = match investment_return_for_account(
                &acct.records,
                preset,
                from_raw,
                to_raw,
            ) {
                Ok(res) => Ok(res),
                Err(e) => Err(e),
            };
            let entry = AccountReturnEntry {
                index: a,
                account_id: acct.account_id.clone(),
                account_name: acct.account_name.clone(),
                record_count: acct.records.len(),
                outcome,
            };
            let ghost pre_out = out@;
            out.push(entry);
            proof {
                assert(out@.drop_last() =~= pre_out);
                assert(entry_ok(
                    out@[out@.len() - 1],
                    accounts@,
                    preset@,
                    from_raw@,
                    to_raw@,
                    kw,
                    limit as int,
                ));
            }
            taken = taken + 1;
        }
        a += 1;
        proof {
            assert(passing_before(accounts@, kw, a as int) == passing_before(
                accounts@,
                kw,
                a as int - 1,
            ) + if passes_keyword(
                accounts@[a as int - 1].account_id@,
                accounts@[a as int - 1].account_name@,
                kw,
            ) {
                1int
            } else {
                0int
            });
        }
    }
    out
}

/// One row of a return curve: the cumulative anchored Dietz metrics at a
/// candidate as-of date.
#[derive(Clone, Copy, Debug, PartialEq, Eq, Structural)]
pub struct CurvePoint {
    /// The candidate as-of date the row answers for.
    pub snapshot_date: Date,
    /// The date of the snapshot actually used (may lag the as-of date).
    pub effective_snapshot_date: Date,
    pub total_assets_cents: i64,
    /// Net transfer attributed to exactly the as-of date.
    pub transfer_amount_cents: i64,
    /// Profit of the anchored calculation: cumulative growth.
    pub cumulative_net_growth_cents: i64,
    pub cumulative_return_rate: Option<Ratio>,
}

/// Sum of the transfers attributed to exactly day `d`.
pub open spec fn sum_transfers_on(rs: Seq<InvestmentRecordRow>, d: int) -> int
    decreases rs.len(),
{
    if rs.len() == 0 {
        0
    } else {
        sum_transfers_on(rs.drop_last(), d) + if rs.last().snapshot_date.days == d {
            rs.last().transfer_amount_cents as int
        } else {
            0
        }
    }
}

proof fn lemma_sum_transfers_on_unique(rs: Seq<InvestmentRecordRow>, j: int)
    requires
        forall|a: int, b: int|
            0 <= a < b < rs.len() ==> (#[trigger] rs[a]).snapshot_date.days
                < (#[trigger] rs[b]).snapshot_date.days,
        0 <= j < rs.len(),
    ensures
        sum_transfers_on(rs, rs[j].snapshot_date.days as int) == rs[j].transfer_amount_cents,
    decreases rs.len(),
{
    let d = rs[j].snapshot_date.days as int;
    let rest = rs.drop_last();
    if j == rs.len() - 1 {
        lemma_sum_transfers_none(rest, d);
    } else {
        assert(forall|a: int, b: int|
            0 <= a < b < rest.len() ==> (#[trigger] rest[a]).snapshot_date.days
                < (#[trigger] rest[b]).snapshot_date.days) by {
            assert(forall|a: int| 0 <= a < rest.len() ==> rest[a] == rs[a]);
        }
        assert(rest[j] == rs[j]);
        lemma_sum_transfers_on_unique(rest, j);
        assert(rs.last().snapshot_date.days != d);
    }
}

proof fn lemma_sum_transfers_none(rs: Seq<InvestmentRecordRow>, d: int)
    requires
        forall|i: int| 0 <= i < rs.len() ==> (#[trigger] rs[i]).snapshot_date.days != d,
    ensures
        sum_transfers_on(rs, d) == 0,
    decreases rs.len(),
{
    if rs.len() > 0 {
        let rest = rs.drop_last();
        assert(forall|i: int|
            0 <= i < rest.len() ==> (#[trigger] rest[i]).snapshot_date.days != d) by {
            assert(forall|i: int| 0 <= i < rest.len() ==> rest[i] == rs[i]);
        }
        lemma_sum_transfers_none(rest, d);
    }
}

/// The curve row at candidate date `d`, anchored at `begin`; `None` when
/// no snapshot exists in `[begin, d]`.
pub open spec fn curve_point_spec(
    records: Seq<InvestmentRecordRow>,
    begin: SnapshotRow,
    d: int,
) -> Option<CurvePoint> {
    let sv = snapshot_view(records);
    match end_snapshot_spec(sv, begin.snapshot_date.days as int, d) {
        None => None,
        Some(pe) => {
            let fl = flows_between(
                records,
                begin.snapshot_date.days as int,
                pe.snapshot_date.days as int,
            );
            Some(
                CurvePoint {
                    snapshot_date: Date { days: d as i64 },
                    effective_snapshot_date: pe.snapshot_date,
                    total_assets_cents: pe.total_assets_cents,
                    transfer_amount_cents: sum_transfers_on(records, d) as i64,
                    cumulative_net_growth_cents: dietz_profit(
                        begin.total_assets_cents as int,
                        pe.total_assets_cents as int,
                        fl,
                    ) as i64,
                    cumulative_return_rate: dietz_return_rate(
                        begin.total_assets_cents as int,
                        pe.total_assets_cents as int,
                        fl,
                        begin.snapshot_date.days as int,
                        pe.snapshot_date.days as int,
                    ),
                },
            )
        },
    }
}

/// The record dates inside `[lo, hi]`, in series order.
pub open spec fn dates_between(rs: Seq<InvestmentRecordRow>, lo: int, hi: int) -> Seq<Date>
    decreases rs.len(),
{
    if rs.len() == 0 {
        Seq::empty()
    } else {
        let rest = dates_between(rs.drop_last(), lo, hi);
        if lo <= rs.last().snapshot_date.days <= hi {
            rest.push(rs.last().snapshot_date)
        } else {
            rest
        }
    }
}

/// The curve rows for a candidate date list, skipping dates with no
/// usable snapshot.
pub open spec fn curve_rows_spec(
    records: Seq<InvestmentRecordRow>,
    begin: SnapshotRow,
    cands: Seq<Date>,
) -> Seq<CurvePoint>
    decreases cands.len(),
{
    if cands.len() == 0 {
        Seq::empty()
    } else {
        let rest = curve_rows_spec(records, begin, cands.drop_last());
        match curve_point_spec(records, begin, cands.last().days as int) {
            None => rest,
            Some(p) => rest.push(p),
        }
    }
}

/// Series summary, derived only from the first and last emitted rows.
#[derive(Clone, Copy, Debug, PartialEq, Eq, Structural)]
pub struct CurveSummary {
    pub count: usize,
    pub start_assets_cents: i64,
    pub end_assets_cents: i64,
    pub change_cents: i64,
    /// `change / start`, defined only when the start value is positive.
    pub change_rate: Option<Ratio>,
    pub end_net_growth_cents: i64,
    pub end_cumulative_return_rate: Option<Ratio>,
}

pub open spec fn curve_summary_spec(rows: Seq<CurvePoint>) -> CurveSummary {
    if rows.len() == 0 {
        CurveSummary {
            count: 0,
            start_assets_cents: 0,
            end_assets_cents: 0,
            change_cents: 0,
            change_rate: None,
            end_net_growth_cents: 0,
            end_cumulative_return_rate: None,
        }
    } else {
        let first = rows[0];
        let last = rows.last();
        CurveSummary {
            count: rows.len() as usize,
            start_assets_cents: first.total_assets_cents,
            end_assets_cents: last.total_assets_cents,
            change_cents: (last.total_assets_cents - first.total_assets_cents) as i64,
            change_rate: if first.total_assets_cents > 0 {
                Some(
                    Ratio {
                        num: (last.total_assets_cents - first.total_assets_cents) as i128,
                        den: first.total_assets_cents as i128,
                    },
                )
            } else {
                None
            },
            end_net_growth_cents: last.cumulative_net_growth_cents,
            end_cumulative_return_rate: last.cumulative_return_rate,
        }
    }
}

/// The full result of a single-account curve request. An empty `rows` list
/// (no usable candidate) is a normal result, not an error.
#[derive(Debug)]
pub struct InvestmentCurveResult {
    pub window: Window,
    pub begin_snapshot: SnapshotRow,
    pub final_end_snapshot: SnapshotRow,
    pub rows: Vec<CurvePoint>,
    pub summary: CurveSummary,
}

/// Build the cumulative return curve of one account over a requested
/// window: one row per candidate date (every record date between the begin
/// snapshot and the final end snapshot), each computed by the Modified
/// Dietz calculator anchored at the begin snapshot, with the zero-interval
/// flag set so the first point yields a defined zero return.
pub fn investment_curve_for_account(
    records: &Vec<InvestmentRecordRow>,
    preset: &str,
    from_raw: &str,
    to_raw: &str,
) -> (r: Result<InvestmentCurveResult, EngineError>)
    requires
        records_wf(records@),
    ensures
        records@.len() == 0 ==> r == Err::<InvestmentCurveResult, EngineError>(EngineError::NoData),
        records@.len() > 0 ==> ({
            let earliest = records@[0].snapshot_date;
            let latest = records@[records@.len() - 1].snapshot_date;
            let sv = snapshot_view(records@);
            match resolve_window_spec(preset@, from_raw@, to_raw@, earliest, latest) {
                Err(e) => r == Err::<InvestmentCurveResult, EngineError>(e),
                Ok(w) => match begin_snapshot_spec(
                    sv,
                    w.effective_from.days as int,
                    w.effective_to.days as int,
                ) {
                    None => r == Err::<InvestmentCurveResult, EngineError>(EngineError::NoData),
                    Some(b) => match end_snapshot_spec(
                        sv,
                        b.snapshot_date.days as int,
                        w.effective_to.days as int,
                    ) {
                        None => r == Err::<InvestmentCurveResult, EngineError>(EngineError::NoData),
                        Some(en) => r matches Ok(out) && out.window == w && out.begin_snapshot == b
                            && out.final_end_snapshot == en && out.rows@ == curve_rows_spec(
                            records@,
                            b,
                            dates_between(
                                records@,
                                b.snapshot_date.days as int,
                                en.snapshot_date.days as int,
                            ),
                        ) && out.summary == curve_summary_spec(out.rows@),
                    },
                },
            }
        }),
{
    if records.len() == 0 {
        return Err(EngineError::NoData);
    }
    let earliest = records[0].snapshot_date;
    let latest = records[records.len() - 1].snapshot_date;
    let window = match resolve_window(preset, from_raw, to_raw, earliest, latest) {
        Ok(w) => w,
        Err(e) => {
            return Err(e);
        },
    };
    let series = exec_snapshot_view(records);
    let begin = match select_begin_snapshot(&series, window.effective_from, window.effective_to) {
        Some(b) => b,
        None => {
            return Err(EngineError::NoData);
        },
    };
    proof {
        lemma_last_match_in_series(series@, 0, window.effective_from.days as int, true);
        lemma_first_match_in_series(
            series@,
            window.effective_from.days as int,
            window.effective_to.days as int,
            true,
        );
        lemma_last_match_in_series(series@, 0, window.effective_from.days as int, false);
    }
    let final_end = match select_end_snapshot(&series, begin.snapshot_date, window.effective_to) {
        Some(en) => en,
        None => {
            return Err(EngineError::NoData);
        },
    };
    proof {
        lemma_last_match_in_series(
            series@,
            begin.snapshot_date.days as int,
            window.effective_to.days as int,
            true,
        );
        lemma_last_match_in_series(
            series@,
            begin.snapshot_date.days as int,
            window.effective_to.days as int,
            false,
        );
    }

    // Candidate dates: every record date in [begin, final end].
    let ghost cands_spec = dates_between(
        records@,
        begin.snapshot_date.days as int,
        final_end.snapshot_date.days as int,
    );
    let mut rows: Vec<CurvePoint> = Vec::new();
    let mut i: usize = 0;
    proof {
        assert(dates_between(records@.take(0), begin.snapshot_date.days as int,
            final_end.snapshot_date.days as int) =~= Seq::<Date>::empty());
        assert(curve_rows_spec(records@, begin, Seq::<Date>::empty()) =~= Seq::<
            CurvePoint,
        >::empty());
    }
    while i < records.len()
        invariant
            i <= records@.len(),
            records_wf(records@),
            series@ == snapshot_view(records@),
            begin.snapshot_date.wf(),
            final_end.snapshot_date.wf(),
            money_bounded(begin.total_assets_cents as int),
            rows@ == curve_rows_spec(
                records@,
                begin,
                dates_between(
                    records@.take(i as int),
                    begin.snapshot_date.days as int,
                    final_end.snapshot_date.days as int,
                ),
            ),
            forall|k: int|
                0 <= k < rows@.len() ==> money_bounded(
                    (#[trigger] rows@[k]).total_assets_cents as int,
                ),
        decreases records@.len() - i,
    {
        let rec = records[i];
        proof {
            assert(records@.take(i as int + 1).drop_last() =~= records@.take(i as int));
            assert(records@.take(i as int + 1).last() == records@[i as int]);
        }
        if begin.snapshot_date.days <= rec.snapshot_date.days && rec.snapshot_date.days
            <= final_end.snapshot_date.days {
            let ghost pre_cands = dates_between(
                records@.take(i as int),
                begin.snapshot_date.days as int,
                final_end.snapshot_date.days as int,
            );
            let ghost new_cands = dates_between(
                records@.take(i as int + 1),
                begin.snapshot_date.days as int,
                final_end.snapshot_date.days as int,
            );
            proof {
                assert(new_cands == pre_cands.push(rec.snapshot_date));
                assert(new_cands.drop_last() =~= pre_cands);
            }
            let d = rec.snapshot_date;
            match select_end_snapshot(&series, begin.snapshot_date, d) {
                None => {},
                Some(pe) => {
                    proof {
                        lemma_last_match_in_series(
                            series@,
                            begin.snapshot_date.days as int,
                            d.days as int,
                            true,
                        );
                        lemma_last_match_in_series(
                            series@,
                            begin.snapshot_date.days as int,
                            d.days as int,
                            false,
                        );
                        lemma_flows_between_ok(
                            records@,
                            begin.snapshot_date.days as int,
                            pe.snapshot_date.days as int,
                        );
                        lemma_sum_transfers_on_unique(records@, i as int);
                    }
                    let flows = exec_flows_between(records, begin.snapshot_date, pe.snapshot_date);
                    match calculate_modified_dietz(
                        begin.snapshot_date,
                        pe.snapshot_date,
                        begin.total_assets_cents,
                        pe.total_assets_cents,
                        &flows,
                        true,
                    ) {
                        Ok(calc) => {
                            rows.push(
                                CurvePoint {
                                    snapshot_date: d,
                                    effective_snapshot_date: pe.snapshot_date,
                                    total_assets_cents: pe.total_assets_cents,
                                    transfer_amount_cents: rec.transfer_amount_cents,
                                    cumulative_net_growth_cents: calc.profit_cents,
                                    cumulative_return_rate: calc.return_rate,
                                },
                            );
                        },
                        Err(_) => {
                            proof {
                                assert(false);
                            }
                        },
                    }
                },
            }
        }
        i += 1;
    }
    proof {
        assert(records@.take(records@.len() as int) =~= records@);
    }

    let summary = if rows.len() == 0 {
        CurveSummary {
            count: 0,
            start_assets_cents: 0,
            end_assets_cents: 0,
            change_cents: 0,
            change_rate: None,
            end_net_growth_cents: 0,
            end_cumulative_return_rate: None,
        }
    } else {
        let first = rows[0];
        let last = rows[rows.len() - 1];
        CurveSummary {
            count: rows.len(),
            start_assets_cents: first.total_assets_cents,
            end_assets_cents: last.total_assets_cents,
            change_cents: last.total_assets_cents - first.total_assets_cents,
            change_rate: if first.total_assets_cents > 0 {
                Some(
                    Ratio {
                        num: (last.total_assets_cents as i128) - (first.total_assets_cents as i128),
                        den: first.total_assets_cents as i128,
                    },
                )
            } else {
                None
            },
            end_net_growth_cents: last.cumulative_net_growth_cents,
            end_cumulative_return_rate: last.cumulative_return_rate,
        }
    };
    Ok(
        InvestmentCurveResult {
            window,
            begin_snapshot: begin,
            final_end_snapshot: final_end,
            rows,
            summary,
        },
    )
}

} // verus!
