//! The Modified Dietz return calculator.
//!
//! Given begin/end values and the dated net cash flows strictly inside the
//! window, the calculator produces profit, weighted capital, the simple
//! return rate and whether an annualized rate is defined. Rates are exact
//! rationals over integer cents — `profit / weighted_capital` with the
//! weighted capital kept as `(numerator, interval)` — so no floating point
//! enters the engine and every result is reproducible.

use vstd::prelude::*;

use crate::date::{Date, valid_day_number};
use crate::error::EngineError;

verus! {

/// Upper bound on any single monetary value the engine accepts, and on the
/// total absolute cash flow of one calculation: one quadrillion cents.
/// Keeps every intermediate product inside `i128` and every sum in `i64`.
pub const MAX_MONEY_CENTS: i64 = 1_000_000_000_000_000;

pub open spec fn abs_int(x: int) -> int {
    if x < 0 {
        -x
    } else {
        x
    }
}

/// An exact non-negative-denominator rational.
#[derive(Clone, Copy, Debug, PartialEq, Eq, Structural)]
pub struct Ratio {
    pub num: i128,
    pub den: i128,
}

impl Ratio {
    pub open spec fn wf(self) -> bool {
        self.den > 0
    }

    /// This ratio equals the fraction `n / d` (cross multiplication).
    pub open spec fn eq_frac(self, n: int, d: int) -> bool {
        self.num * d == n * self.den
    }

    /// `1 + self > 0`, the annualization-base condition.
    pub open spec fn one_plus_positive(self) -> bool {
        self.num + self.den > 0
    }

    pub open spec fn is_zero(self) -> bool {
        self.num == 0
    }
}

/// One dated external cash movement attributed to a snapshot date.
#[derive(Clone, Copy, Debug, PartialEq, Eq, Structural)]
pub struct TransferRow {
    pub snapshot_date: Date,
    pub transfer_amount_cents: i64,
}

/// A cash flow echoed back to the caller with its Dietz weight.
#[derive(Clone, Copy, Debug, PartialEq, Eq, Structural)]
pub struct CashFlowItem {
    pub snapshot_date: Date,
    pub transfer_amount_cents: i64,
    pub weight: Ratio,
}

pub open spec fn sum_flows(flows: Seq<TransferRow>) -> int
    decreases flows.len(),
{
    if flows.len() == 0 {
        0
    } else {
        sum_flows(flows.drop_last()) + flows.last().transfer_amount_cents
    }
}

pub open spec fn sum_abs_flows(flows: Seq<TransferRow>) -> int
    decreases flows.len(),
{
    if flows.len() == 0 {
        0
    } else {
        sum_abs_flows(flows.drop_last()) + abs_int(flows.last().transfer_amount_cents as int)
    }
}

/// Sum of `amount * (end - date)` over the flows: the flow-weighted capital
/// contribution multiplied by the interval length.
pub open spec fn weighted_flows_times_interval(flows: Seq<TransferRow>, end_day: int) -> int
    decreases flows.len(),
{
    if flows.len() == 0 {
        0
    } else {
        weighted_flows_times_interval(flows.drop_last(), end_day) + flows.last(
        ).transfer_amount_cents * (end_day - flows.last().snapshot_date.days)
    }
}

/// Numerator of the weighted capital over denominator `dietz_wc_den`:
/// `begin + sum(flow * (end - flow_date) / interval)` as one fraction.
pub open spec fn dietz_wc_num(
    begin_value: int,
    flows: Seq<TransferRow>,
    begin_day: int,
    end_day: int,
) -> int {
    if end_day - begin_day > 0 {
        begin_value * (end_day - begin_day) + weighted_flows_times_interval(flows, end_day)
    } else {
        begin_value
    }
}

pub open spec fn dietz_wc_den(begin_day: int, end_day: int) -> int {
    if end_day - begin_day > 0 {
        end_day - begin_day
    } else {
        1
    }
}

pub open spec fn dietz_profit(begin_value: int, end_value: int, flows: Seq<TransferRow>) -> int {
    end_value - begin_value - sum_flows(flows)
}

/// The return rate: `profit / weighted_capital`, undefined when the
/// weighted capital is not positive, exactly zero on a zero interval.
pub open spec fn dietz_return_rate(
    begin_value: int,
    end_value: int,
    flows: Seq<TransferRow>,
    begin_day: int,
    end_day: int,
) -> Option<Ratio> {
    let wc_num = dietz_wc_num(begin_value, flows, begin_day, end_day);
    if wc_num <= 0 {
        None
    } else if end_day - begin_day == 0 {
        Some(Ratio { num: 0, den: 1 })
    } else {
        Some(
            Ratio {
                num: (dietz_profit(begin_value, end_value, flows) * (end_day - begin_day)) as i128,
                den: wc_num as i128,
            },
        )
    }
}

/// An annualized rate `(1 + r)^(365/interval) - 1` is defined exactly when
/// the rate itself is defined, the interval is positive, and the base
/// `1 + r` is positive.
pub open spec fn dietz_annualized_defined(
    begin_value: int,
    end_value: int,
    flows: Seq<TransferRow>,
    begin_day: int,
    end_day: int,
) -> bool {
    let wc_num = dietz_wc_num(begin_value, flows, begin_day, end_day);
    wc_num > 0 && end_day - begin_day > 0 && dietz_profit(begin_value, end_value, flows) * (end_day
        - begin_day) + wc_num > 0
}

/// Rounding of `n / d` (for `d > 0`) to the nearest integer, ties away
/// from zero.
pub open spec fn round_div_half_away(n: int, d: int) -> int {
    if n >= 0 {
        (2 * n + d) / (2 * d)
    } else {
        -((2 * (-n) + d) / (2 * d))
    }
}

#[derive(Clone, Copy, Debug, PartialEq, Eq, Structural)]
pub enum DietzNote {
    /// No degeneracy: the rate was computed.
    Clear,
    /// The weighted capital was not positive; the rate is undefined. This
    /// is a normal portfolio state (e.g. a full withdrawal), not an error.
    NonPositiveWeightedCapital,
}

impl DietzNote {
    pub fn text(&self) -> (r: String)
        ensures
            *self == DietzNote::Clear ==> r@ == ""@,
            *self == DietzNote::NonPositiveWeightedCapital ==> r@
                == "weighted capital <= 0, cannot compute a money-weighted return"@,
    {
        match self {
            DietzNote::Clear => String::from_str(""),
            DietzNote::NonPositiveWeightedCapital => String::from_str(
                "weighted capital <= 0, cannot compute a money-weighted return",
            ),
        }
    }
}

/// The full result of one Modified Dietz calculation.
#[derive(Debug)]
pub struct ModifiedDietzCalc {
    pub interval_days: i64,
    pub net_flow_cents: i64,
    pub profit_cents: i64,
    /// Weighted capital as an exact fraction of cents.
    pub weighted_capital: Ratio,
    /// Weighted capital rounded to whole cents, ties away from zero.
    pub weighted_capital_cents: i64,
    /// `profit / weighted_capital`, or `None` when the weighted capital is
    /// not positive.
    pub return_rate: Option<Ratio>,
    /// Whether `(1 + return_rate)^(365/interval_days) - 1` is defined.
    pub annualized_defined: bool,
    pub note: DietzNote,
    /// The nonzero flows, in input order, each with its Dietz weight.
    pub cash_flows: Vec<CashFlowItem>,
}

/// The per-flow detail rows: nonzero flows with weight
/// `(end - date) / interval`, or weight zero on a zero interval.
pub open spec fn flow_details(flows: Seq<TransferRow>, end_day: int, ivl: int) -> Seq<CashFlowItem>
    decreases flows.len(),
{
    if flows.len() == 0 {
        Seq::empty()
    } else {
        let rest = flow_details(flows.drop_last(), end_day, ivl);
        let f = flows.last();
        if f.transfer_amount_cents == 0 {
            rest
        } else {
            rest.push(
                CashFlowItem {
                    snapshot_date: f.snapshot_date,
                    transfer_amount_cents: f.transfer_amount_cents,
                    weight: if ivl > 0 {
                        Ratio { num: (end_day - f.snapshot_date.days) as i128, den: ivl as i128 }
                    } else {
                        Ratio { num: 0, den: 1 }
                    },
                },
            )
        }
    }
}

pub open spec fn money_bounded(v: int) -> bool {
    -MAX_MONEY_CENTS <= v <= MAX_MONEY_CENTS
}

/// Bound on an aggregated (multi-entity) value: up to 1000 entities, each
/// inside the money range.
pub open spec fn total_bounded(v: int) -> bool {
    -1_000_000_000_000_000_000 <= v <= 1_000_000_000_000_000_000
}

/// All flow dates lie strictly inside `(begin, end]` and are well formed.
pub open spec fn flows_in_window(flows: Seq<TransferRow>, begin_day: int, end_day: int) -> bool {
    forall|i: int|
        0 <= i < flows.len() ==> (#[trigger] flows[i]).snapshot_date.wf() && begin_day < flows[i].snapshot_date.days
            <= end_day
}

proof fn lemma_sum_abs_nonneg(flows: Seq<TransferRow>)
    ensures
        sum_abs_flows(flows) >= 0,
    decreases flows.len(),
{
    if flows.len() > 0 {
        lemma_sum_abs_nonneg(flows.drop_last());
    }
}

proof fn lemma_sum_abs_prefix(flows: Seq<TransferRow>, i: int)
    requires
        0 <= i <= flows.len(),
    ensures
        sum_abs_flows(flows.take(i)) <= sum_abs_flows(flows),
    decreases flows.len() - i,
{
    if i == flows.len() {
        assert(flows.take(i) =~= flows);
    } else {
        lemma_sum_abs_prefix(flows, i + 1);
        assert(flows.take(i + 1).drop_last() =~= flows.take(i));
        assert(sum_abs_flows(flows.take(i + 1)) == sum_abs_flows(flows.take(i)) + abs_int(
            flows[i].transfer_amount_cents as int,
        ));
    }
}

proof fn lemma_wfti_abs(flows: Seq<TransferRow>, begin_day: int, end_day: int)
    requires
        flows_in_window(flows, begin_day, end_day),
    ensures
        abs_int(weighted_flows_times_interval(flows, end_day)) <= sum_abs_flows(flows) * (end_day
            - begin_day),
    decreases flows.len(),
{
    if flows.len() == 0 {
    } else {
        let rest = flows.drop_last();
        assert(flows_in_window(rest, begin_day, end_day)) by {
            assert(forall|i: int| 0 <= i < rest.len() ==> rest[i] == flows[i]);
        }
        lemma_wfti_abs(rest, begin_day, end_day);
        let f = flows.last();
        let a = f.transfer_amount_cents as int;
        let w = end_day - f.snapshot_date.days;
        let ivl = end_day - begin_day;
        assert(0 <= w < ivl);
        assert(abs_int(a * w) <= abs_int(a) * ivl) by (nonlinear_arith)
            requires
                0 <= w < ivl,
        ;
        assert(sum_abs_flows(rest) * ivl + abs_int(a) * ivl == sum_abs_flows(flows) * ivl)
            by (nonlinear_arith)
            requires
                sum_abs_flows(rest) + abs_int(a) == sum_abs_flows(flows),
        ;
    }
}

proof fn lemma_all_zero_flows(flows: Seq<TransferRow>, end_day: int)
    requires
        forall|i: int| 0 <= i < flows.len() ==> (#[trigger] flows[i]).transfer_amount_cents == 0,
    ensures
        sum_flows(flows) == 0,
        weighted_flows_times_interval(flows, end_day) == 0,
    decreases flows.len(),
{
    if flows.len() > 0 {
        let rest = flows.drop_last();
        assert(forall|i: int|
            0 <= i < rest.len() ==> (#[trigger] rest[i]).transfer_amount_cents == 0) by {
            assert(forall|i: int| 0 <= i < rest.len() ==> rest[i] == flows[i]);
        }
        lemma_all_zero_flows(rest, end_day);
        assert(flows.last().transfer_amount_cents == 0);
    }
}

/// Law: with a zero net flow — no nonzero cash movement inside the window —
/// the Modified Dietz return collapses exactly to the simple return
/// `end_value / begin_value - 1`.
pub proof fn lemma_zero_flow_collapses_to_simple_return(
    begin_value: int,
    end_value: int,
    flows: Seq<TransferRow>,
    begin_day: int,
    end_day: int,
)
    requires
        valid_day_number(begin_day),
        valid_day_number(end_day),
        begin_day < end_day,
        0 < begin_value <= MAX_MONEY_CENTS,
        money_bounded(end_value),
        forall|i: int| 0 <= i < flows.len() ==> (#[trigger] flows[i]).transfer_amount_cents == 0,
    ensures
        dietz_return_rate(begin_value, end_value, flows, begin_day, end_day) matches Some(r)
            && r.wf() && r.eq_frac(end_value - begin_value, begin_value),
{
    lemma_all_zero_flows(flows, end_day);
    let ivl = end_day - begin_day;
    crate::date::lemma_days_before_year_bounds(10000);
    assert(0 < ivl <= 4_000_000);
    assert(0 < begin_value * ivl <= 4_000_000_000_000_000_000_000) by (nonlinear_arith)
        requires
            0 < begin_value <= 1_000_000_000_000_000,
            0 < ivl <= 4_000_000,
    ;
    let p = end_value - begin_value;
    assert(-16_000_000_000_000_000_000_000 <= p * ivl <= 16_000_000_000_000_000_000_000)
        by (nonlinear_arith)
        requires
            -4_000_000_000_000_000 <= p <= 4_000_000_000_000_000,
            0 < ivl <= 4_000_000,
    ;
    let r = dietz_return_rate(begin_value, end_value, flows, begin_day, end_day)->Some_0;
    assert(r.num == p * ivl && r.den == begin_value * ivl);
    assert(p * ivl * begin_value == p * (begin_value * ivl)) by (nonlinear_arith);
}

/// Law: with the zero-interval flag accepted and a positive begin value,
/// a zero-length interval yields a return rate of exactly zero, whatever
/// the values and flows.
pub proof fn lemma_zero_interval_zero_return(
    begin_value: int,
    end_value: int,
    flows: Seq<TransferRow>,
    day: int,
)
    requires
        begin_value > 0,
    ensures
        dietz_return_rate(begin_value, end_value, flows, day, day) == Some(
            Ratio { num: 0, den: 1 },
        ),
        dietz_return_rate(begin_value, end_value, flows, day, day)->Some_0.is_zero(),
{
}

/// Law: the annualized rate `(1 + r)^(365/interval) - 1` is defined exactly
/// when the return rate `r` is defined, the interval is positive, and the
/// annualization base `1 + r` is positive; otherwise it stays undefined.
pub proof fn lemma_annualized_defined_iff(
    begin_value: int,
    end_value: int,
    flows: Seq<TransferRow>,
    begin_day: int,
    end_day: int,
)
    requires
        valid_day_number(begin_day),
        valid_day_number(end_day),
        total_bounded(begin_value),
        total_bounded(end_value),
        sum_abs_flows(flows) <= MAX_MONEY_CENTS,
        flows_in_window(flows, begin_day, end_day),
    ensures
        dietz_annualized_defined(begin_value, end_value, flows, begin_day, end_day) <==> (
        dietz_return_rate(begin_value, end_value, flows, begin_day, end_day) matches Some(r)
            && end_day - begin_day > 0 && r.one_plus_positive()),
{
    let ivl = end_day - begin_day;
    let wc = dietz_wc_num(begin_value, flows, begin_day, end_day);
    let p = dietz_profit(begin_value, end_value, flows);
    if ivl > 0 && wc > 0 {
        crate::date::lemma_days_before_year_bounds(10000);
        lemma_wfti_abs(flows, begin_day, end_day);
        lemma_sum_abs_nonneg(flows);
        lemma_sum_flows_abs_bound(flows);
        assert(0 < ivl <= 4_000_000);
        assert(abs_int(begin_value * ivl) <= 4_000_000_000_000_000_000_000_000)
            by (nonlinear_arith)
            requires
                -1_000_000_000_000_000_000 <= begin_value <= 1_000_000_000_000_000_000,
                0 < ivl <= 4_000_000,
        ;
        assert(sum_abs_flows(flows) * ivl <= 4_000_000_000_000_000_000_000) by (nonlinear_arith)
            requires
                0 <= sum_abs_flows(flows) <= 1_000_000_000_000_000,
                0 < ivl <= 4_000_000,
        ;
        assert(-16_000_000_000_000_000_000_000_000 <= p * ivl <= 16_000_000_000_000_000_000_000_000)
            by (nonlinear_arith)
            requires
                -4_000_000_000_000_000_000 <= p <= 4_000_000_000_000_000_000,
                0 < ivl <= 4_000_000,
        ;
        let r = dietz_return_rate(begin_value, end_value, flows, begin_day, end_day)->Some_0;
        assert(r.num == p * ivl && r.den == wc);
    }
}

proof fn lemma_sum_flows_abs_bound(flows: Seq<TransferRow>)
    ensures
        abs_int(sum_flows(flows)) <= sum_abs_flows(flows),
    decreases flows.len(),
{
    if flows.len() > 0 {
        lemma_sum_flows_abs_bound(flows.drop_last());
    }
}

/// Compute a Modified Dietz return over `(begin_date, end_date]`.
///
/// Fails with `Validation` when the end precedes the begin, and with
/// `InsufficientData` on a zero-length interval unless the caller set
/// `allow_zero_interval` (the curve builder does, for its anchor point).
/// A non-positive weighted capital is not an error: the rate comes back
/// undefined with an explanatory note.
pub fn calculate_modified_dietz(
    begin_date: Date,
    end_date: Date,
    begin_assets_cents: i64,
    end_assets_cents: i64,
    flow_rows: &Vec<TransferRow>,
    allow_zero_interval: bool,
) -> (r: Result<ModifiedDietzCalc, EngineError>)
    requires
        begin_date.wf(),
        end_date.wf(),
        total_bounded(begin_assets_cents as int),
        total_bounded(end_assets_cents as int),
        sum_abs_flows(flow_rows@) <= MAX_MONEY_CENTS,
        flows_in_window(flow_rows@, begin_date.days as int, end_date.days as int),
    ensures
        r is Err <==> end_date.days < begin_date.days || (end_date.days == begin_date.days
            && !allow_zero_interval),
        r matches Err(e) ==> e == if end_date.days < begin_date.days {
            EngineError::Validation
        } else {
            EngineError::InsufficientData
        },
        r matches Ok(c) ==> ({
            let bd = begin_date.days as int;
            let ed = end_date.days as int;
            let fl = flow_rows@;
            &&& c.interval_days == ed - bd
            &&& c.net_flow_cents == sum_flows(fl)
            &&& c.profit_cents == dietz_profit(begin_assets_cents as int, end_assets_cents as int, fl)
            &&& c.weighted_capital.num == dietz_wc_num(begin_assets_cents as int, fl, bd, ed)
            &&& c.weighted_capital.den == dietz_wc_den(bd, ed)
            &&& c.weighted_capital_cents == round_div_half_away(
                c.weighted_capital.num as int,
                c.weighted_capital.den as int,
            )
            &&& c.return_rate == dietz_return_rate(
                begin_assets_cents as int,
                end_assets_cents as int,
                fl,
                bd,
                ed,
            )
            &&& c.annualized_defined == dietz_annualized_defined(
                begin_assets_cents as int,
                end_assets_cents as int,
                fl,
                bd,
                ed,
            )
            &&& c.note == if dietz_wc_num(begin_assets_cents as int, fl, bd, ed) <= 0 {
                DietzNote::NonPositiveWeightedCapital
            } else {
                DietzNote::Clear
            }
            &&& c.cash_flows@ == flow_details(fl, ed, ed - bd)
        }),
{
    if end_date.days < begin_date.days {
        return Err(EngineError::Validation);
    }
    let interval_days: i64 = end_date.days - begin_date.days;
    if interval_days == 0 && !allow_zero_interval {
        return Err(EngineError::InsufficientData);
    }
    let bd = begin_date.days;
    let ed = end_date.days;
    let ghost fl = flow_rows@;

    // One pass accumulates the flow sum, the weighted-flow numerator and
    // the per-flow detail rows.
    let mut net_flow: i64 = 0;
    let mut wfti: i128 = 0;
    let mut details: Vec<CashFlowItem> = Vec::new();
    let mut i: usize = 0;
    proof {
        lemma_sum_abs_nonneg(fl);
        assert(fl.take(0) =~= Seq::<TransferRow>::empty());
    }
    while i < flow_rows.len()
        invariant
            0 <= i <= fl.len(),
            fl == flow_rows@,
            begin_date.wf(),
            end_date.wf(),
            bd == begin_date.days,
            ed == end_date.days,
            bd <= ed,
            interval_days == ed - bd,
            sum_abs_flows(fl) <= MAX_MONEY_CENTS,
            flows_in_window(fl, bd as int, ed as int),
            net_flow == sum_flows(fl.take(i as int)),
            abs_int(net_flow as int) <= sum_abs_flows(fl.take(i as int)),
            wfti == weighted_flows_times_interval(fl.take(i as int), ed as int),
            abs_int(wfti as int) <= sum_abs_flows(fl.take(i as int)) * (ed - bd),
            details@ == flow_details(fl.take(i as int), ed as int, (ed - bd) as int),
        decreases fl.len() - i,
    {
        let f = flow_rows[i];
        proof {
            assert(fl[i as int] == f);
            lemma_sum_abs_prefix(fl, i as int);
            lemma_sum_abs_prefix(fl, i as int + 1);
            assert(fl.take(i as int + 1).drop_last() =~= fl.take(i as int));
            assert(fl.take(i as int + 1).last() == f);
            let sa = sum_abs_flows(fl.take(i as int));
            let sa1 = sum_abs_flows(fl.take(i as int + 1));
            assert(sa1 == sa + abs_int(f.transfer_amount_cents as int));
            let w = ed - f.snapshot_date.days;
            assert(0 <= w <= ed - bd);
            assert(abs_int(f.transfer_amount_cents as int * w) <= abs_int(
                f.transfer_amount_cents as int,
            ) * (ed - bd)) by (nonlinear_arith)
                requires
                    0 <= w <= ed - bd,
            ;
            assert(sa * (ed - bd) + abs_int(f.transfer_amount_cents as int) * (ed - bd) == sa1 * (
            ed - bd)) by (nonlinear_arith)
                requires
                    sa1 == sa + abs_int(f.transfer_amount_cents as int),
            ;
            assert(abs_int((ed - bd) as int) <= 4_000_000) by {
                crate::date::lemma_days_before_year_bounds(10000);
            }
            assert(sa1 * (ed - bd) <= MAX_MONEY_CENTS * 4_000_000) by (nonlinear_arith)
                requires
                    0 <= sa1 <= MAX_MONEY_CENTS,
                    0 <= ed - bd <= 4_000_000,
            ;
        }
        net_flow = net_flow + f.transfer_amount_cents;
        let weight_num: i64 = ed - f.snapshot_date.days;
        wfti = wfti + (f.transfer_amount_cents as i128) * (weight_num as i128);
        if f.transfer_amount_cents != 0 {
            let weight = if interval_days > 0 {
                Ratio { num: weight_num as i128, den: interval_days as i128 }
            } else {
                Ratio { num: 0, den: 1 }
            };
            details.push(
                CashFlowItem {
                    snapshot_date: f.snapshot_date,
                    transfer_amount_cents: f.transfer_amount_cents,
                    weight,
                },
            );
        }
        i += 1;
    }
    proof {
        assert(fl.take(fl.len() as int) =~= fl);
    }

    let profit: i64 = end_assets_cents - begin_assets_cents - net_flow;
    proof {
        crate::date::lemma_days_before_year_bounds(10000);
        lemma_sum_abs_nonneg(fl);
        let bv = begin_assets_cents as int;
        let ivl = interval_days as int;
        if interval_days > 0 {
            assert(-4_000_000_000_000_000_000_000_000 <= bv * ivl
                <= 4_000_000_000_000_000_000_000_000) by (nonlinear_arith)
                requires
                    -1_000_000_000_000_000_000 <= bv <= 1_000_000_000_000_000_000,
                    0 < ivl <= 4_000_000,
            ;
            assert(0 <= sum_abs_flows(fl) * ivl <= 4_000_000_000_000_000_000_000)
                by (nonlinear_arith)
                requires
                    0 <= sum_abs_flows(fl) <= 1_000_000_000_000_000,
                    0 < ivl <= 4_000_000,
            ;
        }
    }
    let wc_num: i128 = if interval_days > 0 {
        (begin_assets_cents as i128) * (interval_days as i128) + wfti
    } else {
        begin_assets_cents as i128
    };
    let wc_den: i128 = if interval_days > 0 {
        interval_days as i128
    } else {
        1
    };
    proof {
        let bv = begin_assets_cents as int;
        let ivl = interval_days as int;
        let w = wfti as int;
        if interval_days > 0 {
            assert(-(sum_abs_flows(fl) * ivl) <= w <= sum_abs_flows(fl) * ivl) by {
                assert(sum_abs_flows(fl) * (ed - bd) == sum_abs_flows(fl) * ivl);
            }
            assert(-2_000_000_000_000_000_000 * (wc_den as int) <= wc_num as int
                && wc_num as int <= 2_000_000_000_000_000_000 * (wc_den as int)) by (nonlinear_arith)
                requires
                    MAX_MONEY_CENTS == 1_000_000_000_000_000,
                    wc_num as int == bv * ivl + w,
                    wc_den as int == ivl,
                    -1_000_000_000_000_000_000 <= bv <= 1_000_000_000_000_000_000,
                    -(sum_abs_flows(fl) * ivl) <= w <= sum_abs_flows(fl) * ivl,
                    0 <= sum_abs_flows(fl) <= MAX_MONEY_CENTS,
                    0 < ivl,
            ;
        }
    }
    let weighted_capital = Ratio { num: wc_num, den: wc_den };
    let weighted_capital_cents = round_wc_cents(wc_num, wc_den);

    let (return_rate, annualized_defined, note) = if wc_num <= 0 {
        (None, false, DietzNote::NonPositiveWeightedCapital)
    } else if interval_days == 0 {
        (Some(Ratio { num: 0, den: 1 }), false, DietzNote::Clear)
    } else {
        proof {
            let p = profit as int;
            let ivl = interval_days as int;
            assert(-16_000_000_000_000_000_000_000_000 <= p * ivl
                && p * ivl <= 16_000_000_000_000_000_000_000_000) by (nonlinear_arith)
                requires
                    -4_000_000_000_000_000_000 <= p <= 4_000_000_000_000_000_000,
                    0 <= ivl <= 4_000_000,
            ;
        }
        let rate_num: i128 = (profit as i128) * (interval_days as i128);
        let rate = Ratio { num: rate_num, den: wc_num };
        (Some(rate), rate_num + wc_num > 0, DietzNote::Clear)
    };

    Ok(
        ModifiedDietzCalc {
            interval_days,
            net_flow_cents: net_flow,
            profit_cents: profit,
            weighted_capital,
            weighted_capital_cents,
            return_rate,
            annualized_defined,
            note,
            cash_flows: details,
        },
    )
}

/// Round the weighted capital to whole cents, ties away from zero.
fn round_wc_cents(num: i128, den: i128) -> (r: i64)
    requires
        0 < den <= 4_000_000,
        -2_000_000_000_000_000_000 * (den as int) <= num as int,
        num as int <= 2_000_000_000_000_000_000 * (den as int),
    ensures
        r == round_div_half_away(num as int, den as int),
        -2_000_000_000_000_000_000 <= r <= 2_000_000_000_000_000_000,
{
    if num >= 0 {
        let q = (2 * num + den) / (2 * den);
        proof {
            assert(2 * (num as int) + (den as int) < 4_000_000_000_000_000_002 * (den as int));
            assert(4_000_000_000_000_000_002 * (den as int) == (2_000_000_000_000_000_000 + 1) * (
            2 * (den as int))) by (nonlinear_arith);
            lemma_div_bound(
                2 * num as int + den as int,
                2 * den as int,
                2_000_000_000_000_000_000,
            );
        }
        q as i64
    } else {
        let q = (2 * (-num) + den) / (2 * den);
        proof {
            assert(2 * (-num as int) + (den as int) < 4_000_000_000_000_000_002 * (den as int));
            assert(4_000_000_000_000_000_002 * (den as int) == (2_000_000_000_000_000_000 + 1) * (
            2 * (den as int))) by (nonlinear_arith);
            lemma_div_bound(
                2 * (-num as int) + den as int,
                2 * den as int,
                2_000_000_000_000_000_000,
            );
        }
        -(q as i64)
    }
}

/// For `0 <= n <= b * d + d/2` and positive `d`, `0 <= n / d <= b`.
proof fn lemma_div_bound(n: int, d: int, b: int)
    requires
        0 <= n,
        0 < d,
        0 <= b,
        n < (b + 1) * d,
    ensures
        0 <= n / d <= b,
{
    vstd::arithmetic::div_mod::lemma_div_pos_is_pos(n, d);
    assert(n < d * (b + 1)) by (nonlinear_arith)
        requires
            n < (b + 1) * d,
    ;
    vstd::arithmetic::div_mod::lemma_multiply_divide_lt(n, d, b + 1);
}

} // verus!
