//! Monthly budget items: the summary the budget module derives from them.

use vstd::prelude::*;

use crate::dietz::money_bounded;

verus! {

/// One stored monthly budget item.
pub struct MonthlyBudgetItemRow {
    pub id: String,
    pub name: String,
    pub monthly_amount_cents: i64,
    pub sort_order: i64,
    pub is_active: bool,
    pub is_builtin: bool,
    pub created_at: String,
    pub updated_at: String,
}

/// Item counts and the monthly/annual totals over the active items.
#[derive(Clone, Copy, Debug, PartialEq, Eq, Structural)]
pub struct BudgetItemsSummary {
    pub total_count: i64,
    pub active_count: i64,
    pub monthly_total_cents: i64,
    pub annual_total_cents: i64,
}

pub open spec fn sum_active_amounts(rows: Seq<MonthlyBudgetItemRow>) -> int
    decreases rows.len(),
{
    if rows.len() == 0 {
        0
    } else {
        sum_active_amounts(rows.drop_last()) + if rows.last().is_active {
            rows.last().monthly_amount_cents as int
        } else {
            0
        }
    }
}

pub open spec fn count_active(rows: Seq<MonthlyBudgetItemRow>) -> int
    decreases rows.len(),
{
    if rows.len() == 0 {
        0
    } else {
        count_active(rows.drop_last()) + if rows.last().is_active {
            1int
        } else {
            0int
        }
    }
}

proof fn lemma_sum_active_bound(rows: Seq<MonthlyBudgetItemRow>)
    requires
        forall|i: int|
            0 <= i < rows.len() ==> money_bounded((#[trigger] rows[i]).monthly_amount_cents as int),
    ensures
        -(rows.len() as int) * 1_000_000_000_000_000 <= sum_active_amounts(rows) <= (
        rows.len() as int) * 1_000_000_000_000_000,
        0 <= count_active(rows) <= rows.len(),
        rows.len() <= 500 ==> -500_000_000_000_000_000 <= sum_active_amounts(rows)
            <= 500_000_000_000_000_000,
    decreases rows.len(),
{
    if rows.len() > 0 {
        let rest = rows.drop_last();
        assert(forall|i: int|
            0 <= i < rest.len() ==> money_bounded(
                (#[trigger] rest[i]).monthly_amount_cents as int,
            )) by {
            assert(forall|i: int| 0 <= i < rest.len() ==> rest[i] == rows[i]);
        }
        lemma_sum_active_bound(rest);
        let n = rest.len() as int;
        assert((n + 1) * 1_000_000_000_000_000 == n * 1_000_000_000_000_000 + 1_000_000_000_000_000)
            by (nonlinear_arith);
    }
    let n = rows.len() as int;
    if n <= 500 {
        assert(n * 1_000_000_000_000_000 <= 500_000_000_000_000_000) by (nonlinear_arith)
            requires
                0 <= n <= 500,
        ;
    }
}

/// Summarize the budget items: counts, the active monthly total, and the
/// annual total as exactly twelve monthly totals.
pub fn summarize_monthly_budget_items(rows: &Vec<MonthlyBudgetItemRow>) -> (r: BudgetItemsSummary)
    requires
        rows@.len() <= 500,
        forall|i: int|
            0 <= i < rows@.len() ==> money_bounded(
                (#[trigger] rows@[i]).monthly_amount_cents as int,
            ),
    ensures
        r.total_count == rows@.len(),
        r.active_count == count_active(rows@),
        r.monthly_total_cents == sum_active_amounts(rows@),
        r.annual_total_cents == 12 * sum_active_amounts(rows@),
{
    let mut monthly: i64 = 0;
    let mut active: i64 = 0;
    let mut i: usize = 0;
    proof {
        assert(rows@.take(0) =~= Seq::<MonthlyBudgetItemRow>::empty());
    }
    while i < rows.len()
        invariant
            i <= rows@.len() <= 500,
            forall|j: int|
                0 <= j < rows@.len() ==> money_bounded(
                    (#[trigger] rows@[j]).monthly_amount_cents as int,
                ),
            monthly == sum_active_amounts(rows@.take(i as int)),
            active == count_active(rows@.take(i as int)),
        decreases rows@.len() - i,
    {
        proof {
            assert(rows@.take(i as int + 1).drop_last() =~= rows@.take(i as int));
            assert(rows@.take(i as int + 1).last() == rows@[i as int]);
            assert(forall|j: int|
                0 <= j < i ==> rows@.take(i as int)[j] == rows@[j]);
            assert(forall|j: int|
                0 <= j < i + 1 ==> rows@.take(i as int + 1)[j] == rows@[j]);
            lemma_sum_active_bound(rows@.take(i as int));
            lemma_sum_active_bound(rows@.take(i as int + 1));
        }
        if rows[i].is_active {
            monthly = monthly + rows[i].monthly_amount_cents;
            active = active + 1;
        }
        i += 1;
    }
    proof {
        assert(rows@.take(rows@.len() as int) =~= rows@);
        lemma_sum_active_bound(rows@);
    }
    BudgetItemsSummary {
        total_count: rows.len() as i64,
        active_count: active,
        monthly_total_cents: monthly,
        annual_total_cents: 12 * monthly,
    }
}

} // verus!
