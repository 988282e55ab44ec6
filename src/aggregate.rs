//! Totals, maxima and monthly spending over a set of transactions.
use crate::amount::{
    aligned_sum, amount_less_than, canon, lemma_canon_props, lemma_order_by_finest_scale,
    sum_amounts, sum_fits, Amount, MAX_SCALE,
};
use crate::calendar::Date;
use crate::statement::Transaction;
use vstd::prelude::*;

verus! {

/// Why an aggregate could not be given.
#[derive(Clone, Copy, Debug, PartialEq, Eq, Structural)]
pub enum AggregationError {
    /// The query has no answer on zero transactions.
    EmptyCollection,
    /// An exact sum does not fit the 128-bit working range.
    Overflow,
}

/// The amounts of `t`, in order.
pub open spec fn amounts_of(t: Seq<Transaction>) -> Seq<Amount> {
    t.map_values(|x: Transaction| x.amount)
}

pub open spec fn all_wf(t: Seq<Transaction>) -> bool {
    forall|k: int| 0 <= k < t.len() ==> #[trigger] t[k].wf()
}

/// `a` is the exact sum of `amounts`, in shortest form.
pub open spec fn is_exact_sum(a: Amount, amounts: Seq<Amount>) -> bool {
    (a.mantissa as int, a.scale as nat) == canon(aligned_sum(amounts, MAX_SCALE as nat), MAX_SCALE as nat)
}

fn amounts_vec(transactions: &Vec<Transaction>) -> (r: Vec<Amount>)
    ensures
        r@ == amounts_of(transactions@),
{
    let mut r: Vec<Amount> = Vec::new();
    let mut i: usize = 0;
    while i < transactions.len()
        invariant
            i <= transactions@.len(),
            r@ == amounts_of(transactions@.take(i as int)),
        decreases transactions@.len() - i,
    {
        r.push(transactions[i].amount);
        assert(r@ =~= amounts_of(transactions@.take(i + 1)));
        i = i + 1;
    }
    assert(transactions@.take(transactions@.len() as int) =~= transactions@);
    r
}

/// The exact sum of all amounts; zero for no transactions.
pub fn calculate_total_amount(transactions: &Vec<Transaction>) -> (r: Result<Amount, AggregationError>)
    requires
        all_wf(transactions@),
    ensures
        r is Ok == sum_fits(amounts_of(transactions@)),
        r matches Ok(a) ==> is_exact_sum(a, amounts_of(transactions@)),
        r matches Err(e) ==> e == AggregationError::Overflow,
        transactions@.len() == 0 ==> r == Ok::<Amount, AggregationError>(
            Amount { mantissa: 0, scale: 0 },
        ),
{
    let amounts = amounts_vec(transactions);
    assert forall|k: int| 0 <= k < amounts@.len() implies #[trigger] amounts@[k].in_decimal_range() by {
        assert(transactions@[k].wf());
    }
    match sum_amounts(&amounts) {
        Some(a) => Ok(a),
        None => Err(AggregationError::Overflow),
    }
}

/// Amounts written at the finest scale, where their order is integer order.
pub open spec fn order_key(a: Amount) -> int {
    a.at_scale(MAX_SCALE as nat)
}

/// Transaction `i` is the greatest of `t`: no amount exceeds its amount;
/// among equal amounts none is dated earlier; among those, none comes first.
pub open spec fn is_max_choice(t: Seq<Transaction>, i: int) -> bool {
    &&& 0 <= i < t.len()
    &&& forall|k: int| 0 <= k < t.len() ==> !#[trigger] t[i].amount.less_than(t[k].amount)
    &&& forall|k: int|
        0 <= k < t.len() && #[trigger] t[k].amount.same_value(t[i].amount) ==> {
            &&& !t[k].date.before(t[i].date)
            &&& t[k].date == t[i].date ==> i <= k
        }
}

/// The greatest transaction and its amount: ties go to the earliest date,
/// then to the first in order. No answer on zero transactions.
pub fn calculate_max_amount(transactions: &Vec<Transaction>) -> (r: Result<
    (Amount, usize),
    AggregationError,
>)
    requires
        all_wf(transactions@),
    ensures
        r is Ok <==> transactions@.len() > 0,
        r matches Err(e) ==> e == AggregationError::EmptyCollection,
        r matches Ok(p) ==> {
            &&& is_max_choice(transactions@, p.1 as int)
            &&& p.0 == transactions@[p.1 as int].amount
        },
{
    let ghost t = transactions@;
    if transactions.len() == 0 {
        return Err(AggregationError::EmptyCollection);
    }
    let mut best: usize = 0;
    let mut k: usize = 1;
    while k < transactions.len()
        invariant
            t == transactions@,
            all_wf(t),
            1 <= k <= t.len(),
            best < k,
            forall|j: int|
                0 <= j < k ==> order_key(#[trigger] t[j].amount) <= order_key(
                    t[best as int].amount,
                ),
            forall|j: int|
                0 <= j < k && order_key(#[trigger] t[j].amount) == order_key(
                    t[best as int].amount,
                ) ==> {
                    &&& !t[j].date.before(t[best as int].date)
                    &&& t[j].date == t[best as int].date ==> best <= j
                },
        decreases t.len() - k,
    {
        let cur = transactions[best].amount;
        let cand = transactions[k].amount;
        assert(t[best as int].wf() && t[k as int].wf());
        let greater = amount_less_than(cur, cand);
        let smaller = amount_less_than(cand, cur);
        proof {
            lemma_order_by_finest_scale(cur, cand);
            lemma_order_by_finest_scale(cand, cur);
        }
        let ghost old_best = best as int;
        if greater || (!smaller && transactions[k].date.is_before(&transactions[best].date)) {
            best = k;
        }
        assert forall|j: int| 0 <= j < k + 1 implies order_key(#[trigger] t[j].amount) <= order_key(
            t[best as int].amount,
        ) by {
            if j < k {
                assert(order_key(t[j].amount) <= order_key(t[old_best].amount));
            }
        }
        assert forall|j: int|
            0 <= j < k + 1 && order_key(#[trigger] t[j].amount) == order_key(
                t[best as int].amount,
            ) implies {
            &&& !t[j].date.before(t[best as int].date)
            &&& t[j].date == t[best as int].date ==> best <= j
        } by {
            if j < k {
                assert(order_key(t[j].amount) <= order_key(t[old_best].amount));
            }
        }
        k = k + 1;
    }
    proof {
        let i = best as int;
        assert forall|j: int| 0 <= j < t.len() implies !#[trigger] t[i].amount.less_than(
            t[j].amount,
        ) && (t[j].amount.same_value(t[i].amount) ==> {
            &&& !t[j].date.before(t[i].date)
            &&& t[j].date == t[i].date ==> i <= j
        }) by {
            assert(t[i].wf() && t[j].wf());
            lemma_order_by_finest_scale(t[i].amount, t[j].amount);
            lemma_order_by_finest_scale(t[j].amount, t[i].amount);
        }
        assert forall|j: int|
            0 <= j < t.len() && #[trigger] t[j].amount.same_value(t[i].amount) implies {
            &&& !t[j].date.before(t[i].date)
            &&& t[j].date == t[i].date ==> i <= j
        } by {
            assert(!t[i].amount.less_than(t[j].amount));
        }
    }
    Ok((transactions[best].amount, best))
}

/// Spending of one calendar month.
#[derive(Clone, Copy, Debug, PartialEq, Eq, Structural)]
pub struct MonthlyTotal {
    pub year: i32,
    pub month: u32,
    pub total: Amount,
}

/// Date `d` falls in the month of bucket `b`.
pub open spec fn covers(b: MonthlyTotal, d: Date) -> bool {
    d.year == b.year && d.month == b.month
}

/// The amounts of the transactions of `t` dated in `year`/`month`, in order.
pub open spec fn month_amounts(t: Seq<Transaction>, year: i32, month: u32) -> Seq<Amount>
    decreases t.len(),
{
    if t.len() == 0 {
        seq![]
    } else {
        let prev = month_amounts(t.drop_last(), year, month);
        if t.last().date.year == year && t.last().date.month == month {
            prev.push(t.last().amount)
        } else {
            prev
        }
    }
}

/// Some bucket of `b` covers date `d`.
pub open spec fn month_listed(b: Seq<MonthlyTotal>, d: Date) -> bool {
    exists|j: int| 0 <= j < b.len() && #[trigger] covers(b[j], d)
}

/// Some transaction of `t` falls in bucket `m`.
pub open spec fn month_used(t: Seq<Transaction>, m: MonthlyTotal) -> bool {
    exists|k: int| 0 <= k < t.len() && #[trigger] covers(m, t[k].date)
}

/// No two buckets of `b` are for the same month.
pub open spec fn months_unique(b: Seq<MonthlyTotal>) -> bool {
    forall|i: int, j: int|
        0 <= i < j < b.len() ==> !(b[i].year == b[j].year && b[i].month == b[j].month)
}

/// `b` lists each month of `t` once, no other month, and for each the exact
/// sum of that month's amounts.
pub open spec fn is_monthly_breakdown(t: Seq<Transaction>, b: Seq<MonthlyTotal>) -> bool {
    &&& months_unique(b)
    &&& forall|k: int| 0 <= k < t.len() ==> #[trigger] month_listed(b, t[k].date)
    &&& forall|j: int| 0 <= j < b.len() ==> #[trigger] month_used(t, b[j])
    &&& forall|j: int|
        0 <= j < b.len() ==> is_exact_sum(
            #[trigger] b[j].total,
            month_amounts(t, b[j].year, b[j].month),
        )
}

/// Every month of `t` has an exact sum that fits the working range.
pub open spec fn months_fit(t: Seq<Transaction>) -> bool {
    forall|k: int|
        0 <= k < t.len() ==> sum_fits(
            #[trigger] month_amounts(t, t[k].date.year, t[k].date.month),
        )
}

proof fn lemma_month_amounts_wf(t: Seq<Transaction>, year: i32, month: u32)
    requires
        all_wf(t),
    ensures
        forall|k: int|
            0 <= k < month_amounts(t, year, month).len() ==> #[trigger] month_amounts(
                t,
                year,
                month,
            )[k].in_decimal_range(),
    decreases t.len(),
{
    if t.len() > 0 {
        let u = t.drop_last();
        assert forall|k: int| 0 <= k < u.len() implies #[trigger] u[k].wf() by {
            assert(u[k] == t[k]);
        }
        lemma_month_amounts_wf(u, year, month);
        assert(t[t.len() - 1].wf());
        let prev = month_amounts(u, year, month);
        let m = month_amounts(t, year, month);
        assert forall|k: int| 0 <= k < m.len() implies #[trigger] m[k].in_decimal_range() by {
            if k < prev.len() {
                assert(m[k] == prev[k]);
            }
        }
    }
}

fn month_amounts_vec(transactions: &Vec<Transaction>, year: i32, month: u32) -> (r: Vec<Amount>)
    ensures
        r@ == month_amounts(transactions@, year, month),
{
    let ghost t = transactions@;
    let mut r: Vec<Amount> = Vec::new();
    let mut i: usize = 0;
    while i < transactions.len()
        invariant
            t == transactions@,
            i <= t.len(),
            r@ == month_amounts(t.take(i as int), year, month),
        decreases t.len() - i,
    {
        assert(t.take(i + 1).drop_last() =~= t.take(i as int));
        if transactions[i].date.year == year && transactions[i].date.month == month {
            r.push(transactions[i].amount);
        }
        i = i + 1;
    }
    assert(t.take(t.len() as int) =~= t);
    r
}

fn find_month(buckets: &Vec<MonthlyTotal>, year: i32, month: u32) -> (r: Option<usize>)
    ensures
        r matches Some(j) ==> j < buckets@.len() && buckets@[j as int].year == year
            && buckets@[j as int].month == month,
        r is None ==> forall|j: int|
            0 <= j < buckets@.len() ==> !(buckets@[j].year == year && buckets@[j].month == month),
{
    let mut j: usize = 0;
    while j < buckets.len()
        invariant
            j <= buckets@.len(),
            forall|x: int|
                0 <= x < j ==> !(buckets@[x].year == year && buckets@[x].month == month),
        decreases buckets@.len() - j,
    {
        if buckets[j].year == year && buckets[j].month == month {
            return Some(j);
        }
        j = j + 1;
    }
    None
}

/// Spending per calendar month, each month at full decimal precision.
/// Months are listed in the order they first occur; callers should not rely on it.
pub fn calculate_monthly_spending(transactions: &Vec<Transaction>) -> (r: Result<
    Vec<MonthlyTotal>,
    AggregationError,
>)
    requires
        all_wf(transactions@),
    ensures
        r is Ok == months_fit(transactions@),
        r matches Ok(b) ==> is_monthly_breakdown(transactions@, b@),
        r matches Err(e) ==> e == AggregationError::Overflow,
{
    let ghost t = transactions@;
    let mut buckets: Vec<MonthlyTotal> = Vec::new();
    let mut i: usize = 0;
    while i < transactions.len()
        invariant
            t == transactions@,
            all_wf(t),
            i <= t.len(),
            months_unique(buckets@),
            forall|k: int| 0 <= k < i ==> #[trigger] month_listed(buckets@, t[k].date),
            forall|j: int| 0 <= j < buckets@.len() ==> #[trigger] month_used(t, buckets@[j]),
            forall|j: int|
                0 <= j < buckets@.len() ==> is_exact_sum(
                    #[trigger] buckets@[j].total,
                    month_amounts(t, buckets@[j].year, buckets@[j].month),
                ),
            forall|k: int|
                0 <= k < i ==> sum_fits(
                    #[trigger] month_amounts(t, t[k].date.year, t[k].date.month),
                ),
            forall|j: int|
                0 <= j < buckets@.len() ==> sum_fits(
                    month_amounts(t, #[trigger] buckets@[j].year, buckets@[j].month),
                ),
        decreases t.len() - i,
    {
        let d = transactions[i].date;
        match find_month(&buckets, d.year, d.month) {
            Some(j) => {
                assert(covers(buckets@[j as int], t[i as int].date));
                assert(month_listed(buckets@, t[i as int].date));
                assert(is_exact_sum(
                    buckets@[j as int].total,
                    month_amounts(t, buckets@[j as int].year, buckets@[j as int].month),
                ));
            },
            None => {
                let amounts = month_amounts_vec(transactions, d.year, d.month);
                proof {
                    lemma_month_amounts_wf(t, d.year, d.month);
                }
                match sum_amounts(&amounts) {
                    None => {
                        assert(!sum_fits(month_amounts(t, t[i as int].date.year, t[i as int].date.month)));
                        return Err(AggregationError::Overflow);
                    },
                    Some(total) => {
                        let ghost old_b = buckets@;
                        let entry = MonthlyTotal { year: d.year, month: d.month, total };
                        buckets.push(entry);
                        assert forall|k: int| 0 <= k < i + 1 implies #[trigger] month_listed(
                            buckets@,
                            t[k].date,
                        ) by {
                            if k < i {
                                assert(month_listed(old_b, t[k].date));
                                let j = choose|j: int| 0 <= j < old_b.len() && #[trigger] covers(old_b[j], t[k].date);
                                assert(buckets@[j] == old_b[j]);
                                assert(covers(buckets@[j], t[k].date));
                            } else {
                                assert(covers(buckets@[old_b.len() as int], t[k].date));
                            }
                        }
                        assert forall|j: int| 0 <= j < buckets@.len() implies #[trigger] month_used(
                            t,
                            buckets@[j],
                        ) by {
                            if j < old_b.len() {
                                assert(buckets@[j] == old_b[j]);
                                assert(month_used(t, old_b[j]));
                            } else {
                                assert(covers(buckets@[j], t[i as int].date));
                            }
                        }
                        assert forall|j: int|
                            0 <= j < buckets@.len() implies is_exact_sum(
                            #[trigger] buckets@[j].total,
                            month_amounts(t, buckets@[j].year, buckets@[j].month),
                        ) by {
                            if j < old_b.len() {
                                assert(buckets@[j] == old_b[j]);
                            }
                        }
                        assert forall|j: int|
                            0 <= j < buckets@.len() implies sum_fits(
                            month_amounts(t, #[trigger] buckets@[j].year, buckets@[j].month),
                        ) by {
                            if j < old_b.len() {
                                assert(buckets@[j] == old_b[j]);
                            }
                        }
                    },
                }
            },
        }
        proof {
            assert forall|k: int| 0 <= k < i + 1 implies sum_fits(
                #[trigger] month_amounts(t, t[k].date.year, t[k].date.month),
            ) by {
                if k == i {
                    assert(month_listed(buckets@, t[k].date));
                    let m = choose|j: int| 0 <= j < buckets@.len() && #[trigger] covers(buckets@[j], t[k].date);
                    assert(sum_fits(month_amounts(t, buckets@[m].year, buckets@[m].month)));
                }
            }
        }
        i = i + 1;
    }
    Ok(buckets)
}

/// A total is the exact decimal sum: written at scale 28 it equals the sum
/// of the amounts each written at scale 28, and its scale is at most 28.
pub proof fn lemma_total_is_exact(t: Seq<Transaction>, total: Amount)
    requires
        is_exact_sum(total, amounts_of(t)),
    ensures
        total.scale <= MAX_SCALE,
        total.at_scale(MAX_SCALE as nat) == aligned_sum(amounts_of(t), MAX_SCALE as nat),
{
    lemma_canon_props(aligned_sum(amounts_of(t), MAX_SCALE as nat), MAX_SCALE as nat);
}

/// A monthly breakdown partitions the transactions: each lies in exactly one bucket.
pub proof fn lemma_monthly_partition(t: Seq<Transaction>, b: Seq<MonthlyTotal>)
    requires
        is_monthly_breakdown(t, b),
    ensures
        forall|k: int| 0 <= k < t.len() ==> #[trigger] month_listed(b, t[k].date),
        forall|k: int, i: int, j: int|
            0 <= k < t.len() && 0 <= i < b.len() && 0 <= j < b.len() && #[trigger] covers(
                b[i],
                t[k].date,
            ) && #[trigger] covers(b[j], t[k].date) ==> i == j,
{
    assert forall|k: int, i: int, j: int|
        0 <= k < t.len() && 0 <= i < b.len() && 0 <= j < b.len() && #[trigger] covers(
            b[i],
            t[k].date,
        ) && #[trigger] covers(b[j], t[k].date) implies i == j by {
        if i < j {
            assert(!(b[i].year == b[j].year && b[i].month == b[j].month));
        } else if j < i {
            assert(!(b[j].year == b[i].year && b[j].month == b[i].month));
        }
    }
}

/// `r` is the total that `b` lists for `year`/`month`, zero where it lists none.
pub open spec fn is_month_amount(b: Seq<MonthlyTotal>, year: i32, month: u32, r: Amount) -> bool {
    &&& forall|j: int|
        0 <= j < b.len() && #[trigger] b[j].year == year && b[j].month == month ==> r == b[j].total
    &&& (forall|j: int| 0 <= j < b.len() ==> !(#[trigger] b[j].year == year && b[j].month == month))
        ==> r == Amount { mantissa: 0, scale: 0 }
}

/// The spending listed for one month; zero when the month is absent.
pub fn monthly_amount(buckets: &Vec<MonthlyTotal>, year: i32, month: u32) -> (r: Amount)
    requires
        months_unique(buckets@),
    ensures
        is_month_amount(buckets@, year, month, r),
{
    match find_month(buckets, year, month) {
        Some(j) => {
            assert forall|x: int|
                0 <= x < buckets@.len() && #[trigger] buckets@[x].year == year && buckets@[x].month
                    == month implies buckets[j as int].total == buckets@[x].total by {
                if x < j {
                    assert(!(buckets@[x].year == buckets@[j as int].year && buckets@[x].month
                        == buckets@[j as int].month));
                } else if j < x {
                    assert(!(buckets@[j as int].year == buckets@[x].year && buckets@[j as int].month
                        == buckets@[x].month));
                }
            }
            buckets[j].total
        },
        None => Amount::zero(),
    }
}

/// One month of two sources' spending, side by side.
#[derive(Clone, Copy, Debug, PartialEq, Eq, Structural)]
pub struct MonthComparison {
    pub year: i32,
    pub month: u32,
    pub first: Amount,
    pub second: Amount,
}

impl MonthComparison {
    /// Both sources spent something that month.
    pub fn both_active(&self) -> (r: bool)
        ensures
            r == (self.first.mantissa != 0 && self.second.mantissa != 0),
    {
        !self.first.is_zero() && !self.second.is_zero()
    }
}

/// Reads one month from two breakdowns; a month absent from one counts as zero there.
pub fn compare_month(first: &Vec<MonthlyTotal>, second: &Vec<MonthlyTotal>, year: i32, month: u32) -> (r:
    MonthComparison)
    requires
        months_unique(first@),
        months_unique(second@),
    ensures
        r.year == year,
        r.month == month,
        is_month_amount(first@, year, month, r.first),
        is_month_amount(second@, year, month, r.second),
{
    MonthComparison {
        year,
        month,
        first: monthly_amount(first, year, month),
        second: monthly_amount(second, year, month),
    }
}

/// `c` is a month of `years` in which both breakdowns list a non-zero total,
/// and holds those totals.
pub open spec fn is_active_comparison(
    first: Seq<MonthlyTotal>,
    second: Seq<MonthlyTotal>,
    years: Seq<i32>,
    c: MonthComparison,
) -> bool {
    &&& years.contains(c.year)
    &&& 1 <= c.month <= 12
    &&& is_month_amount(first, c.year, c.month, c.first)
    &&& is_month_amount(second, c.year, c.month, c.second)
    &&& c.first.mantissa != 0 && c.second.mantissa != 0
}

/// `r` lists a comparison for `year`/`month`.
pub open spec fn comparison_listed(r: Seq<MonthComparison>, year: i32, month: u32) -> bool {
    exists|e: int| 0 <= e < r.len() && #[trigger] r[e].year == year && r[e].month == month
}

/// Both breakdowns list a non-zero total for `year`/`month`.
pub open spec fn both_spent(first: Seq<MonthlyTotal>, second: Seq<MonthlyTotal>, year: i32, month: u32) -> bool {
    exists|i: int, j: int|
        0 <= i < first.len() && 0 <= j < second.len() && #[trigger] first[i].year == year
            && first[i].month == month && #[trigger] second[j].year == year && second[j].month
            == month && first[i].total.mantissa != 0 && second[j].total.mantissa != 0
}

/// The months of `years` (each year's months in order) in which both
/// sources spent something, with each source's total for the month.
pub fn active_months(first: &Vec<MonthlyTotal>, second: &Vec<MonthlyTotal>, years: &Vec<i32>) -> (r:
    Vec<MonthComparison>)
    requires
        months_unique(first@),
        months_unique(second@),
    ensures
        forall|e: int| 0 <= e < r@.len() ==> is_active_comparison(first@, second@, years@, #[trigger] r@[e]),
        forall|y: int, m: u32|
            0 <= y < years@.len() && 1 <= m <= 12 && #[trigger] both_spent(first@, second@, years@[y], m)
                ==> comparison_listed(r@, years@[y], m),
{
    let mut r: Vec<MonthComparison> = Vec::new();
    let mut yi: usize = 0;
    while yi < years.len()
        invariant
            months_unique(first@),
            months_unique(second@),
            yi <= years@.len(),
            forall|e: int| 0 <= e < r@.len() ==> is_active_comparison(first@, second@, years@, #[trigger] r@[e]),
            forall|y: int, m: u32|
                0 <= y < yi && 1 <= m <= 12 && #[trigger] both_spent(first@, second@, years@[y], m)
                    ==> comparison_listed(r@, years@[y], m),
        decreases years@.len() - yi,
    {
        let year = years[yi];
        let mut month: u32 = 1;
        while month <= 12
            invariant
                months_unique(first@),
                months_unique(second@),
                yi < years@.len(),
                year == years@[yi as int],
                1 <= month <= 13,
                forall|e: int| 0 <= e < r@.len() ==> is_active_comparison(first@, second@, years@, #[trigger] r@[e]),
                forall|y: int, m: u32|
                    0 <= y < yi && 1 <= m <= 12 && #[trigger] both_spent(first@, second@, years@[y], m)
                        ==> comparison_listed(r@, years@[y], m),
                forall|m: u32|
                    1 <= m < month && #[trigger] both_spent(first@, second@, year, m)
                        ==> comparison_listed(r@, year, m),
            decreases 13 - month,
        {
            let c = compare_month(first, second, year, month);
            let ghost old_r = r@;
            if c.both_active() {
                r.push(c);
                assert(years@.contains(year)) by {
                    assert(years@[yi as int] == year);
                }
                assert forall|e: int| 0 <= e < r@.len() implies is_active_comparison(first@, second@, years@, #[trigger] r@[e]) by {
                    if e < old_r.len() {
                        assert(r@[e] == old_r[e]);
                    }
                }
                assert(r@[old_r.len() as int].year == year && r@[old_r.len() as int].month == month);
            } else {
                assert(!both_spent(first@, second@, year, month)) by {
                    if both_spent(first@, second@, year, month) {
                        let (i, j) = choose|i: int, j: int|
                            0 <= i < first@.len() && 0 <= j < second@.len() && #[trigger] first@[i].year
                                == year && first@[i].month == month && #[trigger] second@[j].year
                                == year && second@[j].month == month && first@[i].total.mantissa != 0
                                && second@[j].total.mantissa != 0;
                        assert(c.first == first@[i].total);
                        assert(c.second == second@[j].total);
                    }
                }
            }
            assert forall|y: int, m: u32|
                0 <= y < yi && 1 <= m <= 12 && #[trigger] both_spent(first@, second@, years@[y], m)
                    implies comparison_listed(r@, years@[y], m) by {
                assert(comparison_listed(old_r, years@[y], m));
                let e = choose|e: int| 0 <= e < old_r.len() && #[trigger] old_r[e].year == years@[y] && old_r[e].month == m;
                assert(r@[e] == old_r[e]);
            }
            assert forall|m: u32|
                1 <= m < month + 1 && #[trigger] both_spent(first@, second@, year, m)
                    implies comparison_listed(r@, year, m) by {
                if m < month {
                    assert(comparison_listed(old_r, year, m));
                    let e = choose|e: int| 0 <= e < old_r.len() && #[trigger] old_r[e].year == year && old_r[e].month == m;
                    assert(r@[e] == old_r[e]);
                } else {
                    assert(r@[old_r.len() as int].year == year);
                }
            }
            month = month + 1;
        }
        yi = yi + 1;
    }
    r
}

/// The month totals of `b` added up, each written at scale 28.
pub open spec fn listed_sum(b: Seq<MonthlyTotal>) -> int
    decreases b.len(),
{
    if b.len() == 0 {
        0
    } else {
        listed_sum(b.drop_last()) + b.last().total.at_scale(MAX_SCALE as nat)
    }
}

/// The amounts of `t` added up month by month over the months of `b`.
pub open spec fn bucketed_sum(b: Seq<MonthlyTotal>, t: Seq<Transaction>) -> int
    decreases b.len(),
{
    if b.len() == 0 {
        0
    } else {
        bucketed_sum(b.drop_last(), t) + aligned_sum(
            month_amounts(t, b.last().year, b.last().month),
            MAX_SCALE as nat,
        )
    }
}

proof fn lemma_aligned_sum_push(a: Seq<Amount>, x: Amount, s: nat)
    ensures
        aligned_sum(a.push(x), s) == aligned_sum(a, s) + x.at_scale(s),
{
    assert(a.push(x).drop_last() =~= a);
}

proof fn lemma_bucketed_sum_empty(b: Seq<MonthlyTotal>, t: Seq<Transaction>)
    requires
        t.len() == 0,
    ensures
        bucketed_sum(b, t) == 0,
    decreases b.len(),
{
    if b.len() > 0 {
        lemma_bucketed_sum_empty(b.drop_last(), t);
    }
}

proof fn lemma_bucketed_sum_step(b: Seq<MonthlyTotal>, t: Seq<Transaction>)
    requires
        t.len() > 0,
        months_unique(b),
    ensures
        bucketed_sum(b, t) == bucketed_sum(b, t.drop_last()) + if month_listed(b, t.last().date) {
            t.last().amount.at_scale(MAX_SCALE as nat)
        } else {
            0
        },
    decreases b.len(),
{
    if b.len() > 0 {
        let c = b.drop_last();
        let x = b.last();
        let d = t.last().date;
        assert(months_unique(c)) by {
            assert forall|i: int, j: int| 0 <= i < j < c.len() implies !(c[i].year == c[j].year
                && c[i].month == c[j].month) by {
                assert(c[i] == b[i] && c[j] == b[j]);
            }
        }
        lemma_bucketed_sum_step(c, t);
        if covers(x, d) {
            lemma_aligned_sum_push(month_amounts(t.drop_last(), x.year, x.month), t.last().amount, MAX_SCALE as nat);
            assert(covers(b[b.len() - 1], d));
            if month_listed(c, d) {
                let j = choose|j: int| 0 <= j < c.len() && #[trigger] covers(c[j], d);
                assert(c[j] == b[j]);
                assert(!(b[j].year == b[b.len() - 1].year && b[j].month == b[b.len() - 1].month));
            }
        } else {
            if month_listed(b, d) {
                let j = choose|j: int| 0 <= j < b.len() && #[trigger] covers(b[j], d);
                assert(j < c.len());
                assert(c[j] == b[j]);
                assert(covers(c[j], d));
            }
            if month_listed(c, d) {
                let j = choose|j: int| 0 <= j < c.len() && #[trigger] covers(c[j], d);
                assert(c[j] == b[j]);
                assert(covers(b[j], d));
            }
        }
    }
}

proof fn lemma_bucketed_sum_total(b: Seq<MonthlyTotal>, t: Seq<Transaction>)
    requires
        months_unique(b),
        forall|k: int| 0 <= k < t.len() ==> #[trigger] month_listed(b, t[k].date),
    ensures
        bucketed_sum(b, t) == aligned_sum(amounts_of(t), MAX_SCALE as nat),
    decreases t.len(),
{
    if t.len() == 0 {
        lemma_bucketed_sum_empty(b, t);
    } else {
        let u = t.drop_last();
        assert forall|k: int| 0 <= k < u.len() implies #[trigger] month_listed(b, u[k].date) by {
            assert(u[k] == t[k]);
        }
        lemma_bucketed_sum_total(b, u);
        lemma_bucketed_sum_step(b, t);
        assert(month_listed(b, t[t.len() - 1].date));
        assert(amounts_of(t) =~= amounts_of(u).push(t.last().amount));
        lemma_aligned_sum_push(amounts_of(u), t.last().amount, MAX_SCALE as nat);
    }
}

proof fn lemma_listed_sum_exact(b: Seq<MonthlyTotal>, t: Seq<Transaction>)
    requires
        forall|j: int|
            0 <= j < b.len() ==> is_exact_sum(
                #[trigger] b[j].total,
                month_amounts(t, b[j].year, b[j].month),
            ),
    ensures
        listed_sum(b) == bucketed_sum(b, t),
    decreases b.len(),
{
    if b.len() > 0 {
        let c = b.drop_last();
        assert forall|j: int| 0 <= j < c.len() implies is_exact_sum(
            #[trigger] c[j].total,
            month_amounts(t, c[j].year, c[j].month),
        ) by {
            assert(c[j] == b[j]);
        }
        lemma_listed_sum_exact(c, t);
        let x = b.last();
        assert(is_exact_sum(b[b.len() - 1].total, month_amounts(t, x.year, x.month)));
        lemma_canon_props(aligned_sum(month_amounts(t, x.year, x.month), MAX_SCALE as nat), MAX_SCALE as nat);
    }
}

/// The month totals of a breakdown add up to the total of all transactions.
pub proof fn lemma_monthly_totals_add_up(t: Seq<Transaction>, b: Seq<MonthlyTotal>, total: Amount)
    requires
        is_monthly_breakdown(t, b),
        is_exact_sum(total, amounts_of(t)),
    ensures
        listed_sum(b) == total.at_scale(MAX_SCALE as nat),
{
    lemma_listed_sum_exact(b, t);
    lemma_bucketed_sum_total(b, t);
    lemma_total_is_exact(t, total);
}

} // verus!
