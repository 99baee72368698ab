//! Reducing the normalized rows of one import to per-day totals, kept in
//! ascending date order, together with the grand total over all rows.

use crate::date::{lemma_key_injective, Date};
use crate::normalize::{row_views, wf_rows, NormalizedRow, RowView};
use vstd::prelude::*;

verus! {

/// One day's accumulated amount, in hundredths.
#[derive(Clone, Copy, Debug, PartialEq, Eq, Structural)]
pub struct DailyTotal {
    pub date: Date,
    pub total_cents: i128,
}

pub open spec fn sum_cents(rs: Seq<RowView>) -> int
    decreases rs.len(),
{
    if rs.len() == 0 {
        0
    } else {
        sum_cents(rs.drop_last()) + rs.last().cents
    }
}

pub open spec fn sum_cents_for_date(rs: Seq<RowView>, d: Date) -> int
    decreases rs.len(),
{
    if rs.len() == 0 {
        0
    } else {
        sum_cents_for_date(rs.drop_last(), d) + if rs.last().date == d {
            rs.last().cents
        } else {
            0
        }
    }
}

pub open spec fn has_date(rs: Seq<RowView>, d: Date) -> bool {
    exists|i: int| 0 <= i < rs.len() && rs[i].date == d
}

pub open spec fn totals_sorted(ts: Seq<DailyTotal>) -> bool {
    forall|i: int, j: int|
        0 <= i < j < ts.len() ==> #[trigger] ts[i].date.spec_key() < #[trigger] ts[j].date.spec_key()
}

pub open spec fn contains_date(ts: Seq<DailyTotal>, d: Date) -> bool {
    exists|i: int| 0 <= i < ts.len() && ts[i].date == d
}

pub open spec fn sum_daily(ts: Seq<DailyTotal>) -> int
    decreases ts.len(),
{
    if ts.len() == 0 {
        0
    } else {
        sum_daily(ts.drop_last()) + ts.last().total_cents
    }
}

/// The totals list is sorted ascending by date, describes exactly the dates
/// occurring in `rs`, and gives each date the sum of that date's amounts.
pub open spec fn totals_match(ts: Seq<DailyTotal>, rs: Seq<RowView>) -> bool {
    &&& totals_sorted(ts)
    &&& forall|d: Date| #[trigger] contains_date(ts, d) <==> has_date(rs, d)
    &&& forall|i: int|
        0 <= i < ts.len() ==> #[trigger] ts[i].total_cents == sum_cents_for_date(rs, ts[i].date)
    &&& forall|i: int| 0 <= i < ts.len() ==> (#[trigger] ts[i].date).valid()
}

pub proof fn lemma_wf_take(rs: Seq<RowView>, i: int)
    requires
        wf_rows(rs),
        0 <= i <= rs.len(),
    ensures
        wf_rows(rs.take(i)),
{
    assert forall|k: int| 0 <= k < rs.take(i).len() implies (#[trigger] rs.take(i)[k].date.valid()
        && -crate::amount::amount_limit() < rs.take(i)[k].cents
        < crate::amount::amount_limit()) by {
        assert(rs.take(i)[k] == rs[k]);
        assert(rs[k].date.valid());
    }
}

proof fn lemma_wf_drop_last(rs: Seq<RowView>)
    requires
        wf_rows(rs),
        rs.len() > 0,
    ensures
        wf_rows(rs.drop_last()),
{
    assert forall|k: int| 0 <= k < rs.drop_last().len() implies (
    #[trigger] rs.drop_last()[k].date.valid() && -crate::amount::amount_limit()
        < rs.drop_last()[k].cents < crate::amount::amount_limit()) by {
        assert(rs.drop_last()[k] == rs[k]);
        assert(rs[k].date.valid());
    }
}

pub proof fn lemma_sum_for_date_bound(rs: Seq<RowView>, d: Date)
    requires
        wf_rows(rs),
    ensures
        -(rs.len() as int) * 1000000000000000000 <= sum_cents_for_date(rs, d) <= (rs.len() as int)
            * 1000000000000000000,
    decreases rs.len(),
{
    if rs.len() > 0 {
        lemma_wf_drop_last(rs);
        lemma_sum_for_date_bound(rs.drop_last(), d);
        assert(rs[rs.len() - 1].date.valid());
    }
}

pub proof fn lemma_sum_cents_bound(rs: Seq<RowView>)
    requires
        wf_rows(rs),
    ensures
        -(rs.len() as int) * 1000000000000000000 <= sum_cents(rs) <= (rs.len() as int)
            * 1000000000000000000,
    decreases rs.len(),
{
    if rs.len() > 0 {
        lemma_wf_drop_last(rs);
        lemma_sum_cents_bound(rs.drop_last());
        assert(rs[rs.len() - 1].date.valid());
    }
}

pub proof fn lemma_sum_for_date_absent(rs: Seq<RowView>, d: Date)
    requires
        !has_date(rs, d),
    ensures
        sum_cents_for_date(rs, d) == 0,
    decreases rs.len(),
{
    if rs.len() > 0 {
        assert(rs.last() == rs[rs.len() - 1]);
        assert(rs.last().date != d);
        assert(!has_date(rs.drop_last(), d)) by {
            if has_date(rs.drop_last(), d) {
                let w = choose|w: int|
                    0 <= w < rs.drop_last().len() && rs.drop_last()[w].date == d;
                assert(rs[w] == rs.drop_last()[w]);
            }
        }
        lemma_sum_for_date_absent(rs.drop_last(), d);
    }
}

proof fn lemma_sum_daily_update(ts: Seq<DailyTotal>, j: int, t: DailyTotal)
    requires
        0 <= j < ts.len(),
    ensures
        sum_daily(ts.update(j, t)) == sum_daily(ts) - ts[j].total_cents + t.total_cents,
    decreases ts.len(),
{
    let s2 = ts.update(j, t);
    if j == ts.len() - 1 {
        assert(s2.drop_last() =~= ts.drop_last());
        assert(s2.last() == t);
    } else {
        assert(s2.drop_last() =~= ts.drop_last().update(j, t));
        assert(s2.last() == ts.last());
        lemma_sum_daily_update(ts.drop_last(), j, t);
    }
}

proof fn lemma_sum_daily_insert(ts: Seq<DailyTotal>, j: int, t: DailyTotal)
    requires
        0 <= j <= ts.len(),
    ensures
        sum_daily(ts.insert(j, t)) == sum_daily(ts) + t.total_cents,
    decreases ts.len(),
{
    let s2 = ts.insert(j, t);
    if j == ts.len() {
        assert(s2.drop_last() =~= ts);
        assert(s2.last() == t);
    } else {
        assert(s2.drop_last() =~= ts.drop_last().insert(j, t));
        assert(s2.last() == ts.last());
        lemma_sum_daily_insert(ts.drop_last(), j, t);
    }
}

/// Appending one row adds its amount to exactly its date's bucket.
pub proof fn lemma_take_step(v: Seq<RowView>, i: int)
    requires
        0 <= i < v.len(),
    ensures
        sum_cents(v.take(i + 1)) == sum_cents(v.take(i)) + v[i].cents,
        forall|d: Date| #[trigger]
            sum_cents_for_date(v.take(i + 1), d) == sum_cents_for_date(v.take(i), d) + (
            if v[i].date == d {
                v[i].cents
            } else {
                0
            }),
        forall|d: Date| #[trigger]
            has_date(v.take(i + 1), d) <==> (has_date(v.take(i), d) || v[i].date == d),
{
    let t0 = v.take(i);
    let t1 = v.take(i + 1);
    assert(t1 =~= t0.push(v[i]));
    assert(t1.drop_last() =~= t0);
    assert(t1.last() == v[i]);
    assert forall|d: Date| #[trigger]
        sum_cents_for_date(t1, d) == sum_cents_for_date(t0, d) + (
        if v[i].date == d {
            v[i].cents
        } else {
            0
        }) by {
        assert(sum_cents_for_date(t1, d) == sum_cents_for_date(t1.drop_last(), d) + (
        if t1.last().date == d {
            t1.last().cents
        } else {
            0
        }));
    }
    assert forall|d: Date| #[trigger]
        has_date(t1, d) == (has_date(t0, d) || v[i].date == d) by {
        if has_date(t1, d) {
            let w = choose|w: int| 0 <= w < t1.len() && t1[w].date == d;
            if w < i {
                assert(t0[w] == t1[w]);
                assert(has_date(t0, d));
            } else {
                assert(t1[i] == v[i]);
            }
        }
        if has_date(t0, d) {
            let w = choose|w: int| 0 <= w < t0.len() && t0[w].date == d;
            assert(t1[w] == t0[w]);
            assert(has_date(t1, d));
        }
        if v[i].date == d {
            assert(t1[i].date == d);
            assert(has_date(t1, d));
        }
    }
}

pub fn aggregate_daily(rows: &Vec<NormalizedRow>) -> (totals: Vec<DailyTotal>)
    requires
        wf_rows(row_views(rows@)),
    ensures
        totals_match(totals@, row_views(rows@)),
        sum_daily(totals@) == sum_cents(row_views(rows@)),
{
    let ghost v = row_views(rows@);
    let n = rows.len();
    let mut totals: Vec<DailyTotal> = Vec::new();
    let mut i: usize = 0;
    proof {
        assert(v.take(0) =~= Seq::<RowView>::empty());
        assert forall|d: Date| !(#[trigger] contains_date(totals@, d)) && !has_date(
            v.take(0),
            d,
        ) by {}
    }
    while i < n
        invariant
            i <= n,
            n == rows@.len(),
            v == row_views(rows@),
            wf_rows(v),
            totals_match(totals@, v.take(i as int)),
            sum_daily(totals@) == sum_cents(v.take(i as int)),
        decreases n - i,
    {
        let row = &rows[i];
        let d = row.date;
        let cents = row.amount.cents;
        proof {
            assert(v[i as int] == rows@[i as int]@);
            assert(v[i as int].date == d && v[i as int].cents == cents as int);
            assert(d.valid());
        }
        let dk = d.key();
        let mut j: usize = 0;
        while j < totals.len() && totals[j].date.key() < dk
            invariant
                j <= totals@.len(),
                forall|t: int| 0 <= t < j ==> (#[trigger] totals@[t].date).spec_key() < d.spec_key(),
                forall|t: int| 0 <= t < totals@.len() ==> (#[trigger] totals@[t].date).valid(),
                d.valid(),
                dk == d.spec_key(),
            decreases totals@.len() - j,
        {
            j += 1;
        }
        let ghost before = totals@;
        let tlen = totals.len();
        proof {
            lemma_take_step(v, i as int);
            lemma_wf_take(v, i as int);
            lemma_sum_for_date_bound(v.take(i as int), d);
        }
        if j < tlen && totals[j].date.key() == dk {
            // An earlier row of this import already landed on this date:
            // accumulate in place.
            proof {
                lemma_key_injective(before[j as int].date, d);
            }
            let told = totals[j];
            proof {
                assert(told.total_cents == sum_cents_for_date(v.take(i as int), d));
                assert((i as int) * 1000000000000000000 <= 18446744073709551615int
                    * 1000000000000000000);
            }
            let newt = DailyTotal { date: told.date, total_cents: told.total_cents + (
            cents as i128) };
            totals.remove(j);
            totals.insert(j, newt);
            proof {
                assert(totals@ =~= before.update(j as int, newt));
                let after = before.update(j as int, newt);
                // Dates are unchanged, so order and membership carry over.
                assert(forall|k: int|
                    0 <= k < after.len() ==> (#[trigger] after[k]).date == before[k].date);
                assert(totals_sorted(after));
                // Every other bucket's date differs from this row's date.
                assert forall|k: int| 0 <= k < before.len() && k != j implies (
                #[trigger] before[k]).date != d by {
                    if before[k].date == d {
                        assert(before[k].date.spec_key() == d.spec_key());
                        if k < j {
                        } else {
                            assert(before[j as int].date.spec_key() < before[k].date.spec_key());
                        }
                    }
                }
                assert forall|dd: Date| #[trigger]
                    contains_date(after, dd) == (contains_date(before, dd) || v[i as int].date
                        == dd) by {
                    if contains_date(after, dd) {
                        let w = choose|w: int| 0 <= w < after.len() && after[w].date == dd;
                        assert(before[w].date == dd);
                        assert(contains_date(before, dd));
                    }
                    if contains_date(before, dd) {
                        let w = choose|w: int| 0 <= w < before.len() && before[w].date == dd;
                        assert(after[w].date == dd);
                        assert(contains_date(after, dd));
                    }
                    if v[i as int].date == dd {
                        assert(after[j as int].date == dd);
                        assert(contains_date(after, dd));
                    }
                }
                assert forall|k: int| 0 <= k < after.len() implies #[trigger] after[k].total_cents
                    == sum_cents_for_date(v.take(i as int + 1), after[k].date) by {
                    if k == j {
                        assert(sum_cents_for_date(v.take(i as int + 1), d) == sum_cents_for_date(
                            v.take(i as int),
                            d,
                        ) + v[i as int].cents);
                    } else {
                        assert(before[k].date != d);
                        assert(sum_cents_for_date(v.take(i as int + 1), before[k].date)
                            == sum_cents_for_date(v.take(i as int), before[k].date));
                    }
                }
                lemma_sum_daily_update(before, j as int, newt);
                assert(sum_daily(after) == sum_cents(v.take(i as int + 1)));
                assert(totals_match(after, v.take(i as int + 1)));
            }
        } else {
            // First row of this import on this date: open a new bucket at the
            // insertion point that keeps the list sorted.
            let newt = DailyTotal { date: d, total_cents: cents as i128 };
            proof {
                // No existing bucket carries this date.
                assert forall|k: int| 0 <= k < before.len() implies (#[trigger] before[k]).date
                    != d by {
                    if before[k].date == d {
                        assert(before[k].date.spec_key() == d.spec_key());
                        if k < j {
                        } else if k == j {
                        } else {
                            assert(before[j as int].date.spec_key() < before[k].date.spec_key());
                            if j < before.len() {
                                lemma_key_injective(before[j as int].date, d);
                            }
                        }
                    }
                }
                assert(!contains_date(before, d));
                assert(!has_date(v.take(i as int), d));
                lemma_sum_for_date_absent(v.take(i as int), d);
                // Buckets at or after the insertion point sort strictly above.
                assert forall|k: int| j <= k < before.len() implies d.spec_key() < (
                #[trigger] before[k]).date.spec_key() by {
                    if before[k].date.spec_key() == d.spec_key() {
                        lemma_key_injective(before[k].date, d);
                    }
                    if k > j {
                        assert(before[j as int].date.spec_key() < before[k].date.spec_key());
                        if before[j as int].date.spec_key() == d.spec_key() {
                            lemma_key_injective(before[j as int].date, d);
                        }
                    }
                }
            }
            totals.insert(j, newt);
            proof {
                let after = before.insert(j as int, newt);
                assert(totals@ == after);
                assert(forall|k: int| 0 <= k < j ==> #[trigger] after[k] == before[k]);
                assert(after[j as int] == newt);
                assert(forall|k: int|
                    j < k < after.len() ==> #[trigger] after[k] == before[k - 1]);
                assert forall|p: int, q: int| 0 <= p < q < after.len() implies
                    #[trigger] after[p].date.spec_key() < #[trigger] after[q].date.spec_key() by {
                    if p < j && q < j {
                    } else if p < j && q == j {
                    } else if p == j {
                        assert(after[q] == before[q - 1]);
                    } else if q > j && p > j {
                        assert(before[p - 1].date.spec_key() < before[q - 1].date.spec_key());
                    }
                }
                assert(totals_sorted(after));
                assert forall|dd: Date| #[trigger]
                    contains_date(after, dd) == (contains_date(before, dd) || v[i as int].date
                        == dd) by {
                    if contains_date(after, dd) {
                        let w = choose|w: int| 0 <= w < after.len() && after[w].date == dd;
                        if w < j {
                            assert(before[w].date == dd);
                            assert(contains_date(before, dd));
                        } else if w == j {
                        } else {
                            assert(before[w - 1].date == dd);
                            assert(contains_date(before, dd));
                        }
                    }
                    if contains_date(before, dd) {
                        let w = choose|w: int| 0 <= w < before.len() && before[w].date == dd;
                        if w < j {
                            assert(after[w].date == dd);
                        } else {
                            assert(after[w + 1].date == dd);
                        }
                        assert(contains_date(after, dd));
                    }
                    if v[i as int].date == dd {
                        assert(after[j as int].date == dd);
                        assert(contains_date(after, dd));
                    }
                }
                assert forall|k: int| 0 <= k < after.len() implies #[trigger] after[k].total_cents
                    == sum_cents_for_date(v.take(i as int + 1), after[k].date) by {
                    if k == j {
                        assert(sum_cents_for_date(v.take(i as int + 1), d) == sum_cents_for_date(
                            v.take(i as int),
                            d,
                        ) + v[i as int].cents);
                    } else {
                        let bk = if k < j {
                            k
                        } else {
                            k - 1
                        };
                        assert(after[k] == before[bk]);
                        assert(before[bk].date != d);
                        assert(sum_cents_for_date(v.take(i as int + 1), before[bk].date)
                            == sum_cents_for_date(v.take(i as int), before[bk].date));
                    }
                }
                lemma_sum_daily_insert(before, j as int, newt);
                assert(sum_daily(after) == sum_cents(v.take(i as int + 1)));
                assert(totals_match(after, v.take(i as int + 1)));
            }
        }
        i += 1;
    }
    proof {
        assert(v.take(n as int) =~= v);
    }
    totals
}

} // verus!
