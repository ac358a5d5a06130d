//! What the bakery sold: the statistics of each day and those of the whole
//! run.

use crate::tray::{
    lemma_total_prefix_le, lemma_total_push, lemma_total_update, portions_total, CakeTray,
};
use vstd::prelude::*;

verus! {

/// Workers behind the counter.
pub const WORKERS: usize = 6;

/// The best worker reported when nobody sold anything that day.
pub const NO_BEST_WORKER: usize = 10;

pub struct DailyStats {
    pub portions_sold: usize,
    pub portions_left: usize,
    /// Portions sold by each worker, indexed by the worker's id.
    pub worker_stats: Vec<usize>,
}

pub struct Bakery {
    pub stats: Vec<DailyStats>,
}

/// The figures announced at the end of a day.
pub struct DayReport {
    pub portions_sold: usize,
    pub portions_left: usize,
    pub best_worker: usize,
    /// Portions each worker takes home.
    pub divided_portions: usize,
    /// Portions the best worker takes home on top of that.
    pub portions_remainder: usize,
}

/// The figures announced when the run is over.
pub struct FinalReport {
    pub best_day_index: usize,
    pub most_portions_sold: usize,
    pub best_worker: usize,
    pub best_average: usize,
}

/// Each worker's sales once the results `(id, portions sold)` are recorded
/// in order, a later result for an id replacing an earlier one.
pub open spec fn placed_sales(results: Seq<(usize, usize)>) -> Seq<usize>
    decreases results.len(),
{
    if results.len() == 0 {
        Seq::new(WORKERS as nat, |i: int| 0usize)
    } else {
        placed_sales(results.drop_last()).update(results.last().0 as int, results.last().1)
    }
}

/// The best worker of the day and their sales: the first result with the
/// largest positive sales, or no worker and zero when nobody sold anything.
pub open spec fn best_seller(results: Seq<(usize, usize)>) -> (usize, usize)
    decreases results.len(),
{
    if results.len() == 0 {
        (NO_BEST_WORKER, 0usize)
    } else {
        let prev = best_seller(results.drop_last());
        if results.last().1 > prev.1 {
            results.last()
        } else {
            prev
        }
    }
}

/// The best day so far and its sales: the first day with the largest
/// positive sales, or day 0 with zero sales.
pub open spec fn best_day(stats: Seq<DailyStats>) -> (int, usize)
    decreases stats.len(),
{
    if stats.len() == 0 {
        (0, 0usize)
    } else {
        let prev = best_day(stats.drop_last());
        if stats.last().portions_sold > prev.1 {
            (stats.len() - 1, stats.last().portions_sold)
        } else {
            prev
        }
    }
}

/// What worker `w` sold over the days of `stats`.
pub open spec fn worker_total(stats: Seq<DailyStats>, w: int) -> int
    decreases stats.len(),
{
    if stats.len() == 0 {
        0
    } else {
        worker_total(stats.drop_last(), w) + if 0 <= w < stats.last().worker_stats@.len() {
            stats.last().worker_stats@[w] as int
        } else {
            0
        }
    }
}

/// The best worker among workers `0..k` by sales per day, and that
/// average: the first with the largest positive average, or worker 0 with
/// zero.
pub open spec fn best_average_upto(stats: Seq<DailyStats>, k: int) -> (int, int)
    decreases k,
{
    if k <= 0 {
        (0, 0)
    } else {
        let prev = best_average_upto(stats, k - 1);
        let avg = worker_total(stats, k - 1) / (stats.len() as int);
        if avg > prev.1 {
            (k - 1, avg)
        } else {
            prev
        }
    }
}

pub proof fn lemma_worker_total_nonneg(stats: Seq<DailyStats>, w: int)
    ensures
        worker_total(stats, w) >= 0,
    decreases stats.len(),
{
    if stats.len() > 0 {
        lemma_worker_total_nonneg(stats.drop_last(), w);
    }
}

pub proof fn lemma_worker_total_prefix_le(stats: Seq<DailyStats>, k: int, w: int)
    requires
        0 <= k <= stats.len(),
    ensures
        worker_total(stats.take(k), w) <= worker_total(stats, w),
    decreases stats.len(),
{
    if k < stats.len() {
        lemma_worker_total_prefix_le(stats.drop_last(), k, w);
        assert(stats.drop_last().take(k) =~= stats.take(k));
    } else {
        assert(stats.take(k) =~= stats);
    }
}

/// Law of the run's totals: with no day a worker has sold nothing, and each
/// day adds that worker's sales of the day (nothing if the day has no entry
/// for them).
pub proof fn lemma_worker_total_adds_each_day(stats: Seq<DailyStats>, d: DailyStats, w: int)
    ensures
        worker_total(Seq::<DailyStats>::empty(), w) == 0,
        worker_total(stats.push(d), w) == worker_total(stats, w) + if 0 <= w
            < d.worker_stats@.len() {
            d.worker_stats@[w] as int
        } else {
            0
        },
{
    assert(stats.push(d).drop_last() =~= stats);
}

/// No later result in `results` has the id of result `i`.
pub open spec fn is_last_result_for_its_id(results: Seq<(usize, usize)>, i: int) -> bool {
    forall|j: int| i < j < results.len() ==> #[trigger] results[j].0 != results[i].0
}

/// No result in `results` has id `id`.
pub open spec fn has_no_result(results: Seq<(usize, usize)>, id: int) -> bool {
    forall|i: int| 0 <= i < results.len() ==> #[trigger] results[i].0 != id
}

/// Law of recording the day: the table has one entry per worker; a worker
/// holds the sales of the last result given for their id, and a worker
/// without a result holds nothing.
pub proof fn lemma_placed_sales_records_last_result(results: Seq<(usize, usize)>)
    requires
        forall|i: int| 0 <= i < results.len() ==> #[trigger] results[i].0 < WORKERS,
    ensures
        placed_sales(results).len() == WORKERS,
        forall|i: int|
            0 <= i < results.len() && #[trigger] is_last_result_for_its_id(results, i)
                ==> placed_sales(results)[results[i].0 as int] == results[i].1,
        forall|id: int|
            0 <= id < WORKERS && #[trigger] has_no_result(results, id) ==> placed_sales(
                results,
            )[id] == 0,
    decreases results.len(),
{
    lemma_placed_len(results);
    if results.len() == 0 {
        assert forall|id: int| 0 <= id < WORKERS implies placed_sales(results)[id] == 0 by {}
    } else {
        let n = results.len() - 1;
        let prev = results.drop_last();
        assert forall|i: int| 0 <= i < prev.len() implies #[trigger] prev[i].0 < WORKERS by {
            assert(prev[i] == results[i]);
        }
        lemma_placed_sales_records_last_result(prev);
        lemma_placed_len(prev);
        assert forall|i: int|
            0 <= i < results.len() && #[trigger] is_last_result_for_its_id(
                results,
                i,
            ) implies placed_sales(results)[results[i].0 as int] == results[i].1 by {
            if i < n {
                assert(results[n].0 != results[i].0);
                assert(prev[i] == results[i]);
                assert forall|j: int| i < j < prev.len() implies #[trigger] prev[j].0
                    != prev[i].0 by {
                    assert(prev[j] == results[j]);
                }
                assert(is_last_result_for_its_id(prev, i));
            }
        }
        assert forall|id: int|
            0 <= id < WORKERS && #[trigger] has_no_result(results, id) implies placed_sales(
            results,
        )[id] == 0 by {
            assert(results[n].0 != id);
            assert forall|i: int| 0 <= i < prev.len() implies #[trigger] prev[i].0 != id by {
                assert(prev[i] == results[i]);
            }
            assert(has_no_result(prev, id));
        }
    }
}

pub proof fn lemma_total_of_zeros(n: nat)
    ensures
        portions_total(Seq::new(n, |i: int| 0usize)) == 0,
    decreases n,
{
    if n > 0 {
        lemma_total_of_zeros((n - 1) as nat);
        assert(Seq::new(n, |i: int| 0usize).drop_last() =~= Seq::new((n - 1) as nat, |i: int| 0usize));
    }
}

/// Law of the day's sales: when every worker reports once, the portions
/// sold that day are the sum of what the workers report.
pub proof fn lemma_day_sales_are_the_reported_sales(results: Seq<(usize, usize)>)
    requires
        forall|i: int| 0 <= i < results.len() ==> #[trigger] results[i].0 < WORKERS,
        forall|i: int, j: int|
            0 <= i < j < results.len() ==> #[trigger] results[i].0 != #[trigger] results[j].0,
    ensures
        portions_total(placed_sales(results)) == portions_total(
            results.map_values(|r: (usize, usize)| r.1),
        ),
    decreases results.len(),
{
    if results.len() > 0 {
        let n = results.len() - 1;
        let prev = results.drop_last();
        assert forall|i: int| 0 <= i < prev.len() implies #[trigger] prev[i].0 < WORKERS by {
            assert(prev[i] == results[i]);
        }
        assert forall|i: int, j: int| 0 <= i < j < prev.len() implies #[trigger] prev[i].0
            != #[trigger] prev[j].0 by {
            assert(prev[i] == results[i]);
            assert(prev[j] == results[j]);
        }
        lemma_day_sales_are_the_reported_sales(prev);
        lemma_placed_sales_records_last_result(prev);
        lemma_placed_len(prev);
        let id = results[n].0 as int;
        assert forall|i: int| 0 <= i < prev.len() implies #[trigger] prev[i].0 != id by {
            assert(prev[i] == results[i]);
        }
        assert(has_no_result(prev, id));
        assert(placed_sales(prev)[id] == 0);
        lemma_total_update(placed_sales(prev), id, results[n].1);
        let m = results.map_values(|r: (usize, usize)| r.1);
        assert(m.drop_last() =~= prev.map_values(|r: (usize, usize)| r.1));
    } else {
        lemma_total_of_zeros(WORKERS as nat);
        assert(results.map_values(|r: (usize, usize)| r.1).len() == 0);
    }
}

/// Records the results `(id, portions sold)` of the workers in a table
/// indexed by worker id.
pub fn place_worker_sales(results: &Vec<(usize, usize)>) -> (sales: Vec<usize>)
    requires
        forall|i: int| 0 <= i < results@.len() ==> #[trigger] results@[i].0 < WORKERS,
    ensures
        sales@ == placed_sales(results@),
{
    let mut sales: Vec<usize> = Vec::new();
    let mut w: usize = 0;
    while w < WORKERS
        invariant
            w <= WORKERS,
            sales@ == Seq::new(w as nat, |i: int| 0usize),
        decreases WORKERS - w,
    {
        sales.push(0);
        w = w + 1;
        assert(sales@ =~= Seq::new(w as nat, |i: int| 0usize));
    }
    let mut i: usize = 0;
    while i < results.len()
        invariant
            i <= results@.len(),
            forall|j: int| 0 <= j < results@.len() ==> #[trigger] results@[j].0 < WORKERS,
            sales@ == placed_sales(results@.take(i as int)),
        decreases results@.len() - i,
    {
        let (id, sold) = results[i];
        assert(results@.take(i + 1).drop_last() =~= results@.take(i as int));
        assert(placed_sales(results@.take(i as int)).len() == WORKERS) by {
            lemma_placed_len(results@.take(i as int));
        }
        sales.set(id, sold);
        i = i + 1;
    }
    assert(results@.take(results@.len() as int) =~= results@);
    sales
}

pub proof fn lemma_placed_len(results: Seq<(usize, usize)>)
    requires
        forall|i: int| 0 <= i < results.len() ==> #[trigger] results[i].0 < WORKERS,
    ensures
        placed_sales(results).len() == WORKERS,
    decreases results.len(),
{
    if results.len() > 0 {
        let prev = results.drop_last();
        assert forall|i: int| 0 <= i < prev.len() implies #[trigger] prev[i].0 < WORKERS by {
            assert(prev[i] == results[i]);
        }
        lemma_placed_len(prev);
    }
}

/// Law of the best worker: their sales are the largest of the day; no
/// worker is named exactly when nobody sold anything; otherwise the named
/// worker is the first whose result reaches that largest figure.
pub proof fn lemma_best_seller_sold_most(results: Seq<(usize, usize)>)
    requires
        forall|i: int| 0 <= i < results.len() ==> #[trigger] results[i].0 < WORKERS,
    ensures
        forall|i: int| 0 <= i < results.len() ==> #[trigger] results[i].1 <= best_seller(
            results,
        ).1,
        (best_seller(results).0 == NO_BEST_WORKER) <==> (best_seller(results).1 == 0),
        best_seller(results).1 > 0 ==> exists|i: int|
            0 <= i < results.len() && results[i] == best_seller(results) && forall|j: int|
                0 <= j < i ==> #[trigger] results[j].1 < best_seller(results).1,
    decreases results.len(),
{
    if results.len() > 0 {
        let prev = results.drop_last();
        lemma_best_seller_sold_most(prev);
        let n = results.len() - 1;
        assert forall|i: int| 0 <= i < results.len() implies #[trigger] results[i].1
            <= best_seller(results).1 by {
            if i < n {
                assert(results[i] == prev[i]);
            }
        }
        if best_seller(results).1 > 0 {
            if results.last().1 > best_seller(prev).1 {
                assert forall|j: int| 0 <= j < n implies #[trigger] results[j].1 < best_seller(
                    results,
                ).1 by {
                    assert(results[j] == prev[j]);
                }
            } else {
                let i = choose|i: int|
                    0 <= i < prev.len() && prev[i] == best_seller(prev) && forall|j: int|
                        0 <= j < i ==> #[trigger] prev[j].1 < best_seller(prev).1;
                assert(results[i] == prev[i]);
                assert forall|j: int| 0 <= j < i implies #[trigger] results[j].1 < best_seller(
                    results,
                ).1 by {
                    assert(results[j] == prev[j]);
                }
            }
        }
    }
}

/// Law of the best day: no day sold more than it, and, where anything was
/// sold, it names the first day with those sales.
pub proof fn lemma_best_day_sold_most(stats: Seq<DailyStats>)
    requires
        stats.len() > 0,
    ensures
        0 <= best_day(stats).0 < stats.len(),
        forall|d: int| 0 <= d < stats.len() ==> #[trigger] stats[d].portions_sold <= best_day(
            stats,
        ).1,
        best_day(stats).1 > 0 ==> stats[best_day(stats).0].portions_sold == best_day(stats).1,
        forall|d: int| 0 <= d < best_day(stats).0 ==> #[trigger] stats[d].portions_sold
            < best_day(stats).1,
    decreases stats.len(),
{
    let prev = stats.drop_last();
    if prev.len() > 0 {
        lemma_best_day_sold_most(prev);
        let b = best_day(prev).0;
        assert(stats[b] == prev[b]);
    } else {
        assert(best_day(prev) == (0int, 0usize));
    }
    let n = stats.len() - 1;
    assert forall|d: int| 0 <= d < stats.len() implies #[trigger] stats[d].portions_sold
        <= best_day(stats).1 by {
        if d < n {
            assert(stats[d] == prev[d]);
        }
    }
    assert forall|d: int| 0 <= d < best_day(stats).0 implies #[trigger] stats[d].portions_sold
        < best_day(stats).1 by {
        assert(stats[d] == prev[d]);
    }
}

/// Law of the best worker of the run: no worker among the first `k` sold
/// more per day, and, where anyone sold, the one named is the first with
/// that average.
pub proof fn lemma_best_average_is_highest(stats: Seq<DailyStats>, k: int)
    requires
        stats.len() > 0,
        k >= 0,
    ensures
        k > 0 ==> 0 <= best_average_upto(stats, k).0 < k,
        best_average_upto(stats, k).1 >= 0,
        forall|w: int|
            0 <= w < k ==> #[trigger] worker_total(stats, w) / (stats.len() as int)
                <= best_average_upto(stats, k).1,
        best_average_upto(stats, k).1 > 0 ==> worker_total(stats, best_average_upto(stats, k).0)
            / (stats.len() as int) == best_average_upto(stats, k).1,
        forall|w: int|
            0 <= w < best_average_upto(stats, k).0 ==> #[trigger] worker_total(stats, w) / (
            stats.len() as int) < best_average_upto(stats, k).1,
    decreases k,
{
    if k > 0 {
        lemma_best_average_is_highest(stats, k - 1);
    }
}

/// Law of the leftovers: every worker takes home the same share and the
/// best worker also the remainder, which together is every portion left.
pub proof fn lemma_leftovers_shared_out(portions_left: int)
    requires
        portions_left >= 0,
    ensures
        (WORKERS - 1) * (portions_left / 6) + (portions_left / 6 + portions_left % 6)
            == portions_left,
        0 <= portions_left % 6 < WORKERS,
{
}

impl Bakery {
    /// A bakery with no day behind it.
    pub fn new() -> (b: Bakery)
        ensures
            b.stats@.len() == 0,
    {
        Bakery { stats: Vec::new() }
    }

    /// Closes the day: records each worker's results `(id, portions sold)`,
    /// given in the order the workers were started, and what is left on
    /// the tray, and works out the figures announced for the day.
    pub fn gather_daily_stats(&mut self, results: &Vec<(usize, usize)>, tray: &CakeTray) -> (report:
        DayReport)
        requires
            forall|i: int| 0 <= i < results@.len() ==> #[trigger] results@[i].0 < WORKERS,
            portions_total(placed_sales(results@)) <= usize::MAX,
            portions_total(tray@) <= usize::MAX,
        ensures
            report.portions_sold == portions_total(placed_sales(results@)),
            report.portions_left == portions_total(tray@),
            report.best_worker == best_seller(results@).0,
            report.divided_portions == report.portions_left / 6,
            report.portions_remainder == report.portions_left % 6,
            final(self).stats@.len() == old(self).stats@.len() + 1,
            forall|i: int|
                0 <= i < old(self).stats@.len() ==> #[trigger] final(self).stats@[i] == old(
                    self,
                ).stats@[i],
            final(self).stats@.last().portions_sold == report.portions_sold,
            final(self).stats@.last().portions_left == report.portions_left,
            final(self).stats@.last().worker_stats@ == placed_sales(results@),
    {
        let worker_stats = place_worker_sales(results);
        let mut best_worker: usize = NO_BEST_WORKER;
        let mut current_best_sales: usize = 0;
        let mut i: usize = 0;
        while i < results.len()
            invariant
                i <= results@.len(),
                (best_worker, current_best_sales) == best_seller(results@.take(i as int)),
            decreases results@.len() - i,
        {
            let (id, portions_sold) = results[i];
            assert(results@.take(i + 1).drop_last() =~= results@.take(i as int));
            if portions_sold > current_best_sales {
                best_worker = id;
                current_best_sales = portions_sold;
            }
            i = i + 1;
        }
        assert(results@.take(results@.len() as int) =~= results@);
        let portions_sold = sum_sales(&worker_stats);
        let portions_left = match tray.total_portions() {
            Some(t) => t,
            None => 0,
        };
        let divided_portions = portions_left / 6;
        let portions_remainder = portions_left % 6;
        self.stats.push(DailyStats { portions_sold, portions_left, worker_stats });
        DayReport {
            portions_sold,
            portions_left,
            best_worker,
            divided_portions,
            portions_remainder,
        }
    }

    /// Works out the figures of the whole run: the first day with the most
    /// portions sold, and the worker with the best sales per day, the
    /// average taken over every day and rounded down.
    pub fn general_stats(&self) -> (report: FinalReport)
        requires
            self.stats@.len() > 0,
            forall|d: int|
                0 <= d < self.stats@.len() ==> #[trigger] self.stats@[d].worker_stats@.len()
                    <= WORKERS,
            forall|w: int| 0 <= w < WORKERS ==> #[trigger] worker_total(self.stats@, w) <= usize::MAX,
        ensures
            report.best_day_index == best_day(self.stats@).0,
            report.most_portions_sold == best_day(self.stats@).1,
            report.best_worker == best_average_upto(self.stats@, WORKERS as int).0,
            report.best_average == best_average_upto(self.stats@, WORKERS as int).1,
    {
        let num_days = self.stats.len();
        let mut best_day_index: usize = 0;
        let mut most_portions_sold: usize = 0;
        let mut index: usize = 0;
        while index < num_days
            invariant
                num_days == self.stats@.len(),
                index <= num_days,
                (best_day_index as int, most_portions_sold) == best_day(
                    self.stats@.take(index as int),
                ),
            decreases num_days - index,
        {
            assert(self.stats@.take(index + 1).drop_last() =~= self.stats@.take(index as int));
            if self.stats[index].portions_sold > most_portions_sold {
                most_portions_sold = self.stats[index].portions_sold;
                best_day_index = index;
            }
            index = index + 1;
        }
        assert(self.stats@.take(num_days as int) =~= self.stats@);

        let mut total_worker_sales: Vec<usize> = Vec::new();
        let mut w: usize = 0;
        while w < WORKERS
            invariant
                w <= WORKERS,
                total_worker_sales@.len() == w,
                forall|k: int| 0 <= k < w ==> #[trigger] total_worker_sales@[k] == 0,
            decreases WORKERS - w,
        {
            total_worker_sales.push(0);
            w = w + 1;
        }
        let mut day: usize = 0;
        while day < num_days
            invariant
                num_days == self.stats@.len(),
                day <= num_days,
                total_worker_sales@.len() == WORKERS,
                forall|d: int|
                    0 <= d < self.stats@.len() ==> #[trigger] self.stats@[d].worker_stats@.len()
                        <= WORKERS,
                forall|k: int|
                    0 <= k < WORKERS ==> #[trigger] worker_total(self.stats@, k) <= usize::MAX,
                forall|k: int|
                    0 <= k < WORKERS ==> #[trigger] total_worker_sales@[k] == worker_total(
                        self.stats@.take(day as int),
                        k,
                    ),
            decreases num_days - day,
        {
            let ghost before = total_worker_sales@;
            let ghost prefix = self.stats@.take(day as int);
            let ghost next = self.stats@.take(day + 1);
            assert(next.drop_last() =~= prefix);
            proof {
                assert forall|k: int| 0 <= k < WORKERS implies worker_total(next, k)
                    <= usize::MAX by {
                    lemma_worker_total_prefix_le(self.stats@, day + 1, k);
                }
            }
            let row = &self.stats[day].worker_stats;
            let mut id: usize = 0;
            while id < row.len()
                invariant
                    row@.len() <= WORKERS,
                    id <= row@.len(),
                    total_worker_sales@.len() == WORKERS,
                    row@ == next.last().worker_stats@,
                    forall|k: int|
                        0 <= k < WORKERS ==> #[trigger] worker_total(next, k) <= usize::MAX,
                    forall|k: int|
                        0 <= k < WORKERS ==> #[trigger] total_worker_sales@[k] == worker_total(
                            prefix,
                            k,
                        ) + if k < id {
                            row@[k] as int
                        } else {
                            0
                        },
                    forall|k: int|
                        0 <= k < WORKERS ==> worker_total(next, k) == worker_total(prefix, k)
                            + if k < row@.len() {
                            row@[k] as int
                        } else {
                            0
                        },
                decreases row@.len() - id,
            {
                assert(total_worker_sales@[id as int] + row@[id as int] <= worker_total(
                    next,
                    id as int,
                )) by {
                    lemma_worker_total_nonneg(prefix, id as int);
                }
                let t = total_worker_sales[id] + row[id];
                total_worker_sales.set(id, t);
                id = id + 1;
            }
            day = day + 1;
        }
        assert(self.stats@.take(num_days as int) =~= self.stats@);

        let mut best_worker: usize = 0;
        let mut best_average: usize = 0;
        let mut id: usize = 0;
        while id < WORKERS
            invariant
                num_days == self.stats@.len(),
                num_days > 0,
                id <= WORKERS,
                total_worker_sales@.len() == WORKERS,
                forall|k: int|
                    0 <= k < WORKERS ==> #[trigger] total_worker_sales@[k] == worker_total(
                        self.stats@,
                        k,
                    ),
                (best_worker as int, best_average as int) == best_average_upto(
                    self.stats@,
                    id as int,
                ),
            decreases WORKERS - id,
        {
            let average_sold = total_worker_sales[id] / num_days;
            if average_sold > best_average {
                best_average = average_sold;
                best_worker = id;
            }
            id = id + 1;
        }
        FinalReport { best_day_index, most_portions_sold, best_worker, best_average }
    }
}

/// The sum of `v`, which must fit in a `usize`.
fn sum_sales(v: &Vec<usize>) -> (s: usize)
    requires
        portions_total(v@) <= usize::MAX,
    ensures
        s == portions_total(v@),
{
    let mut s: usize = 0;
    let mut i: usize = 0;
    while i < v.len()
        invariant
            i <= v@.len(),
            portions_total(v@) <= usize::MAX,
            s == portions_total(v@.take(i as int)),
        decreases v@.len() - i,
    {
        proof {
            lemma_total_push(v@.take(i as int), v@[i as int]);
            assert(v@.take(i as int).push(v@[i as int]) =~= v@.take(i + 1));
            lemma_total_prefix_le(v@, i + 1);
        }
        s = s + v[i];
        i = i + 1;
    }
    assert(v@.take(v@.len() as int) =~= v@);
    s
}

} // verus!
