//! Properties of the aggregation, proved once and for all:
//! the result is a function of the row data alone; the monthly request counts
//! account exactly for the rows whose month key was derivable; every monthly
//! record counts at least one request and closes at most as many as it
//! counts; and, for each month, the department breakdown's counts sum to that
//! month's request count.

use vstd::prelude::*;
use crate::model::{
    department_pre, group_count_upto, group_keys_upto, insert_by_month, lemma_absent_group_zero,
    lemma_absent_month_zero, lemma_group_keys_distinct, lemma_lex_le_total, lemma_lex_le_trans,
    lemma_month_counts_bound, lemma_month_keys_distinct, lemma_present_month_positive, lex_le,
    month_keys_upto, month_total_upto, monthly_pre, row_group_key, row_month, sort_by_month,
    spec_department_stats, spec_monthly_stats, spec_row_errors, GroupKeyView,
};
use crate::stats::{GroupView, MonthlyView, RowErrorView};

verus! {

/// The total of the request counts of a monthly series.
pub open spec fn sum_requests(s: Seq<MonthlyView>) -> int
    decreases s.len(),
{
    if s.len() == 0 {
        0
    } else {
        sum_requests(s.drop_last()) + s.last().requests
    }
}

/// How many of the first `n` rows derive a month key.
pub open spec fn derivable_count_upto(rows: Seq<Seq<Seq<char>>>, n: int) -> int
    decreases n,
{
    if n <= 1 {
        0
    } else {
        derivable_count_upto(rows, n - 1) + if row_month(rows[n - 1]) is Some {
            1int
        } else {
            0int
        }
    }
}

/// The total of the counts of the department records that fall in month `m`.
pub open spec fn sum_department_counts(s: Seq<GroupView>, m: Seq<char>) -> int
    decreases s.len(),
{
    if s.len() == 0 {
        0
    } else {
        sum_department_counts(s.drop_last(), m) + if s.last().month == m {
            s.last().count
        } else {
            0int
        }
    }
}

proof fn lemma_sum_requests_congruent(s1: Seq<MonthlyView>, s2: Seq<MonthlyView>)
    requires
        s1.len() == s2.len(),
        forall|j: int| 0 <= j < s1.len() ==> s1[j].requests == s2[j].requests,
    ensures
        sum_requests(s1) == sum_requests(s2),
    decreases s1.len(),
{
    if s1.len() > 0 {
        lemma_sum_requests_congruent(s1.drop_last(), s2.drop_last());
    }
}

proof fn lemma_sum_requests_prepend(e: MonthlyView, s: Seq<MonthlyView>)
    ensures
        sum_requests(seq![e] + s) == e.requests + sum_requests(s),
    decreases s.len(),
{
    if s.len() == 0 {
        assert(seq![e] + s =~= seq![e]);
        assert(seq![e].drop_last() =~= Seq::<MonthlyView>::empty());
        assert(seq![e].last() == e);
        assert(sum_requests(seq![e]) == sum_requests(seq![e].drop_last()) + e.requests);
        assert(sum_requests(seq![e].drop_last()) == 0);
        assert(sum_requests(s) == 0);
    } else {
        assert((seq![e] + s).drop_last() =~= seq![e] + s.drop_last());
        assert((seq![e] + s).last() == s.last());
        lemma_sum_requests_prepend(e, s.drop_last());
        assert(sum_requests(seq![e] + s) == sum_requests(seq![e] + s.drop_last())
            + s.last().requests);
        assert(sum_requests(s) == sum_requests(s.drop_last()) + s.last().requests);
    }
}

proof fn lemma_sum_requests_insert(s: Seq<MonthlyView>, e: MonthlyView)
    ensures
        sum_requests(insert_by_month(s, e)) == sum_requests(s) + e.requests,
    decreases s.len(),
{
    if s.len() == 0 {
        lemma_sum_requests_prepend(e, Seq::empty());
        assert(seq![e] + Seq::<MonthlyView>::empty() =~= seq![e]);
    } else if lex_le(e.month, s[0].month) {
        lemma_sum_requests_prepend(e, s);
    } else {
        lemma_sum_requests_insert(s.drop_first(), e);
        lemma_sum_requests_prepend(s[0], insert_by_month(s.drop_first(), e));
        lemma_sum_requests_prepend(s[0], s.drop_first());
        assert(seq![s[0]] + s.drop_first() =~= s);
    }
}

proof fn lemma_sum_requests_sort(s: Seq<MonthlyView>)
    ensures
        sum_requests(sort_by_month(s)) == sum_requests(s),
    decreases s.len(),
{
    if s.len() > 0 {
        lemma_sum_requests_sort(s.drop_last());
        lemma_sum_requests_insert(sort_by_month(s.drop_last()), s.last());
    }
}

proof fn lemma_sum_requests_bump(s1: Seq<MonthlyView>, s2: Seq<MonthlyView>, idx: int)
    requires
        s1.len() == s2.len(),
        0 <= idx < s1.len(),
        forall|j: int| 0 <= j < s1.len() && j != idx ==> s1[j].requests == s2[j].requests,
        s2[idx].requests == s1[idx].requests + 1,
    ensures
        sum_requests(s2) == sum_requests(s1) + 1,
    decreases s1.len(),
{
    if idx == s1.len() - 1 {
        lemma_sum_requests_congruent(s1.drop_last(), s2.drop_last());
    } else {
        lemma_sum_requests_bump(s1.drop_last(), s2.drop_last(), idx);
    }
}

proof fn lemma_monthly_pre_sum(rows: Seq<Seq<Seq<char>>>, n: int)
    ensures
        sum_requests(monthly_pre(rows, n)) == derivable_count_upto(rows, n),
    decreases n,
{
    if n <= 1 {
        assert(monthly_pre(rows, n) =~= Seq::<MonthlyView>::empty());
    } else {
        lemma_monthly_pre_sum(rows, n - 1);
        let p = monthly_pre(rows, n - 1);
        let q = monthly_pre(rows, n);
        let keys = month_keys_upto(rows, n - 1);
        match row_month(rows[n - 1]) {
            None => {
                assert(month_keys_upto(rows, n) == keys);
                assert(q.len() == p.len());
                assert(forall|j: int| 0 <= j < p.len() ==> p[j].requests == #[trigger] q[j].requests)
                    by {
                    assert(forall|k: Seq<char>| #[trigger] month_total_upto(rows, k, n)
                        == month_total_upto(rows, k, n - 1));
                }
                lemma_sum_requests_congruent(p, q);
            },
            Some(m) => {
                assert(forall|k: Seq<char>| k != m ==> #[trigger] month_total_upto(rows, k, n)
                    == month_total_upto(rows, k, n - 1));
                assert(month_total_upto(rows, m, n) == month_total_upto(rows, m, n - 1) + 1);
                if keys.contains(m) {
                    assert(month_keys_upto(rows, n) == keys);
                    let idx = choose|idx: int| 0 <= idx < keys.len() && keys[idx] == m;
                    lemma_month_keys_distinct(rows, n - 1);
                    assert(forall|j: int| 0 <= j < keys.len() && j != idx ==> #[trigger] keys[j]
                        != m);
                    assert(q[idx].requests == p[idx].requests + 1);
                    assert(forall|j: int| 0 <= j < p.len() && j != idx ==> p[j].requests
                        == #[trigger] q[j].requests);
                    lemma_sum_requests_bump(p, q, idx);
                } else {
                    assert(month_keys_upto(rows, n) == keys.push(m));
                    lemma_absent_month_zero(rows, m, n - 1);
                    assert(q.len() == p.len() + 1);
                    assert(forall|j: int| 0 <= j < keys.len() ==> #[trigger] keys.push(m)[j]
                        == keys[j]);
                    assert(q.drop_last().len() == p.len());
                    assert(forall|j: int| 0 <= j < p.len() ==> p[j].requests
                        == #[trigger] q.drop_last()[j].requests) by {
                        assert(forall|j: int| 0 <= j < p.len() ==> #[trigger] keys[j] != m);
                    }
                    lemma_sum_requests_congruent(p, q.drop_last());
                    assert(q.last().requests == 1);
                }
            },
        }
    }
}

/// The monthly series accounts exactly for the rows whose month key was
/// derivable: the request counts of `spec_monthly_stats` sum to the number of
/// data rows that derived a month key.
pub proof fn lemma_requests_account_for_rows(rows: Seq<Seq<Seq<char>>>)
    ensures
        sum_requests(spec_monthly_stats(rows)) == derivable_count_upto(rows, rows.len() as int),
{
    lemma_sum_requests_sort(monthly_pre(rows, rows.len() as int));
    lemma_monthly_pre_sum(rows, rows.len() as int);
}

proof fn lemma_insert_member(s: Seq<MonthlyView>, e: MonthlyView, j: int)
    requires
        0 <= j < insert_by_month(s, e).len(),
    ensures
        insert_by_month(s, e)[j] == e || s.contains(insert_by_month(s, e)[j]),
    decreases s.len(),
{
    if s.len() == 0 {
    } else if lex_le(e.month, s[0].month) {
        if j > 0 {
            assert(insert_by_month(s, e)[j] == s[j - 1]);
        }
    } else {
        if j > 0 {
            lemma_insert_member(s.drop_first(), e, j - 1);
            if insert_by_month(s, e)[j] != e {
                let v = insert_by_month(s, e)[j];
                assert(s.drop_first().contains(v));
                let t = choose|t: int| 0 <= t < s.drop_first().len() && s.drop_first()[t] == v;
                assert(s[t + 1] == v);
            }
        } else {
            assert(insert_by_month(s, e)[0] == s[0]);
        }
    }
}

proof fn lemma_sort_member(s: Seq<MonthlyView>, j: int)
    requires
        0 <= j < sort_by_month(s).len(),
    ensures
        s.contains(sort_by_month(s)[j]),
    decreases s.len(),
{
    if s.len() > 0 {
        let v = sort_by_month(s)[j];
        lemma_insert_member(sort_by_month(s.drop_last()), s.last(), j);
        if v == s.last() {
            assert(s[s.len() - 1] == v);
        } else {
            let t = choose|t: int|
                0 <= t < sort_by_month(s.drop_last()).len() && sort_by_month(s.drop_last())[t]
                    == v;
            lemma_sort_member(s.drop_last(), t);
            let u = choose|u: int| 0 <= u < s.drop_last().len() && s.drop_last()[u] == v;
            assert(s[u] == v);
        }
    }
}

/// Every emitted monthly record counts at least one request, and closes at
/// most as many requests as it counts; its closure rate, the percentage
/// `closed / requests * 100`, therefore lies between 0 and 100.
pub proof fn lemma_monthly_stat_bounds(rows: Seq<Seq<Seq<char>>>, j: int)
    requires
        0 <= j < spec_monthly_stats(rows).len(),
    ensures
        1 <= spec_monthly_stats(rows)[j].requests,
        0 <= spec_monthly_stats(rows)[j].closed <= spec_monthly_stats(rows)[j].requests,
{
    let nn = rows.len() as int;
    let pre = monthly_pre(rows, nn);
    let v = spec_monthly_stats(rows)[j];
    lemma_sort_member(pre, j);
    let t = choose|t: int| 0 <= t < pre.len() && pre[t] == v;
    let keys = month_keys_upto(rows, nn);
    assert(keys.contains(keys[t]));
    lemma_present_month_positive(rows, keys[t], nn);
    lemma_month_counts_bound(rows, keys[t], nn);
}

proof fn lemma_group_sum_congruent(s1: Seq<GroupView>, s2: Seq<GroupView>, m: Seq<char>)
    requires
        s1.len() == s2.len(),
        forall|j: int| 0 <= j < s1.len() ==> s1[j].month == s2[j].month && s1[j].count
            == s2[j].count,
    ensures
        sum_department_counts(s1, m) == sum_department_counts(s2, m),
    decreases s1.len(),
{
    if s1.len() > 0 {
        lemma_group_sum_congruent(s1.drop_last(), s2.drop_last(), m);
    }
}

proof fn lemma_group_sum_bump(s1: Seq<GroupView>, s2: Seq<GroupView>, idx: int, m: Seq<char>)
    requires
        s1.len() == s2.len(),
        0 <= idx < s1.len(),
        forall|j: int| 0 <= j < s1.len() && j != idx ==> s1[j].month == s2[j].month && s1[j].count
            == s2[j].count,
        s2[idx].month == s1[idx].month,
        s2[idx].count == s1[idx].count + 1,
    ensures
        sum_department_counts(s2, m) == sum_department_counts(s1, m) + if s1[idx].month == m {
            1int
        } else {
            0int
        },
    decreases s1.len(),
{
    if idx == s1.len() - 1 {
        lemma_group_sum_congruent(s1.drop_last(), s2.drop_last(), m);
    } else {
        lemma_group_sum_bump(s1.drop_last(), s2.drop_last(), idx, m);
    }
}

proof fn lemma_department_pre_month_sum(rows: Seq<Seq<Seq<char>>>, m: Seq<char>, n: int)
    ensures
        sum_department_counts(department_pre(rows, n), m) == month_total_upto(rows, m, n),
    decreases n,
{
    if n <= 1 {
        assert(department_pre(rows, n) =~= Seq::<GroupView>::empty());
    } else {
        lemma_department_pre_month_sum(rows, m, n - 1);
        let p = department_pre(rows, n - 1);
        let q = department_pre(rows, n);
        let keys = group_keys_upto(rows, n - 1);
        match row_month(rows[n - 1]) {
            None => {
                assert(group_keys_upto(rows, n) == keys);
                assert(forall|j: int| 0 <= j < p.len() ==> p[j].month == #[trigger] q[j].month
                    && p[j].count == q[j].count) by {
                    assert(forall|k: GroupKeyView| #[trigger] group_count_upto(rows, k, n)
                        == group_count_upto(rows, k, n - 1));
                }
                lemma_group_sum_congruent(p, q, m);
                assert(month_total_upto(rows, m, n) == month_total_upto(rows, m, n - 1));
            },
            Some(mm) => {
                let gk = row_group_key(rows[n - 1]);
                assert(gk.month == mm);
                assert(forall|k: GroupKeyView| k != gk ==> #[trigger] group_count_upto(rows, k, n)
                    == group_count_upto(rows, k, n - 1));
                assert(group_count_upto(rows, gk, n) == group_count_upto(rows, gk, n - 1) + 1);
                assert(month_total_upto(rows, m, n) == month_total_upto(rows, m, n - 1) + if mm
                    == m {
                    1int
                } else {
                    0int
                });
                if keys.contains(gk) {
                    assert(group_keys_upto(rows, n) == keys);
                    let idx = choose|idx: int| 0 <= idx < keys.len() && keys[idx] == gk;
                    lemma_group_keys_distinct(rows, n - 1);
                    assert(forall|j: int| 0 <= j < keys.len() && j != idx ==> #[trigger] keys[j]
                        != gk);
                    assert(forall|j: int| 0 <= j < p.len() && j != idx ==> p[j].month
                        == #[trigger] q[j].month && p[j].count == q[j].count);
                    assert(q[idx].month == gk.month && q[idx].count == p[idx].count + 1);
                    lemma_group_sum_bump(p, q, idx, m);
                    assert(p[idx].month == mm);
                } else {
                    assert(group_keys_upto(rows, n) == keys.push(gk));
                    lemma_absent_group_zero(rows, gk, n - 1);
                    assert(q.len() == p.len() + 1);
                    assert(forall|j: int| 0 <= j < keys.len() ==> #[trigger] keys.push(gk)[j]
                        == keys[j]);
                    assert(forall|j: int| 0 <= j < p.len() ==> p[j].month
                        == #[trigger] q.drop_last()[j].month && p[j].count == q.drop_last()[j].count)
                        by {
                        assert(forall|j: int| 0 <= j < p.len() ==> #[trigger] keys[j] != gk);
                    }
                    lemma_group_sum_congruent(p, q.drop_last(), m);
                    assert(q.last().month == mm && q.last().count == 1);
                }
            },
        }
    }
}

/// For every emitted monthly record, the department records of its month sum
/// to exactly its request count.
pub proof fn lemma_department_counts_match_monthly(rows: Seq<Seq<Seq<char>>>, j: int)
    requires
        0 <= j < spec_monthly_stats(rows).len(),
    ensures
        sum_department_counts(spec_department_stats(rows), spec_monthly_stats(rows)[j].month)
            == spec_monthly_stats(rows)[j].requests,
{
    let nn = rows.len() as int;
    let pre = monthly_pre(rows, nn);
    let v = spec_monthly_stats(rows)[j];
    lemma_sort_member(pre, j);
    let t = choose|t: int| 0 <= t < pre.len() && pre[t] == v;
    lemma_department_pre_month_sum(rows, v.month, nn);
}

/// A monthly series whose months ascend in lexicographic order.
pub open spec fn monthly_sorted(s: Seq<MonthlyView>) -> bool {
    forall|i: int, j: int| 0 <= i < j < s.len() ==> lex_le(s[i].month, s[j].month)
}

proof fn lemma_insert_keeps_sorted(s: Seq<MonthlyView>, e: MonthlyView)
    requires
        monthly_sorted(s),
    ensures
        monthly_sorted(insert_by_month(s, e)),
    decreases s.len(),
{
    if s.len() == 0 {
    } else if lex_le(e.month, s[0].month) {
        let r = seq![e] + s;
        assert forall|i: int, j: int| 0 <= i < j < r.len() implies lex_le(r[i].month, r[j].month)
            by {
            if i == 0 {
                if j > 1 {
                    lemma_lex_le_trans(e.month, s[0].month, s[j - 1].month);
                }
            }
        }
    } else {
        lemma_lex_le_total(e.month, s[0].month);
        let rest = insert_by_month(s.drop_first(), e);
        assert(forall|i: int, j: int|
            0 <= i < j < s.drop_first().len() ==> lex_le(
                #[trigger] s.drop_first()[i].month,
                #[trigger] s.drop_first()[j].month,
            ));
        lemma_insert_keeps_sorted(s.drop_first(), e);
        let r = seq![s[0]] + rest;
        assert forall|i: int, j: int| 0 <= i < j < r.len() implies lex_le(r[i].month, r[j].month)
            by {
            if i == 0 {
                let v = rest[j - 1];
                lemma_insert_member(s.drop_first(), e, j - 1);
                if v == e {
                    assert(lex_le(s[0].month, e.month));
                } else {
                    let t = choose|t: int|
                        0 <= t < s.drop_first().len() && s.drop_first()[t] == v;
                    assert(s[t + 1] == v);
                    assert(lex_le(s[0].month, s[t + 1].month));
                }
            }
        }
    }
}

proof fn lemma_sort_sorted(s: Seq<MonthlyView>)
    ensures
        monthly_sorted(sort_by_month(s)),
    decreases s.len(),
{
    if s.len() > 0 {
        lemma_sort_sorted(s.drop_last());
        lemma_insert_keeps_sorted(sort_by_month(s.drop_last()), s.last());
    }
}

/// The monthly series is ordered by month, ascending: on `YYYY-MM` keys the
/// lexicographic order coincides with chronological order.
pub proof fn lemma_monthly_stats_sorted(rows: Seq<Seq<Seq<char>>>)
    ensures
        monthly_sorted(spec_monthly_stats(rows)),
{
    lemma_sort_sorted(monthly_pre(rows, rows.len() as int));
}

/// The aggregation is deterministic: its outcome is a function of the row
/// data alone, so any two results of the aggregation contract on the same
/// rows are equal, and running the pipeline twice on the same sheet yields
/// equal results.
pub proof fn lemma_aggregation_deterministic(
    rows: Seq<Seq<Seq<char>>>,
    monthly1: Seq<MonthlyView>,
    department1: Seq<GroupView>,
    reported1: Seq<RowErrorView>,
    monthly2: Seq<MonthlyView>,
    department2: Seq<GroupView>,
    reported2: Seq<RowErrorView>,
)
    requires
        monthly1 == spec_monthly_stats(rows),
        department1 == spec_department_stats(rows),
        reported1 == spec_row_errors(rows),
        monthly2 == spec_monthly_stats(rows),
        department2 == spec_department_stats(rows),
        reported2 == spec_row_errors(rows),
    ensures
        monthly1 == monthly2,
        department1 == department2,
        reported1 == reported2,
{
}

} // verus!
