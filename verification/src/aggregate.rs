//! The aggregation pipeline: a single pass over the data rows folds them into
//! month and group accumulators, the monthly series is then sorted by month,
//! and both are projected into the output records. Every step is proved to
//! compute exactly the model of [`crate::model`].

use vstd::prelude::*;
use crate::dates::derive_month_key;
use crate::model::{
    closed_marker, errors_upto, group_count_upto, group_keys_upto, insert_by_month,
    lemma_absent_group_zero, lemma_absent_month_zero, lemma_group_count_bound,
    lemma_group_keys_distinct, lemma_month_counts_bound, lemma_month_keys_distinct, lex_le,
    month_closed_upto, month_keys_upto, month_total_upto, monthly_pre, sort_by_month,
    spec_department_stats, spec_monthly_stats, spec_row_errors, GroupKeyView,
};
use crate::stats::{
    AggregationResult, DepartmentStat, GroupView, MonthlyStat, MonthlyView, RowError, RowErrorKind,
};

verus! {

/// The running counts of one month.
struct MonthAcc {
    key: String,
    total: u32,
    closed: u32,
}

/// The running count of one (department, status, month) group.
struct GroupAcc {
    department: String,
    status: String,
    month: String,
    count: u32,
}

spec fn month_acc_view(a: MonthAcc) -> MonthlyView {
    MonthlyView { month: a.key@, requests: a.total as int, closed: a.closed as int }
}

spec fn group_acc_key(g: GroupAcc) -> GroupKeyView {
    GroupKeyView { department: g.department@, status: g.status@, month: g.month@ }
}

/// The status text that marks a request as closed.
pub fn closed_status_marker() -> (r: String)
    ensures
        r@ == closed_marker(),
{
    let r = String::from_str("\u{c885}\u{b8cc}");
    proof {
        reveal_strlit("\u{c885}\u{b8cc}");
        assert(r@ =~= closed_marker());
    }
    r
}

/// Lexicographic comparison of two strings by code point.
fn lex_le_exec(a: &str, b: &str) -> (r: bool)
    ensures
        r == lex_le(a@, b@),
{
    let an = a.unicode_len();
    let bn = b.unicode_len();
    let mut i: usize = 0;
    proof {
        assert(a@.skip(0) =~= a@);
        assert(b@.skip(0) =~= b@);
    }
    loop
        invariant
            i <= an,
            i <= bn,
            an == a@.len(),
            bn == b@.len(),
            lex_le(a@, b@) == lex_le(a@.skip(i as int), b@.skip(i as int)),
        decreases an - i,
    {
        if i == an {
            proof {
                assert(a@.skip(i as int) =~= Seq::<char>::empty());
            }
            return true;
        }
        if i == bn {
            proof {
                assert(b@.skip(i as int) =~= Seq::<char>::empty());
                assert(a@.skip(i as int).len() > 0);
            }
            return false;
        }
        let ca = a.get_char(i);
        let cb = b.get_char(i);
        proof {
            assert(a@.skip(i as int)[0] == ca);
            assert(b@.skip(i as int)[0] == cb);
        }
        if (ca as u32) < (cb as u32) {
            return true;
        }
        if (cb as u32) < (ca as u32) {
            return false;
        }
        proof {
            assert(ca == cb);
            assert(a@.skip(i as int).drop_first() =~= a@.skip(i as int + 1));
            assert(b@.skip(i as int).drop_first() =~= b@.skip(i as int + 1));
        }
        i = i + 1;
    }
}

/// Find the accumulator of a month key, if one exists.
fn find_month(months: &Vec<MonthAcc>, key: &String) -> (r: Option<usize>)
    ensures
        r matches Some(idx) ==> idx < months@.len() && months@[idx as int].key@ == key@,
        r is None ==> forall|j: int| 0 <= j < months@.len() ==> months@[j].key@ != key@,
{
    let mut j: usize = 0;
    while j < months.len()
        invariant
            j <= months@.len(),
            forall|t: int| 0 <= t < j ==> months@[t].key@ != key@,
        decreases months@.len() - j,
    {
        if months[j].key.eq(key) {
            return Some(j);
        }
        j = j + 1;
    }
    None
}

/// Find the accumulator of a grouping key, if one exists.
fn find_group(groups: &Vec<GroupAcc>, department: &String, status: &String, month: &String) -> (r:
    Option<usize>)
    ensures
        r matches Some(idx) ==> idx < groups@.len() && group_acc_key(groups@[idx as int])
            == (GroupKeyView { department: department@, status: status@, month: month@ }),
        r is None ==> forall|j: int| 0 <= j < groups@.len() ==> #[trigger] group_acc_key(groups@[j])
            != (GroupKeyView { department: department@, status: status@, month: month@ }),
{
    let mut j: usize = 0;
    while j < groups.len()
        invariant
            j <= groups@.len(),
            forall|t: int| 0 <= t < j ==> #[trigger] group_acc_key(groups@[t]) != (GroupKeyView {
                department: department@,
                status: status@,
                month: month@,
            }),
        decreases groups@.len() - j,
    {
        if groups[j].department.eq(department) && groups[j].status.eq(status)
            && groups[j].month.eq(month) {
            return Some(j);
        }
        j = j + 1;
    }
    None
}

/// Inserting at the first position whose month is not below the new entry's
/// realises the model's sorted insertion.
proof fn lemma_insert_by_month_at(s: Seq<MonthlyView>, e: MonthlyView, idx: int)
    requires
        0 <= idx <= s.len(),
        forall|j: int| 0 <= j < idx ==> !lex_le(e.month, s[j].month),
        idx < s.len() ==> lex_le(e.month, s[idx].month),
    ensures
        insert_by_month(s, e) == s.insert(idx, e),
    decreases s.len(),
{
    if s.len() == 0 {
        assert(insert_by_month(s, e) =~= s.insert(0, e));
    } else if idx == 0 {
        assert(insert_by_month(s, e) =~= s.insert(0, e));
    } else {
        let rest = s.drop_first();
        assert(forall|j: int| 0 <= j < idx - 1 ==> rest[j] == s[j + 1]);
        lemma_insert_by_month_at(rest, e, idx - 1);
        assert(insert_by_month(s, e) =~= s.insert(idx, e));
    }
}

/// Insert one month accumulator into a vector sorted by month.
fn insert_month_sorted(sorted: &mut Vec<MonthAcc>, e: MonthAcc)
    ensures
        final(sorted)@.map_values(|a: MonthAcc| month_acc_view(a)) == insert_by_month(
            old(sorted)@.map_values(|a: MonthAcc| month_acc_view(a)),
            month_acc_view(e),
        ),
{
    let ghost s = sorted@.map_values(|a: MonthAcc| month_acc_view(a));
    let mut idx: usize = 0;
    loop
        invariant
            idx <= sorted@.len(),
            s == sorted@.map_values(|a: MonthAcc| month_acc_view(a)),
            forall|j: int| 0 <= j < idx ==> !lex_le(e.key@, sorted@[j].key@),
        ensures
            idx <= sorted@.len(),
            forall|j: int| 0 <= j < idx ==> !lex_le(e.key@, sorted@[j].key@),
            idx < sorted@.len() ==> lex_le(e.key@, sorted@[idx as int].key@),
        decreases sorted@.len() - idx,
    {
        if idx == sorted.len() {
            break;
        }
        if lex_le_exec(e.key.as_str(), sorted[idx].key.as_str()) {
            break;
        }
        idx = idx + 1;
    }
    proof {
        assert(forall|j: int| 0 <= j < s.len() ==> s[j] == month_acc_view(sorted@[j]));
        lemma_insert_by_month_at(s, month_acc_view(e), idx as int);
    }
    let ghost before = sorted@;
    sorted.insert(idx, e);
    proof {
        assert(sorted@.map_values(|a: MonthAcc| month_acc_view(a)) =~= s.insert(
            idx as int,
            month_acc_view(e),
        )) by {
            assert(sorted@ == before.insert(idx as int, e));
            assert(forall|j: int| 0 <= j < idx ==> sorted@[j] == before[j]);
            assert(sorted@[idx as int] == e);
            assert(forall|j: int| idx < j < sorted@.len() ==> sorted@[j] == before[j - 1]);
        }
    }
}

/// Aggregate the rows of a sheet, header row first, into the monthly series,
/// the department breakdown, and the report of skipped rows.
///
/// The result is exactly the model of the row data: the monthly series is
/// sorted by month ascending; the department records keep the order in which
/// their grouping keys first appear; the skipped rows are reported in sheet
/// order. The row count must fit the `u32` counters.
pub fn aggregate_rows(rows: &Vec<Vec<String>>) -> (result: AggregationResult)
    requires
        rows@.len() <= u32::MAX,
    ensures
        result.monthly_stats.deep_view() == spec_monthly_stats(rows.deep_view()),
        result.department_stats.deep_view() == spec_department_stats(rows.deep_view()),
        result.row_errors.deep_view() == spec_row_errors(rows.deep_view()),
{
    let ghost rowsv = rows.deep_view();
    proof {
        assert(rowsv.len() == rows@.len());
    }
    let marker = closed_status_marker();
    let mut months: Vec<MonthAcc> = Vec::new();
    let mut groups: Vec<GroupAcc> = Vec::new();
    let mut errors: Vec<RowError> = Vec::new();
    let n = rows.len();
    let mut i: usize = 1;
    while i < n
        invariant
            1 <= i,
            i as int <= if rowsv.len() == 0 {
                1int
            } else {
                rowsv.len() as int
            },
            rowsv == rows.deep_view(),
            rowsv.len() == rows@.len(),
            rowsv.len() <= u32::MAX,
            n == rows@.len(),
            marker@ == closed_marker(),
            months@.len() == month_keys_upto(rowsv, i as int).len(),
            forall|j: int| #![trigger months@[j]] 0 <= j < months@.len() ==> months@[j].key@
                == month_keys_upto(rowsv, i as int)[j],
            forall|j: int| #![trigger months@[j]] 0 <= j < months@.len() ==> months@[j].total as int
                == month_total_upto(rowsv, months@[j].key@, i as int),
            forall|j: int| #![trigger months@[j]] 0 <= j < months@.len() ==> months@[j].closed as int
                == month_closed_upto(rowsv, months@[j].key@, i as int),
            groups@.len() == group_keys_upto(rowsv, i as int).len(),
            forall|j: int| #![trigger groups@[j]] 0 <= j < groups@.len() ==> group_acc_key(
                groups@[j],
            ) == group_keys_upto(rowsv, i as int)[j],
            forall|j: int| #![trigger groups@[j]] 0 <= j < groups@.len() ==> groups@[j].count as int
                == group_count_upto(rowsv, group_acc_key(groups@[j]), i as int),
            errors@.len() == errors_upto(rowsv, i as int).len(),
            forall|j: int| #![trigger errors@[j]] 0 <= j < errors@.len() ==> errors@[j]@
                == errors_upto(rowsv, i as int)[j],
        decreases n - i,
    {
        let ghost i0 = i as int;
        let ghost i1 = i0 + 1;
        let row: &Vec<String> = &rows[i];
        proof {
            assert(rowsv[i0] == rows@[i0].deep_view());
            assert(rowsv[i0].len() == rows@[i0]@.len());
            assert(forall|c: int| 0 <= c < rowsv[i0].len() ==> rowsv[i0][c] == rows@[i0]@[c]@);
        }
        if row.len() < 10 {
            proof {
                assert(!crate::model::row_well_formed(rowsv[i0]));
                assert(crate::model::row_month(rowsv[i0]) is None);
                assert(month_keys_upto(rowsv, i1) == month_keys_upto(rowsv, i0));
                assert(group_keys_upto(rowsv, i1) == group_keys_upto(rowsv, i0));
                assert(forall|k: Seq<char>| #[trigger] month_total_upto(rowsv, k, i1)
                    == month_total_upto(rowsv, k, i0));
                assert(forall|k: Seq<char>| #[trigger] month_closed_upto(rowsv, k, i1)
                    == month_closed_upto(rowsv, k, i0));
                assert(forall|k: GroupKeyView| #[trigger] group_count_upto(rowsv, k, i1)
                    == group_count_upto(rowsv, k, i0));
                assert(errors_upto(rowsv, i1) == errors_upto(rowsv, i0).push(
                    crate::stats::RowErrorView { row_index: i0, kind: RowErrorKind::MalformedRow },
                ));
            }
            errors.push(RowError { row_index: i, kind: RowErrorKind::MalformedRow });
        } else {
            let ts: &String = &row[9];
            proof {
                assert(crate::model::row_well_formed(rowsv[i0]));
                assert(ts@ == crate::model::row_timestamp(rowsv[i0]));
            }
            match derive_month_key(ts.as_str()) {
                None => {
                    proof {
                        assert(crate::model::row_month(rowsv[i0]) is None);
                        assert(month_keys_upto(rowsv, i1) == month_keys_upto(rowsv, i0));
                        assert(group_keys_upto(rowsv, i1) == group_keys_upto(rowsv, i0));
                        assert(forall|k: Seq<char>| #[trigger] month_total_upto(rowsv, k, i1)
                            == month_total_upto(rowsv, k, i0));
                        assert(forall|k: Seq<char>| #[trigger] month_closed_upto(rowsv, k, i1)
                            == month_closed_upto(rowsv, k, i0));
                        assert(forall|k: GroupKeyView| #[trigger] group_count_upto(rowsv, k, i1)
                            == group_count_upto(rowsv, k, i0));
                        assert(errors_upto(rowsv, i1) == errors_upto(rowsv, i0).push(
                            crate::stats::RowErrorView {
                                row_index: i0,
                                kind: RowErrorKind::MalformedDate,
                            },
                        ));
                    }
                    errors.push(RowError { row_index: i, kind: RowErrorKind::MalformedDate });
                },
                Some(mk) => {
                    let status_ref: &String = &row[2];
                    let department_ref: &String = &row[7];
                    let is_closed = marker.eq(status_ref);
                    proof {
                        assert(crate::model::row_month(rowsv[i0]) == Some(mk@));
                        assert(status_ref@ == crate::model::row_status(rowsv[i0]));
                        assert(department_ref@ == crate::model::row_department(rowsv[i0]));
                        assert(is_closed == (crate::model::row_status(rowsv[i0])
                            == closed_marker()));
                        assert(errors_upto(rowsv, i1) == errors_upto(rowsv, i0));
                        assert(forall|k: Seq<char>| k != mk@ ==> #[trigger] month_total_upto(
                            rowsv,
                            k,
                            i1,
                        ) == month_total_upto(rowsv, k, i0));
                        assert(forall|k: Seq<char>| k != mk@ ==> #[trigger] month_closed_upto(
                            rowsv,
                            k,
                            i1,
                        ) == month_closed_upto(rowsv, k, i0));
                        assert(month_total_upto(rowsv, mk@, i1) == month_total_upto(rowsv, mk@, i0)
                            + 1);
                        assert(month_closed_upto(rowsv, mk@, i1) == month_closed_upto(
                            rowsv,
                            mk@,
                            i0,
                        ) + if is_closed {
                            1int
                        } else {
                            0int
                        });
                    }
                    let ghost months0 = months@;
                    match find_month(&months, &mk) {
                        Some(idx) => {
                            proof {
                                let p = month_keys_upto(rowsv, i0);
                                assert(p[idx as int] == mk@);
                                assert(p.contains(mk@));
                                assert(month_keys_upto(rowsv, i1) == p);
                                lemma_month_counts_bound(rowsv, mk@, i0);
                                lemma_month_keys_distinct(rowsv, i0);
                            }
                            let t0 = months[idx].total;
                            months[idx].total = t0 + 1;
                            if is_closed {
                                let c0 = months[idx].closed;
                                months[idx].closed = c0 + 1;
                            }
                            proof {
                                let p = month_keys_upto(rowsv, i0);
                                assert(months@.len() == months0.len());
                                assert(forall|j: int| #![trigger months@[j]]
                                    0 <= j < months@.len() && j != idx as int ==> months@[j]
                                        == months0[j]);
                                assert(months@[idx as int].key@ == mk@);
                                assert(forall|j: int| #![trigger p[j]]
                                    0 <= j < p.len() && j != idx as int ==> p[j] != mk@);
                            }
                        },
                        None => {
                            proof {
                                let p = month_keys_upto(rowsv, i0);
                                if p.contains(mk@) {
                                    let j = choose|j: int| 0 <= j < p.len() && p[j] == mk@;
                                    assert(months0[j].key@ == mk@);
                                    assert(false);
                                }
                                lemma_absent_month_zero(rowsv, mk@, i0);
                                assert(month_keys_upto(rowsv, i1) == p.push(mk@));
                            }
                            months.push(
                                MonthAcc {
                                    key: mk.clone(),
                                    total: 1,
                                    closed: if is_closed {
                                        1
                                    } else {
                                        0
                                    },
                                },
                            );
                            proof {
                                let p = month_keys_upto(rowsv, i0);
                                assert(forall|j: int| #![trigger months@[j]]
                                    0 <= j < months0.len() ==> months@[j] == months0[j]);
                                assert(forall|j: int| #![trigger p[j]] 0 <= j < p.len() ==> p[j]
                                    != mk@);
                                assert(months@[p.len() as int].key@ == mk@);
                            }
                        },
                    }
                    let ghost gk = (GroupKeyView {
                        department: department_ref@,
                        status: status_ref@,
                        month: mk@,
                    });
                    proof {
                        assert(crate::model::row_group_key(rowsv[i0]) == gk);
                        assert(forall|k: GroupKeyView| k != gk ==> #[trigger] group_count_upto(
                            rowsv,
                            k,
                            i1,
                        ) == group_count_upto(rowsv, k, i0));
                        assert(group_count_upto(rowsv, gk, i1) == group_count_upto(rowsv, gk, i0)
                            + 1);
                    }
                    let ghost groups0 = groups@;
                    match find_group(&groups, department_ref, status_ref, &mk) {
                        Some(gidx) => {
                            proof {
                                let p = group_keys_upto(rowsv, i0);
                                assert(p[gidx as int] == gk);
                                assert(p.contains(gk));
                                assert(group_keys_upto(rowsv, i1) == p);
                                lemma_group_count_bound(rowsv, gk, i0);
                                lemma_group_keys_distinct(rowsv, i0);
                            }
                            let c0 = groups[gidx].count;
                            groups[gidx].count = c0 + 1;
                            proof {
                                let p = group_keys_upto(rowsv, i0);
                                assert(groups@.len() == groups0.len());
                                assert(forall|j: int| #![trigger groups@[j]]
                                    0 <= j < groups@.len() && j != gidx as int ==> groups@[j]
                                        == groups0[j]);
                                assert(group_acc_key(groups@[gidx as int]) == gk);
                                assert(forall|j: int| #![trigger p[j]]
                                    0 <= j < p.len() && j != gidx as int ==> p[j] != gk);
                            }
                        },
                        None => {
                            proof {
                                let p = group_keys_upto(rowsv, i0);
                                if p.contains(gk) {
                                    let j = choose|j: int| 0 <= j < p.len() && p[j] == gk;
                                    assert(group_acc_key(groups0[j]) == gk);
                                    assert(false);
                                }
                                lemma_absent_group_zero(rowsv, gk, i0);
                                assert(group_keys_upto(rowsv, i1) == p.push(gk));
                            }
                            groups.push(
                                GroupAcc {
                                    department: department_ref.clone(),
                                    status: status_ref.clone(),
                                    month: mk.clone(),
                                    count: 1,
                                },
                            );
                            proof {
                                let p = group_keys_upto(rowsv, i0);
                                assert(forall|j: int| #![trigger groups@[j]]
                                    0 <= j < groups0.len() ==> groups@[j] == groups0[j]);
                                assert(forall|j: int| #![trigger p[j]] 0 <= j < p.len() ==> p[j]
                                    != gk);
                                assert(group_acc_key(groups@[p.len() as int]) == gk);
                            }
                        },
                    }
                },
            }
        }
        i = i + 1;
    }
    let ghost nn = rowsv.len() as int;
    proof {
        if nn == 0 {
            assert(month_keys_upto(rowsv, 0) == month_keys_upto(rowsv, 1));
            assert(group_keys_upto(rowsv, 0) == group_keys_upto(rowsv, 1));
            assert(errors_upto(rowsv, 0) == errors_upto(rowsv, 1));
        } else {
            assert(i as int == nn);
        }
    }
    let ghost pre = monthly_pre(rowsv, nn);
    proof {
        assert(months@.len() == pre.len());
        assert(forall|j: int| #![trigger months@[j]] 0 <= j < months@.len() ==> month_acc_view(
            months@[j],
        ) == pre[j]) by {
            if nn == 0 {
            } else {
                assert(forall|j: int| #![trigger months@[j]]
                    0 <= j < months@.len() ==> months@[j].key@ == month_keys_upto(rowsv, nn)[j]
                        && months@[j].total as int == month_total_upto(rowsv, months@[j].key@, nn)
                        && months@[j].closed as int == month_closed_upto(
                        rowsv,
                        months@[j].key@,
                        nn,
                    ));
            }
        }
    }
    // Sort the monthly series by month, ascending.
    let pre_len = months.len();
    let mut sorted_months: Vec<MonthAcc> = Vec::new();
    let mut k: usize = 0;
    while k < pre_len
        invariant
            k <= pre_len,
            months@.len() == pre_len - k,
            pre.len() == pre_len as int,
            forall|j: int| #![trigger months@[j]] 0 <= j < months@.len() ==> month_acc_view(
                months@[j],
            ) == pre[j + k],
            sorted_months@.map_values(|a: MonthAcc| month_acc_view(a)) == sort_by_month(
                pre.take(k as int),
            ),
        decreases pre_len - k,
    {
        let ghost months_before = months@;
        let e = months.remove(0);
        proof {
            assert(month_acc_view(e) == pre[k as int]);
            assert(forall|j: int| #![trigger months@[j]] 0 <= j < months@.len() ==> months@[j]
                == months_before[j + 1]);
        }
        insert_month_sorted(&mut sorted_months, e);
        proof {
            assert(pre.take(k as int + 1).drop_last() =~= pre.take(k as int));
            assert(pre.take(k as int + 1).last() == pre[k as int]);
            assert(sort_by_month(pre.take(k as int + 1)) == insert_by_month(
                sort_by_month(pre.take(k as int)),
                pre[k as int],
            ));
        }
        k = k + 1;
    }
    proof {
        assert(pre.take(pre.len() as int) =~= pre);
        assert(sorted_months@.map_values(|a: MonthAcc| month_acc_view(a)) == sort_by_month(pre));
    }
    // Project the accumulators into the output records.
    let mut monthly_stats: Vec<MonthlyStat> = Vec::new();
    let mut t: usize = 0;
    while t < sorted_months.len()
        invariant
            t <= sorted_months@.len(),
            sorted_months@.map_values(|a: MonthAcc| month_acc_view(a)) == sort_by_month(pre),
            monthly_stats@.len() == t,
            forall|j: int| #![trigger monthly_stats@[j]] 0 <= j < t ==> monthly_stats@[j]@
                == sort_by_month(pre)[j],
        decreases sorted_months@.len() - t,
    {
        let a = &sorted_months[t];
        proof {
            assert(month_acc_view(sorted_months@[t as int]) == sort_by_month(pre)[t as int]);
        }
        monthly_stats.push(
            MonthlyStat { month: a.key.clone(), requests: a.total, closed: a.closed },
        );
        t = t + 1;
    }
    let mut department_stats: Vec<DepartmentStat> = Vec::new();
    let ghost gkeys = group_keys_upto(rowsv, nn);
    let mut t2: usize = 0;
    while t2 < groups.len()
        invariant
            t2 <= groups@.len(),
            rowsv == rows.deep_view(),
            nn == rowsv.len() as int,
            gkeys == group_keys_upto(rowsv, nn),
            groups@.len() == gkeys.len(),
            forall|j: int| #![trigger groups@[j]] 0 <= j < groups@.len() ==> group_acc_key(
                groups@[j],
            ) == gkeys[j],
            forall|j: int| #![trigger groups@[j]] 0 <= j < groups@.len() ==> groups@[j].count as int
                == group_count_upto(rowsv, group_acc_key(groups@[j]), nn),
            department_stats@.len() == t2,
            forall|j: int| #![trigger department_stats@[j]] 0 <= j < t2 ==> department_stats@[j]@
                == spec_department_stats(rowsv)[j],
        decreases groups@.len() - t2,
    {
        let g = &groups[t2];
        proof {
            assert(group_acc_key(groups@[t2 as int]) == gkeys[t2 as int]);
            assert(spec_department_stats(rowsv)[t2 as int] == (GroupView {
                department: gkeys[t2 as int].department,
                status: gkeys[t2 as int].status,
                month: gkeys[t2 as int].month,
                count: group_count_upto(rowsv, gkeys[t2 as int], nn),
            }));
        }
        department_stats.push(
            DepartmentStat {
                department: g.department.clone(),
                status: g.status.clone(),
                month: g.month.clone(),
                count: g.count,
            },
        );
        t2 = t2 + 1;
    }
    proof {
        if nn == 0 {
            assert(monthly_pre(rowsv, 0).len() == 0);
            assert(sort_by_month(pre).len() == pre.len());
        }
        assert(monthly_stats.deep_view() =~= spec_monthly_stats(rowsv));
        assert(department_stats.deep_view() =~= spec_department_stats(rowsv));
        assert(errors.deep_view() =~= spec_row_errors(rowsv));
    }
    AggregationResult { monthly_stats, department_stats, row_errors: errors }
}

} // verus!
