//! The mathematical model of the aggregation pipeline.
//!
//! A sheet is a sequence of rows; a row is a sequence of cells; a cell is its
//! display text, a sequence of characters. Row zero is the header and carries
//! no data. The spec functions here define, for every prefix of the sheet,
//! the derived month keys, the per-key counts, the skipped rows, and the
//! sorted monthly series; the executable pipeline is proved to return exactly
//! these values.

use vstd::prelude::*;
use crate::dates::month_of;
use crate::stats::{GroupView, MonthlyView, RowErrorKind, RowErrorView};

verus! {

/// Column positions of the three fields a row contributes.
pub open spec fn timestamp_column() -> int {
    9
}

pub open spec fn status_column() -> int {
    2
}

pub open spec fn department_column() -> int {
    7
}

/// A row reaches every required column when it has at least ten cells.
pub open spec fn row_well_formed(row: Seq<Seq<char>>) -> bool {
    row.len() >= 10
}

pub open spec fn row_timestamp(row: Seq<Seq<char>>) -> Seq<char> {
    row[timestamp_column()]
}

pub open spec fn row_status(row: Seq<Seq<char>>) -> Seq<char> {
    row[status_column()]
}

pub open spec fn row_department(row: Seq<Seq<char>>) -> Seq<char> {
    row[department_column()]
}

/// The status text that marks a request as closed.
pub open spec fn closed_marker() -> Seq<char> {
    seq!['\u{c885}', '\u{b8cc}']
}

/// The month key of a row: derivable only when the row is well formed and its
/// timestamp yields a key.
pub open spec fn row_month(row: Seq<Seq<char>>) -> Option<Seq<char>> {
    if row_well_formed(row) {
        month_of(row_timestamp(row))
    } else {
        None
    }
}

/// The grouping key of a derivable row.
pub ghost struct GroupKeyView {
    pub department: Seq<char>,
    pub status: Seq<char>,
    pub month: Seq<char>,
}

pub open spec fn row_group_key(row: Seq<Seq<char>>) -> GroupKeyView {
    GroupKeyView {
        department: row_department(row),
        status: row_status(row),
        month: row_month(row)->Some_0,
    }
}

/// How many data rows among the first `n` rows derive the month key `m`.
pub open spec fn month_total_upto(rows: Seq<Seq<Seq<char>>>, m: Seq<char>, n: int) -> int
    decreases n,
{
    if n <= 1 {
        0
    } else {
        month_total_upto(rows, m, n - 1) + if row_month(rows[n - 1]) == Some(m) {
            1int
        } else {
            0int
        }
    }
}

/// How many of those rows additionally carry the closed status.
pub open spec fn month_closed_upto(rows: Seq<Seq<Seq<char>>>, m: Seq<char>, n: int) -> int
    decreases n,
{
    if n <= 1 {
        0
    } else {
        month_closed_upto(rows, m, n - 1) + if row_month(rows[n - 1]) == Some(m)
            && row_status(rows[n - 1]) == closed_marker() {
            1int
        } else {
            0int
        }
    }
}

/// The distinct month keys of the first `n` rows, in order of first
/// appearance.
pub open spec fn month_keys_upto(rows: Seq<Seq<Seq<char>>>, n: int) -> Seq<Seq<char>>
    decreases n,
{
    if n <= 1 {
        Seq::empty()
    } else {
        let p = month_keys_upto(rows, n - 1);
        match row_month(rows[n - 1]) {
            Some(m) => if p.contains(m) {
                p
            } else {
                p.push(m)
            },
            None => p,
        }
    }
}

/// How many data rows among the first `n` rows fall into group `k`.
pub open spec fn group_count_upto(rows: Seq<Seq<Seq<char>>>, k: GroupKeyView, n: int) -> int
    decreases n,
{
    if n <= 1 {
        0
    } else {
        group_count_upto(rows, k, n - 1) + if row_month(rows[n - 1]) is Some
            && row_group_key(rows[n - 1]) == k {
            1int
        } else {
            0int
        }
    }
}

/// The distinct grouping keys of the first `n` rows, in order of first
/// appearance.
pub open spec fn group_keys_upto(rows: Seq<Seq<Seq<char>>>, n: int) -> Seq<GroupKeyView>
    decreases n,
{
    if n <= 1 {
        Seq::empty()
    } else {
        let p = group_keys_upto(rows, n - 1);
        if row_month(rows[n - 1]) is Some {
            let k = row_group_key(rows[n - 1]);
            if p.contains(k) {
                p
            } else {
                p.push(k)
            }
        } else {
            p
        }
    }
}

/// The skipped rows among the first `n` rows, in sheet order: a row without
/// ten cells is malformed; a well-formed row without a derivable month key has
/// a malformed date.
pub open spec fn errors_upto(rows: Seq<Seq<Seq<char>>>, n: int) -> Seq<RowErrorView>
    decreases n,
{
    if n <= 1 {
        Seq::empty()
    } else {
        let p = errors_upto(rows, n - 1);
        let row = rows[n - 1];
        if !row_well_formed(row) {
            p.push(RowErrorView { row_index: n - 1, kind: RowErrorKind::MalformedRow })
        } else if month_of(row_timestamp(row)) is None {
            p.push(RowErrorView { row_index: n - 1, kind: RowErrorKind::MalformedDate })
        } else {
            p
        }
    }
}

/// The unsorted monthly series of the first `n` rows: one record per distinct
/// month key, in order of first appearance.
pub open spec fn monthly_pre(rows: Seq<Seq<Seq<char>>>, n: int) -> Seq<MonthlyView> {
    month_keys_upto(rows, n).map_values(
        |m: Seq<char>|
            MonthlyView {
                month: m,
                requests: month_total_upto(rows, m, n),
                closed: month_closed_upto(rows, m, n),
            },
    )
}

/// Lexicographic order on character sequences, by code point. On `YYYY-MM`
/// month keys this coincides with chronological order.
pub open spec fn lex_le(a: Seq<char>, b: Seq<char>) -> bool
    decreases a.len(),
{
    if a.len() == 0 {
        true
    } else if b.len() == 0 {
        false
    } else if (a[0] as u32) < (b[0] as u32) {
        true
    } else if (b[0] as u32) < (a[0] as u32) {
        false
    } else {
        lex_le(a.drop_first(), b.drop_first())
    }
}

/// The lexicographic order is total.
pub proof fn lemma_lex_le_total(a: Seq<char>, b: Seq<char>)
    ensures
        lex_le(a, b) || lex_le(b, a),
    decreases a.len(),
{
    if a.len() > 0 && b.len() > 0 && !((a[0] as u32) < (b[0] as u32)) && !((b[0] as u32) < (a[0]
        as u32)) {
        lemma_lex_le_total(a.drop_first(), b.drop_first());
    }
}

/// The lexicographic order is transitive.
pub proof fn lemma_lex_le_trans(a: Seq<char>, b: Seq<char>, c: Seq<char>)
    requires
        lex_le(a, b),
        lex_le(b, c),
    ensures
        lex_le(a, c),
    decreases a.len(),
{
    if a.len() > 0 {
        assert(b.len() > 0);
        assert(c.len() > 0);
        if (a[0] as u32) == (b[0] as u32) && (b[0] as u32) == (c[0] as u32) {
            lemma_lex_le_trans(a.drop_first(), b.drop_first(), c.drop_first());
        }
    }
}

/// Insert one monthly record into a series sorted by month.
pub open spec fn insert_by_month(s: Seq<MonthlyView>, e: MonthlyView) -> Seq<MonthlyView>
    decreases s.len(),
{
    if s.len() == 0 {
        seq![e]
    } else if lex_le(e.month, s[0].month) {
        seq![e] + s
    } else {
        seq![s[0]] + insert_by_month(s.drop_first(), e)
    }
}

/// Sort a monthly series by month, ascending.
pub open spec fn sort_by_month(s: Seq<MonthlyView>) -> Seq<MonthlyView>
    decreases s.len(),
{
    if s.len() == 0 {
        s
    } else {
        insert_by_month(sort_by_month(s.drop_last()), s.last())
    }
}

/// The monthly series of the whole sheet, ordered by month ascending.
pub open spec fn spec_monthly_stats(rows: Seq<Seq<Seq<char>>>) -> Seq<MonthlyView> {
    sort_by_month(monthly_pre(rows, rows.len() as int))
}

/// The department breakdown of the first `n` rows: one record per distinct
/// grouping key, in order of first appearance.
pub open spec fn department_pre(rows: Seq<Seq<Seq<char>>>, n: int) -> Seq<GroupView> {
    group_keys_upto(rows, n).map_values(
        |k: GroupKeyView|
            GroupView {
                department: k.department,
                status: k.status,
                month: k.month,
                count: group_count_upto(rows, k, n),
            },
    )
}

/// The department breakdown of the whole sheet.
pub open spec fn spec_department_stats(rows: Seq<Seq<Seq<char>>>) -> Seq<GroupView> {
    department_pre(rows, rows.len() as int)
}

/// The skipped rows of the whole sheet, in sheet order.
pub open spec fn spec_row_errors(rows: Seq<Seq<Seq<char>>>) -> Seq<RowErrorView> {
    errors_upto(rows, rows.len() as int)
}

/// A month's counts over a prefix are bounded by the number of data rows in
/// it, and its closed count never exceeds its request count.
pub proof fn lemma_month_counts_bound(rows: Seq<Seq<Seq<char>>>, m: Seq<char>, n: int)
    ensures
        0 <= month_closed_upto(rows, m, n) <= month_total_upto(rows, m, n),
        month_total_upto(rows, m, n) <= if n <= 1 {
            0int
        } else {
            n - 1
        },
    decreases n,
{
    if n > 1 {
        lemma_month_counts_bound(rows, m, n - 1);
    }
}

/// A group's count over a prefix is bounded by the number of data rows in it.
pub proof fn lemma_group_count_bound(rows: Seq<Seq<Seq<char>>>, k: GroupKeyView, n: int)
    ensures
        0 <= group_count_upto(rows, k, n) <= if n <= 1 {
            0int
        } else {
            n - 1
        },
    decreases n,
{
    if n > 1 {
        lemma_group_count_bound(rows, k, n - 1);
    }
}

/// The month keys of a prefix are distinct.
pub proof fn lemma_month_keys_distinct(rows: Seq<Seq<Seq<char>>>, n: int)
    ensures
        month_keys_upto(rows, n).no_duplicates(),
    decreases n,
{
    if n > 1 {
        lemma_month_keys_distinct(rows, n - 1);
        let p = month_keys_upto(rows, n - 1);
        match row_month(rows[n - 1]) {
            Some(m) => {
                if !p.contains(m) {
                    assert forall|a: int, b: int|
                        0 <= a < p.push(m).len() && 0 <= b < p.push(m).len() && a != b implies p.push(
                        m,
                    )[a] != p.push(m)[b] by {
                        if a < p.len() && b < p.len() {
                        } else if a < p.len() {
                            assert(p[a] == p.push(m)[a]);
                        } else if b < p.len() {
                            assert(p[b] == p.push(m)[b]);
                        }
                    }
                }
            },
            None => {},
        }
    }
}

/// The grouping keys of a prefix are distinct.
pub proof fn lemma_group_keys_distinct(rows: Seq<Seq<Seq<char>>>, n: int)
    ensures
        group_keys_upto(rows, n).no_duplicates(),
    decreases n,
{
    if n > 1 {
        lemma_group_keys_distinct(rows, n - 1);
        let p = group_keys_upto(rows, n - 1);
        if row_month(rows[n - 1]) is Some {
            let k = row_group_key(rows[n - 1]);
            if !p.contains(k) {
                assert forall|a: int, b: int|
                    0 <= a < p.push(k).len() && 0 <= b < p.push(k).len() && a != b implies p.push(
                    k,
                )[a] != p.push(k)[b] by {
                    if a < p.len() && b < p.len() {
                    } else if a < p.len() {
                        assert(p[a] == p.push(k)[a]);
                    } else if b < p.len() {
                        assert(p[b] == p.push(k)[b]);
                    }
                }
            }
        }
    }
}

/// A month key that never appears in a prefix has zero counts over it.
pub proof fn lemma_absent_month_zero(rows: Seq<Seq<Seq<char>>>, m: Seq<char>, n: int)
    requires
        !month_keys_upto(rows, n).contains(m),
    ensures
        month_total_upto(rows, m, n) == 0,
        month_closed_upto(rows, m, n) == 0,
    decreases n,
{
    if n > 1 {
        let p = month_keys_upto(rows, n - 1);
        match row_month(rows[n - 1]) {
            Some(mm) => {
                if p.contains(m) {
                    let j = choose|j: int| 0 <= j < p.len() && p[j] == m;
                    if p.contains(mm) {
                        assert(month_keys_upto(rows, n)[j] == m);
                    } else {
                        assert(p.push(mm)[j] == m);
                    }
                    assert(false);
                }
                lemma_absent_month_zero(rows, m, n - 1);
                if mm == m {
                    if p.contains(mm) {
                        assert(month_keys_upto(rows, n).contains(m));
                    } else {
                        assert(p.push(mm)[p.len() as int] == m);
                    }
                    assert(false);
                }
            },
            None => {
                lemma_absent_month_zero(rows, m, n - 1);
            },
        }
    }
}

/// A grouping key that never appears in a prefix has a zero count over it.
pub proof fn lemma_absent_group_zero(rows: Seq<Seq<Seq<char>>>, k: GroupKeyView, n: int)
    requires
        !group_keys_upto(rows, n).contains(k),
    ensures
        group_count_upto(rows, k, n) == 0,
    decreases n,
{
    if n > 1 {
        let p = group_keys_upto(rows, n - 1);
        if row_month(rows[n - 1]) is Some {
            let kk = row_group_key(rows[n - 1]);
            if p.contains(k) {
                let j = choose|j: int| 0 <= j < p.len() && p[j] == k;
                if p.contains(kk) {
                    assert(group_keys_upto(rows, n)[j] == k);
                } else {
                    assert(p.push(kk)[j] == k);
                }
                assert(false);
            }
            lemma_absent_group_zero(rows, k, n - 1);
            if kk == k {
                if p.contains(kk) {
                    assert(group_keys_upto(rows, n).contains(k));
                } else {
                    assert(p.push(kk)[p.len() as int] == k);
                }
                assert(false);
            }
        } else {
            lemma_absent_group_zero(rows, k, n - 1);
        }
    }
}

/// A month key that appears in a prefix was derived from at least one row.
pub proof fn lemma_present_month_positive(rows: Seq<Seq<Seq<char>>>, m: Seq<char>, n: int)
    requires
        month_keys_upto(rows, n).contains(m),
    ensures
        month_total_upto(rows, m, n) >= 1,
    decreases n,
{
    if n > 1 {
        let p = month_keys_upto(rows, n - 1);
        lemma_month_counts_bound(rows, m, n - 1);
        if row_month(rows[n - 1]) == Some(m) {
        } else {
            // The key was already present before this row.
            if p.contains(m) {
            } else {
                match row_month(rows[n - 1]) {
                    Some(mm) => {
                        let j = choose|j: int|
                            0 <= j < month_keys_upto(rows, n).len() && month_keys_upto(rows, n)[j]
                                == m;
                        if p.contains(mm) {
                            assert(p[j] == m);
                        } else {
                            assert(p.push(mm)[j] == m);
                            assert(j < p.len());  // m != mm
                            assert(p[j] == m);
                        }
                        assert(false);
                    },
                    None => {
                        assert(false);
                    },
                }
            }
            lemma_present_month_positive(rows, m, n - 1);
        }
    }
}

} // verus!
