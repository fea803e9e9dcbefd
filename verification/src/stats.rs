//! Output records of the aggregation and its errors.
//!
//! The exec types carry `String` keys and `u32` counts; their deep views are
//! the mathematical records of the model, over which every contract is stated.
//! The monthly closure rate is `closed / requests * 100` and is left to the
//! caller to derive: the library guarantees `1 <= requests` and
//! `closed <= requests` for every emitted entry, so the rate lies in
//! `[0, 100]`.

use vstd::prelude::*;

verus! {

/// The mathematical record behind a [`MonthlyStat`].
pub ghost struct MonthlyView {
    pub month: Seq<char>,
    pub requests: int,
    pub closed: int,
}

/// The mathematical record behind a [`DepartmentStat`].
pub ghost struct GroupView {
    pub department: Seq<char>,
    pub status: Seq<char>,
    pub month: Seq<char>,
    pub count: int,
}

/// The mathematical record behind a [`RowError`].
pub ghost struct RowErrorView {
    pub row_index: int,
    pub kind: RowErrorKind,
}

/// Why a data row was skipped.
#[derive(Clone, Copy, Debug, PartialEq, Eq, Structural)]
pub enum RowErrorKind {
    /// The row has fewer than ten cells, so a required column is missing.
    MalformedRow,
    /// The timestamp cell has no whitespace-delimited token of at least seven
    /// characters, so no month key can be derived.
    MalformedDate,
}

/// A data row that was skipped, with its zero-based index in the sheet
/// (the header row is index zero).
pub struct RowError {
    pub row_index: usize,
    pub kind: RowErrorKind,
}

impl View for RowError {
    type V = RowErrorView;

    open spec fn view(&self) -> RowErrorView {
        RowErrorView { row_index: self.row_index as int, kind: self.kind }
    }
}

impl DeepView for RowError {
    type V = RowErrorView;

    open spec fn deep_view(&self) -> RowErrorView {
        self.view()
    }
}

/// One month of the request series: how many requests the month saw and how
/// many of them carry the closed status.
pub struct MonthlyStat {
    pub month: String,
    pub requests: u32,
    pub closed: u32,
}

impl View for MonthlyStat {
    type V = MonthlyView;

    open spec fn view(&self) -> MonthlyView {
        MonthlyView {
            month: self.month@,
            requests: self.requests as int,
            closed: self.closed as int,
        }
    }
}

impl DeepView for MonthlyStat {
    type V = MonthlyView;

    open spec fn deep_view(&self) -> MonthlyView {
        self.view()
    }
}

/// One department-by-status-by-month bucket and its row count.
pub struct DepartmentStat {
    pub department: String,
    pub status: String,
    pub month: String,
    pub count: u32,
}

impl View for DepartmentStat {
    type V = GroupView;

    open spec fn view(&self) -> GroupView {
        GroupView {
            department: self.department@,
            status: self.status@,
            month: self.month@,
            count: self.count as int,
        }
    }
}

impl DeepView for DepartmentStat {
    type V = GroupView;

    open spec fn deep_view(&self) -> GroupView {
        self.view()
    }
}

/// The complete outcome of one aggregation run.
pub struct AggregationResult {
    /// One entry per distinct month, ordered by month ascending.
    pub monthly_stats: Vec<MonthlyStat>,
    /// One entry per distinct (department, status, month) triple, in order of
    /// first appearance in the sheet.
    pub department_stats: Vec<DepartmentStat>,
    /// The skipped rows, in sheet order.
    pub row_errors: Vec<RowError>,
}

/// The fatal error of an aggregation run: the byte buffer does not open as a
/// workbook with a readable first sheet.
#[derive(Clone, Copy, Debug, PartialEq, Eq, Structural)]
pub enum AggError {
    SourceUnreadable,
}

} // verus!
