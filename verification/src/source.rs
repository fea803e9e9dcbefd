//! The row source: an in-memory workbook opened with calamine.
//!
//! Opening the workbook and reading its cells is the one trusted boundary of
//! the library. Which byte buffers open, and what cell text they hold, are
//! functions of the bytes alone, named below; everything that follows the
//! read is verified against those names.

use vstd::prelude::*;
use std::io::Cursor;
use calamine::{Reader, Xlsx};
use crate::aggregate::aggregate_rows;
use crate::model::{spec_department_stats, spec_monthly_stats, spec_row_errors};
use crate::stats::{AggError, AggregationResult};

verus! {

/// Whether the byte buffer opens as a workbook with a readable first sheet.
pub uninterp spec fn source_readable(data: Seq<u8>) -> bool;

/// The cells of the workbook's first sheet, row by row, each cell as its
/// display text. The first row is the header.
pub uninterp spec fn sheet_cells(data: Seq<u8>) -> Seq<Seq<Seq<char>>>;

/// Relies on calamine: `Xlsx::new` over an in-memory cursor parses the byte
/// buffer, `Reader::worksheet_range_at(0)` yields the first sheet's cell
/// range, `Range::rows` walks its rows, and the `Display` form of `Data`
/// renders each cell as text. All of these are functions of the bytes alone.
#[verifier::external_body]
fn load_rows(data: &[u8]) -> (r: Result<Vec<Vec<String>>, AggError>)
    ensures
        r is Ok <==> source_readable(data@),
        r matches Ok(rows) ==> rows.deep_view() == sheet_cells(data@),
        r matches Err(e) ==> e == AggError::SourceUnreadable,
{
    let mut workbook = match Xlsx::new(Cursor::new(data)) {
        Ok(workbook) => workbook,
        Err(_) => return Err(AggError::SourceUnreadable),
    };
    let range = match workbook.worksheet_range_at(0) {
        Some(Ok(range)) => range,
        _ => return Err(AggError::SourceUnreadable),
    };
    Ok(range.rows().map(|row| row.iter().map(|cell| cell.to_string()).collect()).collect())
}

/// Aggregate a workbook, given as raw bytes, into the monthly series, the
/// department breakdown, and the report of skipped rows.
///
/// Fails exactly when the bytes do not open as a workbook with a readable
/// first sheet, or when the sheet holds more rows than the `u32` counters of
/// the statistics can tell apart.
pub fn aggregate(data: &[u8]) -> (r: Result<AggregationResult, AggError>)
    ensures
        r is Ok <==> source_readable(data@) && sheet_cells(data@).len() <= u32::MAX,
        r matches Ok(result) ==> result.monthly_stats.deep_view() == spec_monthly_stats(
            sheet_cells(data@),
        ) && result.department_stats.deep_view() == spec_department_stats(sheet_cells(data@))
            && result.row_errors.deep_view() == spec_row_errors(sheet_cells(data@)),
        r matches Err(e) ==> e == AggError::SourceUnreadable,
{
    let rows = match load_rows(data) {
        Ok(rows) => rows,
        Err(e) => return Err(e),
    };
    proof {
        assert(rows@.len() == rows.deep_view().len());
    }
    if rows.len() > (u32::MAX as usize) {
        return Err(AggError::SourceUnreadable);
    }
    Ok(aggregate_rows(&rows))
}

} // verus!
