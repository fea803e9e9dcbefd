use sheet_stats::source::aggregate;
use sheet_stats::stats::AggError;
use std::io::{Cursor, Write};
use zip::write::{SimpleFileOptions, ZipWriter};

const CONTENT_TYPES: &str = "<?xml version=\"1.0\" encoding=\"UTF-8\" standalone=\"yes\"?><Types xmlns=\"http://schemas.openxmlformats.org/package/2006/content-types\"><Default Extension=\"rels\" ContentType=\"application/vnd.openxmlformats-package.relationships+xml\"></Default><Default Extension=\"xml\" ContentType=\"application/xml\"></Default><Override PartName=\"/xl/workbook.xml\" ContentType=\"application/vnd.openxmlformats-officedocument.spreadsheetml.sheet.main+xml\"></Override><Override PartName=\"/xl/worksheets/sheet1.xml\" ContentType=\"application/vnd.openxmlformats-officedocument.spreadsheetml.worksheet+xml\"></Override></Types>";

const ROOT_RELS: &str = "<?xml version=\"1.0\" encoding=\"UTF-8\" standalone=\"yes\"?><Relationships xmlns=\"http://schemas.openxmlformats.org/package/2006/relationships\"><Relationship Id=\"rId1\" Type=\"http://schemas.openxmlformats.org/officeDocument/2006/relationships/officeDocument\" Target=\"xl/workbook.xml\"></Relationship></Relationships>";

const WORKBOOK: &str = "<?xml version=\"1.0\" encoding=\"UTF-8\" standalone=\"yes\"?><workbook xmlns=\"http://schemas.openxmlformats.org/spreadsheetml/2006/main\" xmlns:r=\"http://schemas.openxmlformats.org/officeDocument/2006/relationships\"><sheets><sheet name=\"Sheet1\" sheetId=\"1\" r:id=\"rId1\"></sheet></sheets></workbook>";

const WORKBOOK_RELS: &str = "<?xml version=\"1.0\" encoding=\"UTF-8\" standalone=\"yes\"?><Relationships xmlns=\"http://schemas.openxmlformats.org/package/2006/relationships\"><Relationship Id=\"rId1\" Type=\"http://schemas.openxmlformats.org/officeDocument/2006/relationships/worksheet\" Target=\"worksheets/sheet1.xml\"></Relationship></Relationships>";

fn sheet_xml(rows: &[[&str; 10]]) -> String {
    let mut s = String::from(
        "<?xml version=\"1.0\" encoding=\"UTF-8\" standalone=\"yes\"?><worksheet xmlns=\"http://schemas.openxmlformats.org/spreadsheetml/2006/main\"><sheetData>",
    );
    for (ri, row) in rows.iter().enumerate() {
        s.push_str(&format!("<row r=\"{}\">", ri + 1));
        for (ci, cell) in row.iter().enumerate() {
            let col = (b'A' + ci as u8) as char;
            s.push_str(&format!(
                "<c r=\"{}{}\" t=\"inlineStr\"><is><t>{}</t></is></c>",
                col,
                ri + 1,
                cell
            ));
        }
        s.push_str("</row>");
    }
    s.push_str("</sheetData></worksheet>");
    s
}

fn xlsx_bytes(rows: &[[&str; 10]]) -> Vec<u8> {
    let mut writer = ZipWriter::new(Cursor::new(Vec::new()));
    let opts = SimpleFileOptions::default().compression_method(zip::CompressionMethod::Stored);
    writer.start_file("[Content_Types].xml", opts).unwrap();
    writer.write_all(CONTENT_TYPES.as_bytes()).unwrap();
    writer.start_file("_rels/.rels", opts).unwrap();
    writer.write_all(ROOT_RELS.as_bytes()).unwrap();
    writer.start_file("xl/workbook.xml", opts).unwrap();
    writer.write_all(WORKBOOK.as_bytes()).unwrap();
    writer.start_file("xl/_rels/workbook.xml.rels", opts).unwrap();
    writer.write_all(WORKBOOK_RELS.as_bytes()).unwrap();
    writer.start_file("xl/worksheets/sheet1.xml", opts).unwrap();
    writer.write_all(sheet_xml(rows).as_bytes()).unwrap();
    writer.finish().unwrap().into_inner()
}

fn data_row<'a>(status: &'a str, department: &'a str, timestamp: &'a str) -> [&'a str; 10] {
    ["-", "-", status, "-", "-", "-", "-", department, "-", timestamp]
}

#[test]
fn workbook_round_trip() {
    let rows = [
        ["h"; 10],
        data_row("종료", "A", "2024-01 10:00"),
        data_row("진행", "B", "2024-01 11:00"),
        data_row("종료", "A", "2024-02 09:00"),
    ];
    let bytes = xlsx_bytes(&rows);
    let r = aggregate(&bytes).unwrap();
    assert_eq!(r.monthly_stats.len(), 2);
    assert_eq!(r.monthly_stats[0].month, "2024-01");
    assert_eq!(r.monthly_stats[0].requests, 2);
    assert_eq!(r.monthly_stats[0].closed, 1);
    assert_eq!(r.monthly_stats[1].month, "2024-02");
    assert_eq!(r.monthly_stats[1].requests, 1);
    assert_eq!(r.monthly_stats[1].closed, 1);
    assert_eq!(r.department_stats.len(), 3);
    assert_eq!(r.row_errors.len(), 0);
}

#[test]
fn workbook_with_bad_dates_reports_rows() {
    let rows = [
        ["h"; 10],
        data_row("종료", "A", "2024-01 10:00"),
        data_row("진행", "B", ""),
    ];
    let bytes = xlsx_bytes(&rows);
    let r = aggregate(&bytes).unwrap();
    assert_eq!(r.monthly_stats.len(), 1);
    assert_eq!(r.monthly_stats[0].requests, 1);
    assert_eq!(r.row_errors.len(), 1);
    assert_eq!(r.row_errors[0].row_index, 2);
}

#[test]
fn unreadable_bytes_rejected() {
    let r = aggregate(&[1u8, 2, 3, 4]);
    assert!(matches!(r, Err(AggError::SourceUnreadable)));
    let empty = aggregate(&[]);
    assert!(matches!(empty, Err(AggError::SourceUnreadable)));
}
