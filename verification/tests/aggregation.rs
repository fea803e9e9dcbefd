use sheet_stats::aggregate::aggregate_rows;
use sheet_stats::dates::derive_month_key;
use sheet_stats::stats::RowErrorKind;

fn row10(status: &str, department: &str, timestamp: &str) -> Vec<String> {
    let mut cells = vec![String::new(); 10];
    cells[2] = status.to_string();
    cells[7] = department.to_string();
    cells[9] = timestamp.to_string();
    cells
}

fn header() -> Vec<String> {
    vec![String::from("h"); 10]
}

#[test]
fn monthly_and_department_example() {
    let rows = vec![
        header(),
        row10("종료", "A", "2024-01 10:00"),
        row10("진행", "B", "2024-01 11:00"),
        row10("종료", "A", "2024-02 09:00"),
    ];
    let r = aggregate_rows(&rows);
    assert_eq!(r.monthly_stats.len(), 2);
    assert_eq!(r.monthly_stats[0].month, "2024-01");
    assert_eq!(r.monthly_stats[0].requests, 2);
    assert_eq!(r.monthly_stats[0].closed, 1);
    assert_eq!(r.monthly_stats[1].month, "2024-02");
    assert_eq!(r.monthly_stats[1].requests, 1);
    assert_eq!(r.monthly_stats[1].closed, 1);
    let rate0 = r.monthly_stats[0].closed as f64 / r.monthly_stats[0].requests as f64 * 100.0;
    assert_eq!(rate0, 50.0);
    let rate1 = r.monthly_stats[1].closed as f64 / r.monthly_stats[1].requests as f64 * 100.0;
    assert_eq!(rate1, 100.0);
    assert_eq!(r.department_stats.len(), 3);
    let mut found = [false; 3];
    for d in &r.department_stats {
        let t = (d.department.as_str(), d.status.as_str(), d.month.as_str(), d.count);
        if t == ("A", "종료", "2024-01", 1) {
            found[0] = true;
        } else if t == ("B", "진행", "2024-01", 1) {
            found[1] = true;
        } else if t == ("A", "종료", "2024-02", 1) {
            found[2] = true;
        } else {
            panic!("unexpected department record");
        }
    }
    assert!(found[0] && found[1] && found[2]);
    assert_eq!(r.row_errors.len(), 0);
}

#[test]
fn malformed_date_reported() {
    let rows = vec![header(), row10("종료", "A", ""), row10("진행", "B", "2024-03 08:00")];
    let r = aggregate_rows(&rows);
    assert_eq!(r.row_errors.len(), 1);
    assert_eq!(r.row_errors[0].row_index, 1);
    assert!(matches!(r.row_errors[0].kind, RowErrorKind::MalformedDate));
    assert_eq!(r.monthly_stats.len(), 1);
    assert_eq!(r.monthly_stats[0].month, "2024-03");
    assert_eq!(r.monthly_stats[0].requests, 1);
    assert_eq!(r.monthly_stats[0].closed, 0);
    assert_eq!(r.department_stats.len(), 1);
    assert_eq!(r.department_stats[0].department, "B");
}

#[test]
fn malformed_row_reported() {
    let rows = vec![header(), vec![String::from("x"); 5]];
    let r = aggregate_rows(&rows);
    assert_eq!(r.row_errors.len(), 1);
    assert_eq!(r.row_errors[0].row_index, 1);
    assert!(matches!(r.row_errors[0].kind, RowErrorKind::MalformedRow));
    assert!(r.monthly_stats.is_empty());
    assert!(r.department_stats.is_empty());
}

#[test]
fn short_date_token_reported() {
    let rows = vec![header(), row10("종료", "A", "2024-1 10:00")];
    let r = aggregate_rows(&rows);
    assert_eq!(r.row_errors.len(), 1);
    assert!(matches!(r.row_errors[0].kind, RowErrorKind::MalformedDate));
    assert!(r.monthly_stats.is_empty());
}

#[test]
fn aggregate_twice_equal() {
    let rows = vec![
        header(),
        row10("종료", "A", "2024-01 10:00"),
        row10("진행", "B", "2024-01 11:00"),
        row10("종료", "A", "2024-02 09:00"),
        row10("보류", "C", "2023-12 23:59"),
        row10("종료", "A", ""),
    ];
    let r1 = aggregate_rows(&rows);
    let r2 = aggregate_rows(&rows);
    assert_eq!(r1.monthly_stats.len(), r2.monthly_stats.len());
    for (a, b) in r1.monthly_stats.iter().zip(r2.monthly_stats.iter()) {
        assert_eq!(a.month, b.month);
        assert_eq!(a.requests, b.requests);
        assert_eq!(a.closed, b.closed);
    }
    assert_eq!(r1.department_stats.len(), r2.department_stats.len());
    for (a, b) in r1.department_stats.iter().zip(r2.department_stats.iter()) {
        assert_eq!(a.department, b.department);
        assert_eq!(a.status, b.status);
        assert_eq!(a.month, b.month);
        assert_eq!(a.count, b.count);
    }
    assert_eq!(r1.row_errors.len(), r2.row_errors.len());
}

#[test]
fn months_sorted_ascending() {
    let rows = vec![
        header(),
        row10("종료", "A", "2024-03 10:00"),
        row10("진행", "B", "2023-11 11:00"),
        row10("종료", "A", "2024-01 09:00"),
    ];
    let r = aggregate_rows(&rows);
    assert_eq!(r.monthly_stats.len(), 3);
    assert_eq!(r.monthly_stats[0].month, "2023-11");
    assert_eq!(r.monthly_stats[1].month, "2024-01");
    assert_eq!(r.monthly_stats[2].month, "2024-03");
}

#[test]
fn department_counts_sum_to_monthly() {
    let rows = vec![
        header(),
        row10("종료", "A", "2024-05 10:00"),
        row10("진행", "A", "2024-05 11:00"),
        row10("진행", "B", "2024-05 12:00"),
        row10("종료", "B", "2024-06 09:00"),
        row10("종료", "B", "2024-06 09:30"),
    ];
    let r = aggregate_rows(&rows);
    for m in &r.monthly_stats {
        let total: u32 = r
            .department_stats
            .iter()
            .filter(|d| d.month == m.month)
            .map(|d| d.count)
            .sum();
        assert_eq!(total, m.requests);
        assert!(m.requests >= 1);
        assert!(m.closed <= m.requests);
    }
}

#[test]
fn requests_account_for_derivable_rows() {
    let rows = vec![
        header(),
        row10("종료", "A", "2024-05 10:00"),
        row10("진행", "B", "nope"),
        row10("진행", "B", "2024-07 12:00"),
        vec![String::from("x"); 3],
    ];
    let r = aggregate_rows(&rows);
    let total: u32 = r.monthly_stats.iter().map(|m| m.requests).sum();
    assert_eq!(total, 2);
    assert_eq!(r.row_errors.len(), 2);
}

#[test]
fn month_key_derivation_edge_cases() {
    assert_eq!(derive_month_key("2024-01 10:00").as_deref(), Some("2024-01"));
    assert_eq!(derive_month_key("   2024-08 x").as_deref(), Some("2024-08"));
    assert_eq!(derive_month_key("2024-07").as_deref(), Some("2024-07"));
    assert_eq!(derive_month_key("2024-05x rest").as_deref(), Some("2024-05"));
    assert_eq!(derive_month_key(""), None);
    assert_eq!(derive_month_key("   \t  "), None);
    assert_eq!(derive_month_key("2024-1 10:00"), None);
    assert_eq!(derive_month_key("24-1"), None);
}

#[test]
fn empty_sheet_yields_empty_result() {
    let rows: Vec<Vec<String>> = vec![];
    let r = aggregate_rows(&rows);
    assert!(r.monthly_stats.is_empty());
    assert!(r.department_stats.is_empty());
    assert!(r.row_errors.is_empty());
    let header_only = vec![header()];
    let r2 = aggregate_rows(&header_only);
    assert!(r2.monthly_stats.is_empty());
    assert!(r2.department_stats.is_empty());
    assert!(r2.row_errors.is_empty());
}

#[test]
fn department_order_is_first_appearance() {
    let rows = vec![
        header(),
        row10("진행", "B", "2024-02 10:00"),
        row10("종료", "A", "2024-01 10:00"),
        row10("진행", "B", "2024-02 11:00"),
    ];
    let r = aggregate_rows(&rows);
    assert_eq!(r.department_stats.len(), 2);
    assert_eq!(r.department_stats[0].department, "B");
    assert_eq!(r.department_stats[0].count, 2);
    assert_eq!(r.department_stats[1].department, "A");
    assert_eq!(r.department_stats[1].count, 1);
}
