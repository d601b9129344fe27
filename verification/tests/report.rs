use dbtools::report::{check_field, check_row, enforce, find_issues, Issue, IssueKind, Policy};
use dbtools::table::Field;

fn field(raw: &str) -> Field {
    let numeral = raw.parse::<f32>().ok().map(|v| format!("{:.2}", v));
    Field { raw: raw.to_string(), numeral, tag: None, absent: false }
}

fn row(v: &[&str]) -> Vec<Field> {
    v.iter().map(|s| field(s)).collect()
}

#[test]
fn a_number_without_numeral_is_a_parse_failure() {
    assert_eq!(check_field(&field("42xyz")), Some(IssueKind::ParseFailure));
    assert_eq!(check_field(&field("42")), None);
    assert_eq!(check_field(&field("1e3")), None);
}

#[test]
fn a_timestamp_without_date_time_is_malformed() {
    assert_eq!(check_field(&field("2016-01-01 notes")), Some(IssueKind::MalformedTimestamp));
    assert_eq!(check_field(&field("2016-01-01")), Some(IssueKind::MalformedTimestamp));
    assert_eq!(check_field(&field("2016-01-01 10:20:30")), None);
}

#[test]
fn other_fields_have_no_issue() {
    assert_eq!(check_field(&field("")), None);
    assert_eq!(check_field(&field("abc")), None);
    assert_eq!(check_field(&field("true")), None);
    assert_eq!(check_field(&field("ObjectId(x)")), None);
}

#[test]
fn issues_are_listed_row_by_row() {
    let rows = vec![
        row(&["1", "2016-01-01", "x"]),
        row(&[]),
        row(&["2x", "ok", "3y", "2016-01-01T00:00:00"]),
    ];
    assert_eq!(
        find_issues(&rows),
        vec![
            Issue { row: 0, column: 1, kind: IssueKind::MalformedTimestamp },
            Issue { row: 2, column: 0, kind: IssueKind::ParseFailure },
            Issue { row: 2, column: 2, kind: IssueKind::ParseFailure },
        ]
    );
    assert_eq!(find_issues(&vec![]), vec![]);
}

fn raws(rows: &Vec<Vec<Field>>) -> Vec<Vec<String>> {
    rows.iter().map(|r| r.iter().map(|f| f.raw.clone()).collect()).collect()
}

#[test]
fn a_clean_row_has_no_issue() {
    assert!(check_row(&row(&["1", "x", "2016-01-01 10:20:30"])));
    assert!(check_row(&row(&[])));
    assert!(!check_row(&row(&["1", "2x"])));
    assert!(!check_row(&row(&["2016-01-01"])));
}

#[test]
fn lenient_keeps_every_row() {
    let rows = vec![row(&["1"]), row(&["2x"]), row(&["2016-01-01"])];
    let kept = enforce(&rows, Policy::Lenient).unwrap();
    assert_eq!(raws(&kept), raws(&rows));
    assert_eq!(kept[1][0].numeral, None);
    assert_eq!(kept[0][0].numeral, Some("1.00".to_string()));
}

#[test]
fn skip_rows_leaves_out_the_rows_with_issues() {
    let rows = vec![row(&["1", "a"]), row(&["2x", "b"]), row(&["3", "2016-01-01"]), row(&["4", "d"])];
    let kept = enforce(&rows, Policy::SkipRows).unwrap();
    assert_eq!(raws(&kept), vec![vec!["1", "a"], vec!["4", "d"]]);
}

#[test]
fn fail_returns_the_issues() {
    let rows = vec![row(&["1", "a"]), row(&["2x", "b"])];
    assert_eq!(
        enforce(&rows, Policy::Fail).unwrap_err(),
        vec![Issue { row: 1, column: 0, kind: IssueKind::ParseFailure }]
    );
    let clean = vec![row(&["1", "a"]), row(&["2", "b"])];
    assert_eq!(raws(&enforce(&clean, Policy::Fail).unwrap()), raws(&clean));
}

#[test]
fn an_absent_field_has_no_issue() {
    let absent = Field { raw: "12x".to_string(), numeral: None, tag: None, absent: true };
    assert_eq!(check_field(&absent), None);
    assert!(check_row(&vec![absent]));
}
