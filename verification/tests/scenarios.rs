use dbtools::classify::{classify, TypeTag};
use dbtools::csv::{read_csv, write_csv};
use dbtools::dump::read_dump;
use dbtools::files::table_name_of;
use dbtools::json::{read_json, write_json, JsonStyle};
use dbtools::report::{find_issues, Issue, IssueKind};
use dbtools::sql::write_sql;
use dbtools::table::{Field, Table};

fn numerals(table: &Table) -> Vec<Vec<Field>> {
    let numerals: Vec<Vec<Option<String>>> =
        table.rows.iter().map(|row| row.iter().map(|raw| raw.parse::<f32>().ok().map(|v| format!("{:.2}", v))).collect()).collect();
    table.with_numerals(&numerals)
}

fn untyped(rows: Vec<Vec<String>>) -> Vec<Vec<Field>> {
    numerals(&Table { header: Vec::new(), rows, tags: Vec::new() })
}

#[test]
fn csv_to_typed_json_lines() {
    let table = read_csv("id,name,active\n1,Alice,true\n", ",");
    let style = JsonStyle { tz: false, native: false, array: false, keep_blank: false, wrap_id: false };
    let out = write_json(&table.header, &numerals(&table), style);
    assert_eq!(out, "{\"id\":1.00,\"name\":\"Alice\",\"active\":true}\n");
}

#[test]
fn typed_json_lines_to_sql_dump() {
    let text = "{\"_id\":{\"$oid\":\"abc123\"},\"created\":{\"$date\":\"2016-01-01T00:00:00.000Z\"}}\n";
    let table = read_json(text, false, true).unwrap();
    let out = write_sql(&table_name_of("people.json"), &table.header, &numerals(&table), "", None, false);
    assert!(out.contains("`_id` VARCHAR(24)"));
    assert!(out.contains("`created` TIMESTAMP"));
    assert!(out.contains("INSERT INTO `people` VALUES (\n\"abc123\",\n\"2016-01-01 00:00:00\");"));
    assert!(!out.contains(".000"));
}

#[test]
fn number_with_trailing_text_is_written_as_zero() {
    assert_eq!(classify("42xyz"), TypeTag::Number);
    assert_eq!(classify("123abc"), TypeTag::Number);
    let rows = untyped(vec![vec!["42xyz".to_string(), "123abc".to_string()]]);
    assert_eq!(rows[0][0].numeral, None);
    let header = vec!["a".to_string(), "b".to_string()];
    let style = JsonStyle { tz: false, native: true, array: false, keep_blank: false, wrap_id: false };
    assert_eq!(write_json(&header, &rows, style), "{\"a\":0.00,\"b\":0.00}\n");
    assert_eq!(write_csv(&header, &rows, ","), "a,b\n0.00,0.00\n");
    assert!(write_sql("t", &header, &rows, "", None, false).contains("0.00,\n0.00);"));
    assert_eq!(
        find_issues(&rows),
        vec![
            Issue { row: 0, column: 0, kind: IssueKind::ParseFailure },
            Issue { row: 0, column: 1, kind: IssueKind::ParseFailure },
        ]
    );
}

#[test]
fn sql_dump_to_csv() {
    let text = "CREATE TABLE `t` (\n`id` INT,\n`name` TEXT,\n`seen` DATETIME\n);\n\
INSERT INTO `t` VALUES (1,'Alice','2016-01-01 10:20:30');\n\
INSERT INTO `t` VALUES (2,'Bob','2016-01-02 10:20:30');\n";
    let table = read_dump(text, true);
    let out = write_csv(&table.header, &numerals(&table), ",");
    assert_eq!(
        out,
        "id,name,seen\n1.00,Alice,2016-01-01T10:20:30.000Z\n2.00,Bob,2016-01-02T10:20:30.000Z\n"
    );
}

#[test]
fn sql_dump_to_typed_json_array() {
    let text = "CREATE TABLE `t` (\n`id` INT,\n`ok` BOOL\n);\nINSERT INTO `t` VALUES (1,TRUE),(2,FALSE);\n";
    let table = read_dump(text, false);
    let style = JsonStyle { tz: false, native: true, array: true, keep_blank: false, wrap_id: false };
    let out = write_json(&table.header, &numerals(&table), style);
    assert_eq!(out, "[\n{\"id\":1.00,\"ok\":true},\n{\"id\":2.00,\"ok\":false}\n]\n");
}

#[test]
fn typed_json_lines_to_csv() {
    let text = "{\"_id\":{\"$oid\":\"a1\"},\"n\":3,\"ok\":false,\"when\":{\"$date\":\"2016-01-01T10:20:30.000Z\"}}\n";
    let table = read_json(text, false, true).unwrap();
    let out = write_csv(&table.header, &numerals(&table), ";");
    assert_eq!(out, "_id;n;ok;when\nObjectId(a1);3.00;false;2016-01-01T10:20:30.000+0000\n");
    let table = read_json(text, true, false).unwrap();
    let out = write_csv(&table.header, &numerals(&table), ";");
    assert_eq!(out, "_id;n;ok;when\na1;3.00;false;2016-01-01T10:20:30.000Z\n");
}

#[test]
fn csv_to_sql_dump() {
    let table = read_csv("id,description,joined\n7,tall,2016-01-01T10:20:30.000Z\n", ",");
    let out = write_sql("in", &table.header, &numerals(&table), "shop", None, false);
    assert_eq!(
        out,
        "USE `shop`;\n\
DROP TABLE IF EXISTS `in`;\n\
CREATE TABLE IF NOT EXISTS `in` (\n\
`id` NUMERIC(15, 2),\n\
`description` VARCHAR(100),\n\
`joined` TIMESTAMP);\n\
\n\
INSERT INTO `in` VALUES (\n\
7.00,\n\
\"tall\",\n\
\"2016-01-01 10:20:30\");\n"
    );
}

#[test]
fn typed_json_lines_keep_their_columns_in_the_order_written() {
    let text = "{\"name\":\"Alice\",\"id\":-7,\"zip\":\"02134\"}\n{\"name\":\"Bob\",\"id\":8,\"zip\":\"10001\"}\n";
    let table = read_json(text, false, true).unwrap();
    assert_eq!(table.header, vec!["name", "id", "zip"]);
    let out = write_csv(&table.header, &numerals(&table), ",");
    assert_eq!(out, "name,id,zip\nAlice,-7.00,02134\nBob,8.00,10001\n");
    let out = write_sql("people", &table.header, &numerals(&table), "", None, false);
    assert!(out.contains("(\n`name` VARCHAR(50),\n`id` NUMERIC(15, 2),\n`zip` VARCHAR(50));"));
}
