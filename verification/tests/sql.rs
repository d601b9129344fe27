use dbtools::json::read_json;
use dbtools::schema::ColumnType;
use dbtools::sql::{decimal_of, infer_schema, write_sql, Heading};
use dbtools::table::Field;

fn strings(v: &[&str]) -> Vec<String> {
    v.iter().map(|s| s.to_string()).collect()
}

fn field(raw: &str) -> Field {
    let numeral = raw.parse::<f32>().ok().map(|v| format!("{:.2}", v));
    Field { raw: raw.to_string(), numeral, tag: None, absent: false }
}

fn row(v: &[&str]) -> Vec<Field> {
    v.iter().map(|s| field(s)).collect()
}

fn fields(rows: &[Vec<String>]) -> Vec<Vec<Field>> {
    rows.iter().map(|r| r.iter().map(|s| field(s)).collect()).collect()
}

#[test]
fn typed_documents_become_a_script() {
    let text = "{\"_id\":{\"$oid\":\"abc123\"},\"created\":{\"$date\":\"2016-01-01T00:00:00.000Z\"}}\n";
    let table = read_json(text, true, true).unwrap();
    let out = write_sql("data", &table.header, &fields(&table.rows), "", None, false);
    assert!(out.contains("`_id` VARCHAR(24)"));
    assert!(out.contains("`created` TIMESTAMP"));
    assert_eq!(
        out,
        "DROP TABLE IF EXISTS `data`;\n\
CREATE TABLE IF NOT EXISTS `data` (\n\
`_id` VARCHAR(24),\n\
`created` TIMESTAMP);\n\
\n\
INSERT INTO `data` VALUES (\n\
\"abc123\",\n\
\"2016-01-01 00:00:00\");\n"
    );
}

#[test]
fn every_tag_has_its_column_and_its_literal() {
    let header = strings(&["id", "when", "n", "ok", "name", "description"]);
    let rows = vec![row(&["ObjectId(a1)", "2016-01-01T10:20:30.5Z", "3.14159", "true", "Bob", "tall"])];
    let out = write_sql("t", &header, &rows, "", None, false);
    assert_eq!(
        out,
        "DROP TABLE IF EXISTS `t`;\n\
CREATE TABLE IF NOT EXISTS `t` (\n\
`id` VARCHAR(24),\n\
`when` TIMESTAMP,\n\
`n` NUMERIC(15, 2),\n\
`ok` BOOLEAN,\n\
`name` VARCHAR(50),\n\
`description` VARCHAR(100));\n\
\n\
INSERT INTO `t` VALUES (\n\
\"a1\",\n\
\"2016-01-01 10:20:30\",\n\
3.14,\n\
TRUE,\n\
\"Bob\",\n\
\"tall\");\n"
    );
}

#[test]
fn the_heading_and_the_database_come_first() {
    let heading = Heading {
        source: "CSV file".to_string(),
        input: "in.csv".to_string(),
        output: "out.sql".to_string(),
        signature: "tool 1.0".to_string(),
        generated_at: "2016-01-01 00:00:00".to_string(),
    };
    let out = write_sql("in", &strings(&["a"]), &vec![row(&["1"])], "shop", Some(&heading), false);
    assert_eq!(
        out,
        "-- SQL table dump from CSV file: in (in.csv -> out.sql)\n\
-- Generated by: tool 1.0\n\
-- Generated at: 2016-01-01 00:00:00\n\
\n\
USE `shop`;\n\
DROP TABLE IF EXISTS `in`;\n\
CREATE TABLE IF NOT EXISTS `in` (\n\
`a` NUMERIC(15, 2));\n\
\n\
INSERT INTO `in` VALUES (\n\
1.00);\n"
    );
}

#[test]
fn a_table_without_rows() {
    let out = write_sql("t", &strings(&["a"]), &vec![], "", None, false);
    assert_eq!(out, "DROP TABLE IF EXISTS `t`;\nCREATE TABLE IF NOT EXISTS `t` ();\n");
}

#[test]
fn the_first_value_decides_the_column() {
    let header = strings(&["a", "b"]);
    let rows = vec![row(&["1", "x"]), row(&["y", "2"]), row(&["true", "2016-01-01"])];
    let schema = infer_schema(&header, &rows, false);
    let got: Vec<(String, ColumnType)> =
        schema.columns.into_iter().map(|c| (c.name, c.column_type)).collect();
    assert_eq!(
        got,
        vec![("a".to_string(), ColumnType::Number(2)), ("b".to_string(), ColumnType::Text(50))]
    );
    let out = write_sql("t", &header, &rows, "", None, false);
    assert_eq!(
        out,
        "DROP TABLE IF EXISTS `t`;\n\
CREATE TABLE IF NOT EXISTS `t` (\n\
`a` NUMERIC(15, 2),\n\
`b` VARCHAR(50));\n\
\n\
INSERT INTO `t` VALUES (\n\
1.00,\n\
\"x\");\n\
\n\
INSERT INTO `t` VALUES (\n\
\"y\",\n\
2.00);\n\
\n\
INSERT INTO `t` VALUES (\n\
TRUE,\n\
\"\");\n"
    );
}

#[test]
fn a_column_is_seen_when_its_first_value_is_written() {
    let header = strings(&["a", "b"]);
    let rows = vec![row(&["  ", "x"]), row(&["7", "y"])];
    let schema = infer_schema(&header, &rows, false);
    let got: Vec<(String, ColumnType)> =
        schema.columns.into_iter().map(|c| (c.name, c.column_type)).collect();
    assert_eq!(
        got,
        vec![("b".to_string(), ColumnType::Text(50)), ("a".to_string(), ColumnType::Number(2))]
    );
    let schema = infer_schema(&header, &rows, true);
    let got: Vec<(String, ColumnType)> =
        schema.columns.into_iter().map(|c| (c.name, c.column_type)).collect();
    assert_eq!(
        got,
        vec![("a".to_string(), ColumnType::Text(50)), ("b".to_string(), ColumnType::Text(50))]
    );
}

#[test]
fn a_repeated_column_name_is_declared_once() {
    let header = strings(&["a", "a"]);
    let rows = vec![row(&["1", "x"])];
    let schema = infer_schema(&header, &rows, false);
    assert_eq!(schema.columns.len(), 1);
    assert_eq!(schema.columns[0].column_type, ColumnType::Number(2));
}

#[test]
fn fields_beyond_the_header_are_written_but_declare_nothing() {
    let out = write_sql("t", &strings(&["a"]), &vec![row(&["1", "x"])], "", None, false);
    assert_eq!(
        out,
        "DROP TABLE IF EXISTS `t`;\n\
CREATE TABLE IF NOT EXISTS `t` (\n\
`a` NUMERIC(15, 2));\n\
\n\
INSERT INTO `t` VALUES (\n\
1.00,\n\
\"x\");\n"
    );
}

#[test]
fn blank_fields_and_rows_without_values() {
    let header = strings(&["a", "b"]);
    let rows = vec![row(&["", " "]), row(&["x", ""])];
    assert_eq!(
        write_sql("t", &header, &rows, "", None, false),
        "DROP TABLE IF EXISTS `t`;\n\
CREATE TABLE IF NOT EXISTS `t` (\n\
`a` VARCHAR(50));\n\
\n\
INSERT INTO `t` VALUES (\n\
\"x\");\n"
    );
    assert_eq!(
        write_sql("t", &header, &rows, "", None, true),
        "DROP TABLE IF EXISTS `t`;\n\
CREATE TABLE IF NOT EXISTS `t` (\n\
`a` VARCHAR(50),\n\
`b` VARCHAR(50));\n\
\n\
INSERT INTO `t` VALUES (\n\
\"\",\n\
\"\");\n\
\n\
INSERT INTO `t` VALUES (\n\
\"x\",\n\
\"\");\n"
    );
}

#[test]
fn decimal_notation() {
    assert_eq!(decimal_of(0), vec!['0']);
    assert_eq!(decimal_of(7), vec!['7']);
    assert_eq!(decimal_of(10), vec!['1', '0']);
    assert_eq!(decimal_of(100), vec!['1', '0', '0']);
    assert_eq!(decimal_of(4294967295).iter().collect::<String>(), "4294967295");
}
