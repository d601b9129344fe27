use dbtools::csv::{read_csv, write_csv};
use dbtools::files::Format;
use dbtools::json::{
    decode_members, members_as_written, order_members, read_json, write_json, JsonStyle, ReadError,
};
use dbtools::prescan::top_keys_of;
use dbtools::sql::write_sql;
use dbtools::classify::TypeTag;
use dbtools::table::{Field, Table};

fn strings(v: &[&str]) -> Vec<String> {
    v.iter().map(|s| s.to_string()).collect()
}

fn field(raw: &str) -> Field {
    let numeral = raw.parse::<f32>().ok().map(|v| format!("{:.2}", v));
    Field { raw: raw.to_string(), numeral, tag: None, absent: false }
}

fn row(v: &[&str]) -> Vec<Field> {
    v.iter().map(|s| field(s)).collect()
}

fn typed(table: &Table) -> Vec<Vec<Field>> {
    let numerals: Vec<Vec<Option<String>>> =
        table.rows.iter().map(|row| row.iter().map(|raw| raw.parse::<f32>().ok().map(|v| format!("{:.2}", v))).collect()).collect();
    table.with_numerals(&numerals)
}

fn fields(rows: &[Vec<String>]) -> Vec<Vec<Field>> {
    rows.iter().map(|r| r.iter().map(|s| field(s)).collect()).collect()
}

fn style(tz: bool, native: bool, array: bool, keep_blank: bool) -> JsonStyle {
    JsonStyle { tz, native, array, keep_blank, wrap_id: false }
}

#[test]
fn csv_row_becomes_a_document() {
    let table = read_csv("id,name,active\n1,Alice,true\n", ",");
    let out = write_json(&table.header, &fields(&table.rows), style(false, false, false, false));
    assert_eq!(out, "{\"id\":1.00,\"name\":\"Alice\",\"active\":true}\n");
}

#[test]
fn a_number_that_does_not_parse_is_written_as_zero() {
    let out = write_json(&strings(&["n"]), &vec![row(&["42xyz"])], style(false, true, false, false));
    assert_eq!(out, "{\"n\":0.00}\n");
    let none = Field { raw: "42".to_string(), numeral: None, tag: None, absent: false };
    let out = write_json(&strings(&["n"]), &vec![vec![none]], style(false, true, false, false));
    assert_eq!(out, "{\"n\":0.00}\n");
}

#[test]
fn a_numeral_is_written_only_for_a_number() {
    let odd = Field { raw: "abc".to_string(), numeral: Some("9.99".to_string()), tag: None, absent: false };
    let out = write_json(&strings(&["n"]), &vec![vec![odd]], style(false, true, false, false));
    assert_eq!(out, "{\"n\":\"abc\"}\n");
}

#[test]
fn native_types_are_typed_documents() {
    let rows = vec![row(&["ObjectId(abc123)", "2016-01-01T10:20:30.123Z"])];
    let header = strings(&["_id", "created"]);
    assert_eq!(
        write_json(&header, &rows, style(true, true, false, false)),
        "{\"_id\":{\"$oid\":\"abc123\"},\"created\":{\"$date\":\"2016-01-01T10:20:30.123Z\"}}\n"
    );
    assert_eq!(
        write_json(&header, &rows, style(false, true, false, false)),
        "{\"_id\":{\"$oid\":\"abc123\"},\"created\":{\"$date\":\"2016-01-01T10:20:30.123+0000\"}}\n"
    );
}

#[test]
fn without_native_types_they_are_strings() {
    let rows = vec![row(&["ObjectId(abc123)", "2016-01-01T10:20:30.123Z"])];
    let header = strings(&["_id", "created"]);
    assert_eq!(
        write_json(&header, &rows, style(true, false, false, false)),
        "{\"_id\":\"abc123\",\"created\":\"2016-01-01T10:20:30.123Z\"}\n"
    );
}

#[test]
fn a_malformed_timestamp_leaves_the_suffix_alone() {
    let rows = vec![row(&["2016-01-01 notes"])];
    assert_eq!(
        write_json(&strings(&["t"]), &rows, style(true, true, false, false)),
        "{\"t\":{\"$date\":\"Z\"}}\n"
    );
    assert_eq!(
        write_json(&strings(&["t"]), &rows, style(true, false, false, false)),
        "{\"t\":\"2016-01-01 notes\"}\n"
    );
}

#[test]
fn truth_values_are_lowered() {
    let out = write_json(&strings(&["a", "b"]), &vec![row(&["TRUE", "False"])], style(false, true, false, false));
    assert_eq!(out, "{\"a\":true,\"b\":false}\n");
}

#[test]
fn array_mode_puts_commas_on_all_but_the_last() {
    let rows = vec![row(&["1"]), row(&["2"]), row(&["3"])];
    let out = write_json(&strings(&["n"]), &rows, style(false, true, true, false));
    assert_eq!(out, "[\n{\"n\":1.00},\n{\"n\":2.00},\n{\"n\":3.00}\n]\n");
}

#[test]
fn array_mode_without_rows() {
    assert_eq!(write_json(&strings(&["n"]), &vec![], style(false, true, true, false)), "[\n]\n");
    assert_eq!(write_json(&strings(&["n"]), &vec![], style(false, true, false, false)), "");
}

#[test]
fn a_blank_field_is_left_out_and_the_values_move_up() {
    let rows = vec![row(&["1", "  ", "true"])];
    let out = write_json(&strings(&["a", "b", "c"]), &rows, style(false, true, false, false));
    assert_eq!(out, "{\"a\":1.00,\"b\":true}\n");
}

#[test]
fn a_blank_field_is_kept_on_request() {
    let rows = vec![row(&["1", "  ", "true"])];
    let out = write_json(&strings(&["a", "b", "c"]), &rows, style(false, true, false, true));
    assert_eq!(out, "{\"a\":1.00,\"b\":\"\",\"c\":true}\n");
}

#[test]
fn values_beyond_the_header_are_not_written() {
    let rows = vec![row(&["1", "2", "3"]), row(&[])];
    let out = write_json(&strings(&["a", "b"]), &rows, style(false, true, false, false));
    assert_eq!(out, "{\"a\":1.00,\"b\":2.00}\n{}\n");
}

#[test]
fn read_json_takes_scalars_and_wrappers() {
    let text = "{\"_id\":{\"$oid\":\"abc123\"},\"created\":{\"$date\":\"2016-01-01T00:00:00.000Z\"},\"n\":5,\"ok\":true,\"t\":\"hi\"}\n";
    let table = read_json(text, true, true).unwrap();
    assert_eq!(table.header, strings(&["_id", "created", "n", "ok", "t"]));
    assert_eq!(
        table.rows,
        vec![strings(&["ObjectId(abc123)", "2016-01-01T00:00:00.000Z", "5", "true", "hi"])]
    );
}

#[test]
fn read_json_without_native_types() {
    let text = "{\"_id\":{\"$oid\":\"abc123\"},\"t\":\"2016-01-01T00:00:00.000Z\"}\n";
    let table = read_json(text, false, false).unwrap();
    assert_eq!(table.rows, vec![strings(&["abc123", "2016-01-01T00:00:00.000Z"])]);
    let table = read_json(text, false, true).unwrap();
    assert_eq!(table.rows, vec![strings(&["ObjectId(abc123)", "2016-01-01T00:00:00.000+0000"])]);
}

#[test]
fn read_json_gives_the_members_in_the_order_written() {
    let table = read_json("{\"b\":1,\"a\":2}\n{\"c\":3,\"a\":4}\n", false, true).unwrap();
    assert_eq!(table.header, strings(&["b", "a", "c"]));
    assert_eq!(table.rows, vec![strings(&["1", "2", ""]), strings(&["", "4", "3"])]);
    assert_eq!(
        table.tags,
        vec![
            vec![Some(TypeTag::Number), Some(TypeTag::Number), None],
            vec![None, Some(TypeTag::Number), Some(TypeTag::Number)],
        ]
    );
}

#[test]
fn json_columns_stand_as_the_document_writes_them() {
    let table = read_json("{\"b\":1,\"a\":2}\n", false, false).unwrap();
    assert_eq!(write_csv(&table.header, &fields(&table.rows), ","), "b,a\n1.00,2.00\n");
    let table = read_json("{\"n\":1.50,\"ok\":true,\"name\":\"Alice\"}\n", false, true).unwrap();
    assert_eq!(write_csv(&table.header, &fields(&table.rows), ","), "n,ok,name\n1.50,true,Alice\n");
    let table = read_json("{\"b\":1,\"a\":2}\n", false, true).unwrap();
    let out = write_sql("t", &table.header, &fields(&table.rows), "", None, false);
    assert!(out.contains("(\n`b` NUMERIC(15, 2),\n`a` NUMERIC(15, 2));"));
}

#[test]
fn the_order_written_is_that_of_the_outermost_object() {
    let line = "{ \"z\" : {\"$oid\":\"x\"}, \"y\":{\"q\":1,\"a\":2}, \"m\":[{\"b\":1}], \"a\" :\t\"k:v\", \"c\":\"\\\"d\\\":1\" }\n";
    let table = read_json(line, false, true).unwrap();
    assert_eq!(table.header, strings(&["z", "a", "c"]));
    assert_eq!(table.rows, vec![strings(&["ObjectId(x)", "k:v", "\\\"d\\\":1"])]);
}

#[test]
fn a_key_written_twice_stands_where_it_is_first() {
    let table = read_json("{\"b\":1,\"a\":2,\"b\":3}\n", false, true).unwrap();
    assert_eq!(table.header, strings(&["b", "a"]));
    assert_eq!(table.rows, vec![strings(&["3", "2"])]);
}

#[test]
fn a_key_with_an_escape_comes_after_the_others() {
    let table = read_json("{\"x\\ty\":1,\"b\":2,\"a\":3}\n", false, true).unwrap();
    assert_eq!(table.header, strings(&["b", "a", "x\ty"]));
    assert_eq!(table.rows, vec![strings(&["2", "3", "1"])]);
}

#[test]
fn members_are_brought_into_the_order_of_the_line() {
    let given = vec![
        ("a".to_string(), "2".to_string()),
        ("b".to_string(), "1".to_string()),
        ("c".to_string(), "0".to_string()),
    ];
    let line = "{\"c\":0,\"b\":1,\"a\":2}";
    assert_eq!(
        members_as_written(line, &given),
        vec![
            ("c".to_string(), "0".to_string()),
            ("b".to_string(), "1".to_string()),
            ("a".to_string(), "2".to_string()),
        ]
    );
    let keys = strings(&["b", "x", "b", "a"]);
    assert_eq!(
        order_members(&given, &keys),
        vec![
            ("b".to_string(), "1".to_string()),
            ("a".to_string(), "2".to_string()),
            ("c".to_string(), "0".to_string()),
        ]
    );
    assert_eq!(order_members(&given, &vec![]), given);
    assert_eq!(order_members(&vec![], &keys), vec![]);
}

#[test]
fn top_keys_are_found_in_the_text() {
    let keys = |s: &str| -> Vec<String> {
        top_keys_of(&s.chars().collect()).into_iter().map(|k| k.into_iter().collect()).collect()
    };
    assert_eq!(keys("{\"b\":1,\"a\":2}"), strings(&["b", "a"]));
    assert_eq!(keys("{\"a\":{\"x\":1},\"b\":[{\"y\":2}],\"c\":\"\\\"z\\\":\"}"), strings(&["a", "b", "c"]));
    assert_eq!(keys("[{\"a\":1}]"), strings(&[]));
    assert_eq!(keys("\"a\":1"), strings(&[]));
    assert_eq!(keys("{\"a\\\"b\" : 1, \"\":2, \"a\":3, \"a\":4}"), strings(&["a\\\"b", "", "a", "a"]));
    assert_eq!(keys(""), strings(&[]));
}

#[test]
fn read_json_passes_over_other_values() {
    let text = "{\"a\":null,\"b\":[1,2],\"c\":{\"x\":1},\"d\":7,\"e\":{\"$other\":\"v\"}}\n";
    let table = read_json(text, false, true).unwrap();
    assert_eq!(table.header, strings(&["d"]));
    assert_eq!(table.rows, vec![strings(&["7"])]);
}

#[test]
fn read_json_writes_numbers_as_the_parser_does() {
    let table = read_json("{\"a\":1.50,\"b\":-3,\"c\":1e2}\n", false, true).unwrap();
    assert_eq!(table.rows, vec![strings(&["1.5", "-3", "100.0"])]);
}

#[test]
fn read_json_leaves_escapes_as_written() {
    let table = read_json("{\"a\":\"x\\\"y\",\"b\":\"tab\\there\"}\n", false, true).unwrap();
    assert_eq!(table.rows, vec![strings(&["x\\\"y", "tab\\there"])]);
}

#[test]
fn a_line_that_holds_no_object_gives_an_empty_row() {
    let table = read_json("42\n[1,2]\n{\"a\":1}\n", false, true).unwrap();
    assert_eq!(table.header, strings(&["a"]));
    assert_eq!(table.rows, vec![strings(&[""]), strings(&[""]), strings(&["1"])]);
    assert_eq!(table.tags, vec![vec![None], vec![None], vec![Some(TypeTag::Number)]]);
}

#[test]
fn read_json_names_the_first_line_that_is_not_json() {
    assert_eq!(read_json("{\"a\":1}\n{oops\n{\"b\":\n", false, true).unwrap_err(), ReadError::Syntax(1));
    assert_eq!(read_json("{\"a\":1}\n\n", false, true).unwrap_err(), ReadError::Syntax(1));
    assert_eq!(read_json("{\"a\":1} x\n", false, true).unwrap_err(), ReadError::Syntax(0));
}

#[test]
fn read_json_of_an_empty_text() {
    let table = read_json("", false, true).unwrap();
    assert!(table.header.is_empty());
    assert!(table.rows.is_empty());
}

#[test]
fn read_json_nests_as_deep_as_it_says() {
    let deep = format!("{}1{}", "[".repeat(256), "]".repeat(256));
    let table = read_json(&deep, false, true).unwrap();
    assert_eq!(table.rows, vec![strings(&[])]);
    let mut objects = String::new();
    for _ in 0..255 {
        objects.push_str("{\"a\":");
    }
    objects.push('1');
    objects.push_str(&"}".repeat(255));
    let line = format!("{{\"k\":{},\"n\":2}}", objects);
    let table = read_json(&line, false, true).unwrap();
    assert_eq!(table.header, strings(&["n"]));
    assert_eq!(table.rows, vec![strings(&["2"])]);
}

#[test]
fn read_json_refuses_to_nest_deeper() {
    let deep = format!("{}1{}", "[".repeat(257), "]".repeat(257));
    assert_eq!(read_json(&deep, false, true).unwrap_err(), ReadError::Limit(0));
    let text = format!("{{\"a\":1}}\n{}", "{".repeat(300));
    assert_eq!(read_json(&text, false, true).unwrap_err(), ReadError::Limit(1));
}

#[test]
fn brackets_inside_strings_do_not_nest() {
    let line = format!("{{\"a\":\"{}\"}}", "[{".repeat(500));
    let table = read_json(&line, false, true).unwrap();
    assert_eq!(table.rows, vec![vec!["[{".repeat(500)]]);
    let line = format!("{{\"a\":\"\\\"{}\"}}", "[".repeat(500));
    assert!(read_json(&line, false, true).is_ok());
}

#[test]
fn many_shallow_values_are_not_deep() {
    let line = format!("{{\"a\":[{}[]]}}", "[],".repeat(1000));
    let table = read_json(&line, false, true).unwrap();
    assert_eq!(table.rows, vec![strings(&[])]);
}

#[test]
fn read_json_takes_keys_as_long_as_sixteen_bits_index() {
    let key = "k".repeat(65535);
    let table = read_json(&format!("{{\"{}\":1}}", key), false, true).unwrap();
    assert_eq!(table.header, vec![key]);
    let key = "é".repeat(32767);
    let table = read_json(&format!("{{\"{}\" : 1}}", key), false, true).unwrap();
    assert_eq!(table.header, vec![key]);
    let inner = "k".repeat(32767);
    let line = format!("{{\"a\":{{\"{}\":{{\"$oid\":\"x\"}}}},\"b\":2}}", "k".repeat(21845));
    let table = read_json(&line, false, true).unwrap();
    assert_eq!(table.header, strings(&["b"]));
    let line = format!("{{\"{}\":{{\"{}\":1}},\"b\":2}}", inner, inner);
    let table = read_json(&line, false, true).unwrap();
    assert_eq!(table.header, strings(&["b"]));
}

#[test]
fn read_json_refuses_longer_keys() {
    let key = "k".repeat(65536);
    assert_eq!(read_json(&format!("{{\"{}\":1}}", key), false, true).unwrap_err(), ReadError::Limit(0));
    let key = "é".repeat(32768);
    assert_eq!(read_json(&format!("{{\"{}\":1}}", key), false, true).unwrap_err(), ReadError::Limit(0));
    let key = "k".repeat(70000);
    assert_eq!(read_json(&format!("{{\"{}\":1}}", key), false, true).unwrap_err(), ReadError::Limit(0));
    let inner = "k".repeat(32768);
    let line = format!("{{\"a\":{{\"{}\":1}}}}", inner);
    assert_eq!(read_json(&line, false, true).unwrap_err(), ReadError::Limit(0));
}

#[test]
fn a_long_string_value_is_no_key() {
    let value = "v".repeat(70000);
    let table = read_json(&format!("{{\"a\":\"{}\"}}", value), false, true).unwrap();
    assert_eq!(table.rows, vec![vec![value]]);
}

#[test]
fn read_json_takes_exponents_of_up_to_nine_digits() {
    let table = read_json("{\"a\":1e000000002,\"b\":2.5E-000000001}", false, true).unwrap();
    assert_eq!(table.rows, vec![strings(&["100.0", "0.25"])]);
}

#[test]
fn read_json_refuses_longer_exponents() {
    assert_eq!(read_json("{\"a\":1e0000000002}", false, true).unwrap_err(), ReadError::Limit(0));
    assert_eq!(
        read_json("{\"a\":1}\n1e99999999999999999999999\n", false, true).unwrap_err(),
        ReadError::Limit(1)
    );
    assert_eq!(read_json("[1E+1234567890]", false, true).unwrap_err(), ReadError::Limit(0));
}

#[test]
fn digits_after_a_letter_inside_a_string_are_no_exponent() {
    let table = read_json("{\"_id\":{\"$oid\":\"5be12345678901234567890a\"}}", false, true).unwrap();
    assert_eq!(table.rows, vec![strings(&["ObjectId(5be12345678901234567890a)"])]);
}

#[test]
fn a_comma_before_a_closing_brace_is_not_json() {
    assert_eq!(read_json("{\"a\":1,}", false, true).unwrap_err(), ReadError::Syntax(0));
    assert_eq!(
        read_json("[{\"a\":{\"b\":1,},\"c\":2}]", false, true).unwrap_err(),
        ReadError::Syntax(0)
    );
    assert_eq!(read_json("{\"a\":{\"b\":1 , \t}}", false, true).unwrap_err(), ReadError::Syntax(0));
}

#[test]
fn a_comma_and_a_brace_inside_a_string_are_text() {
    let table = read_json("{\"a\":\"x,}\",\"b\":\",\"}", false, true).unwrap();
    assert_eq!(table.rows, vec![strings(&["x,}", ","])]);
}

#[test]
fn decode_members_takes_the_text_of_each_value() {
    let members = vec![
        ("a".to_string(), "{\"$oid\":\"x1\"}".to_string()),
        ("b".to_string(), "{\"$date\":\"2016-01-01 10:20:30\"}".to_string()),
        ("c".to_string(), "\"2016-01-01T10:20:30.5\"".to_string()),
        ("d".to_string(), "\"plain\"".to_string()),
        ("e".to_string(), "12".to_string()),
        ("f".to_string(), "false".to_string()),
        ("g".to_string(), "null".to_string()),
        ("h".to_string(), "\"".to_string()),
        ("i".to_string(), "".to_string()),
    ];
    let read = |k: &str, raw: &str, tag: TypeTag| (k.to_string(), raw.to_string(), tag);
    assert_eq!(
        decode_members(&members, true, true),
        vec![
            read("a", "ObjectId(x1)", TypeTag::ObjectIdRef),
            read("b", "2016-01-01T10:20:30.000Z", TypeTag::Timestamp),
            read("c", "2016-01-01T10:20:30.500Z", TypeTag::Timestamp),
            read("d", "plain", TypeTag::Text),
            read("e", "12", TypeTag::Number),
            read("f", "false", TypeTag::Boolean),
        ]
    );
    assert_eq!(
        decode_members(&members, false, false),
        vec![
            read("a", "x1", TypeTag::ObjectIdRef),
            read("b", "2016-01-01T10:20:30.000+0000", TypeTag::Timestamp),
            read("c", "2016-01-01T10:20:30.5", TypeTag::Text),
            read("d", "plain", TypeTag::Text),
            read("e", "12", TypeTag::Number),
            read("f", "false", TypeTag::Boolean),
        ]
    );
}

#[test]
fn the_kind_of_a_value_decides_its_type() {
    let text = "{\"a\":-1,\"b\":\"02134\",\"c\":\"true\",\"d\":true,\"e\":\"-1\",\"f\":1e2}\n";
    let table = read_json(text, false, true).unwrap();
    assert_eq!(table.rows, vec![strings(&["-1", "02134", "true", "true", "-1", "100.0"])]);
    assert_eq!(
        table.tags,
        vec![vec![
            Some(TypeTag::Number),
            Some(TypeTag::Text),
            Some(TypeTag::Text),
            Some(TypeTag::Boolean),
            Some(TypeTag::Text),
            Some(TypeTag::Number),
        ]]
    );
    let rows = typed(&table);
    assert_eq!(
        write_sql("t", &table.header, &rows, "", None, false),
        "DROP TABLE IF EXISTS `t`;\n\
CREATE TABLE IF NOT EXISTS `t` (\n\
`a` NUMERIC(15, 2),\n\
`b` VARCHAR(50),\n\
`c` VARCHAR(50),\n\
`d` BOOLEAN,\n\
`e` VARCHAR(50),\n\
`f` NUMERIC(15, 2));\n\
\n\
INSERT INTO `t` VALUES (\n\
-1.00,\n\
\"02134\",\n\
\"true\",\n\
TRUE,\n\
\"-1\",\n\
100.00);\n"
    );
    assert_eq!(
        write_csv(&table.header, &rows, ","),
        "a,b,c,d,e,f\n-1.00,02134,true,true,-1,100.00\n"
    );
    assert_eq!(
        write_json(&table.header, &rows, style(false, true, false, false)),
        "{\"a\":-1.00,\"b\":\"02134\",\"c\":\"true\",\"d\":true,\"e\":\"-1\",\"f\":100.00}\n"
    );
}

#[test]
fn an_identifier_read_without_native_types_is_still_an_identifier() {
    let table = read_json("{\"_id\":{\"$oid\":\"abc123\"}}\n", false, false).unwrap();
    assert_eq!(table.rows, vec![strings(&["abc123"])]);
    assert_eq!(table.tags, vec![vec![Some(TypeTag::ObjectIdRef)]]);
    let rows = typed(&table);
    assert!(write_sql("t", &table.header, &rows, "", None, false).contains("`_id` VARCHAR(24));"));
    assert_eq!(write_csv(&table.header, &rows, ","), "_id\nabc123\n");
    assert_eq!(
        write_json(&table.header, &rows, style(false, true, false, false)),
        "{\"_id\":{\"$oid\":\"abc123\"}}\n"
    );
}

#[test]
fn a_malformed_date_document_is_still_a_timestamp() {
    let table = read_json("{\"t\":{\"$date\":\"soon\"}}\n", true, true).unwrap();
    assert_eq!(table.rows, vec![strings(&["Z"])]);
    assert_eq!(table.tags, vec![vec![Some(TypeTag::Timestamp)]]);
    let rows = typed(&table);
    assert!(write_sql("t", &table.header, &rows, "", None, false).contains("`t` TIMESTAMP);"));
    assert_eq!(
        dbtools::report::find_issues(&rows),
        vec![dbtools::report::Issue {
            row: 0,
            column: 0,
            kind: dbtools::report::IssueKind::MalformedTimestamp
        }]
    );
}

#[test]
fn the_other_readers_find_no_types() {
    assert!(read_csv("a,b\n1,2\n", ",").tags.is_empty());
    assert!(dbtools::dump::read_dump("CREATE TABLE t (\na INT\n);\nINSERT INTO t VALUES (1);\n", false).tags.is_empty());
}

#[test]
fn what_write_json_writes_read_json_reads() {
    let header = strings(&["a_id", "b_when", "c_n", "d_ok", "e_text"]);
    let rows = vec![
        row(&["ObjectId(5f1a)", "2016-01-01 10:20:30", "7", "TRUE", "hello world"]),
        row(&["ObjectId(5f1b)", "2017-02-03T04:05:06.789+0000", "2.5", "false", "x"]),
    ];
    for tz in [true, false] {
        let text = write_json(&header, &rows, style(tz, true, false, false));
        let table = read_json(&text, tz, true).unwrap();
        assert_eq!(table.header, header);
        let suffix = if tz { "Z" } else { "+0000" };
        assert_eq!(
            table.rows,
            vec![
                vec![
                    "ObjectId(5f1a)".to_string(),
                    format!("2016-01-01T10:20:30.000{}", suffix),
                    "7.0".to_string(),
                    "true".to_string(),
                    "hello world".to_string(),
                ],
                vec![
                    "ObjectId(5f1b)".to_string(),
                    format!("2017-02-03T04:05:06.789{}", suffix),
                    "2.5".to_string(),
                    "false".to_string(),
                    "x".to_string(),
                ],
            ]
        );
        let again = write_json(&table.header, &fields(&table.rows), style(tz, true, false, false));
        assert_eq!(again, text);
    }
}

#[test]
fn the_id_column_is_wrapped_on_request() {
    let header = strings(&["_id", "n", "id"]);
    let rows = vec![row(&["abc123", "7", "x"])];
    let wrapping = JsonStyle { tz: false, native: true, array: false, keep_blank: false, wrap_id: true };
    assert_eq!(
        write_json(&header, &rows, wrapping),
        "{\"_id\":{\"$oid\":\"abc123\"},\"n\":7.00,\"id\":\"x\"}\n"
    );
    let rows = vec![row(&["12", "7", "x"])];
    assert_eq!(write_json(&header, &rows, wrapping), "{\"_id\":{\"$oid\":12.00},\"n\":7.00,\"id\":\"x\"}\n");
    let plain = JsonStyle { native: false, ..wrapping };
    assert_eq!(write_json(&header, &rows, plain), "{\"_id\":12.00,\"n\":7.00,\"id\":\"x\"}\n");
    assert_eq!(
        write_json(&header, &rows, style(false, true, false, false)),
        "{\"_id\":12.00,\"n\":7.00,\"id\":\"x\"}\n"
    );
}

#[test]
fn every_value_stands_under_its_own_key() {
    let table = read_json("{\"a\":1}\n{\"b\":\"x\"}\n", false, true).unwrap();
    assert_eq!(table.header, strings(&["a", "b"]));
    assert_eq!(table.rows, vec![strings(&["1", ""]), strings(&["", "x"])]);
    assert_eq!(
        table.tags,
        vec![vec![Some(TypeTag::Number), None], vec![None, Some(TypeTag::Text)]]
    );
    let rows = typed(&table);
    assert_eq!(
        write_sql("t", &table.header, &rows, "", None, false),
        "DROP TABLE IF EXISTS `t`;\n\
CREATE TABLE IF NOT EXISTS `t` (\n\
`a` NUMERIC(15, 2),\n\
`b` VARCHAR(50));\n\
\n\
INSERT INTO `t` VALUES (\n\
1.00,\n\
NULL);\n\
\n\
INSERT INTO `t` VALUES (\n\
NULL,\n\
\"x\");\n"
    );
    assert_eq!(write_csv(&table.header, &rows, ","), "a,b\n1.00,\n,x\n");
    assert_eq!(
        write_json(&table.header, &rows, style(false, true, false, false)),
        "{\"a\":1.00}\n{\"b\":\"x\"}\n"
    );
}

#[test]
fn lines_may_write_their_keys_in_any_order() {
    let text = "{\"b\":1,\"a\":\"x\"}\n{\"a\":\"y\",\"b\":2}\n{\"c\":true,\"a\":\"z\"}\n";
    let table = read_json(text, false, true).unwrap();
    assert_eq!(table.header, strings(&["b", "a", "c"]));
    let rows = typed(&table);
    assert_eq!(write_csv(&table.header, &rows, ","), "b,a,c\n1.00,x,\n2.00,y,\n,z,true\n");
    let out = write_sql("t", &table.header, &rows, "", None, false);
    assert!(out.contains("(\n`b` NUMERIC(15, 2),\n`a` VARCHAR(50),\n`c` BOOLEAN);"));
    assert!(out.contains("VALUES (\nNULL,\n\"z\",\nTRUE);"));
    assert_eq!(
        write_json(&table.header, &rows, style(false, true, false, false)),
        "{\"b\":1.00,\"a\":\"x\"}\n{\"b\":2.00,\"a\":\"y\"}\n{\"a\":\"z\",\"c\":true}\n"
    );
}

#[test]
fn a_column_is_typed_by_the_first_value_under_its_key() {
    let text = "{\"a\":1}\n{\"b\":\"x\",\"a\":\"late\"}\n{\"b\":7}\n";
    let table = read_json(text, false, true).unwrap();
    let rows = typed(&table);
    let out = write_sql("t", &table.header, &rows, "", None, false);
    assert!(out.contains("(\n`a` NUMERIC(15, 2),\n`b` VARCHAR(50));"));
}

#[test]
fn an_absent_field_keeps_its_place_and_a_blank_one_does_not() {
    let absent = Field { raw: String::new(), numeral: None, tag: None, absent: true };
    let header = strings(&["a", "b", "c"]);
    let rows = vec![vec![field("1"), absent, field("x")]];
    assert_eq!(write_json(&header, &rows, style(false, true, false, false)), "{\"a\":1.00,\"c\":\"x\"}\n");
    let rows = vec![vec![field("1"), field(" "), field("x")]];
    assert_eq!(write_json(&header, &rows, style(false, true, false, false)), "{\"a\":1.00,\"b\":\"x\"}\n");
}

#[test]
fn a_table_gives_its_fields_to_the_writers() {
    let table = read_json("{\"a\":-1}\n{\"b\":\"x\"}\n", false, true).unwrap();
    let numerals = vec![vec![Some("-1.00".to_string())], vec![None, Some("9.99".to_string()), None]];
    let rows = table.with_numerals(&numerals);
    assert_eq!(rows.len(), 2);
    assert_eq!(rows[0].len(), 2);
    assert_eq!(rows[0][0].raw, "-1");
    assert_eq!(rows[0][0].numeral, Some("-1.00".to_string()));
    assert_eq!(rows[0][0].tag, Some(TypeTag::Number));
    assert!(!rows[0][0].absent);
    assert_eq!(rows[0][1].numeral, None);
    assert_eq!(rows[0][1].tag, None);
    assert!(rows[0][1].absent);
    assert!(rows[1][0].absent);
    assert_eq!(rows[1][1].raw, "x");
    assert_eq!(rows[1][1].numeral, Some("9.99".to_string()));
    assert_eq!(rows[1][1].tag, Some(TypeTag::Text));
    let plain = read_csv("a,b\n1,2\n", ",").with_numerals(&vec![]);
    assert_eq!(plain[0][1].raw, "2");
    assert_eq!(plain[0][1].numeral, None);
    assert_eq!(plain[0][1].tag, None);
    assert!(!plain[0][1].absent);
}

#[test]
fn the_style_follows_the_source() {
    assert!(JsonStyle::for_source(Format::Sql, false, true, false, false).wrap_id);
    assert!(!JsonStyle::for_source(Format::Csv, false, true, false, false).wrap_id);
    assert!(!JsonStyle::for_source(Format::Json, false, true, false, false).wrap_id);
    let s = JsonStyle::for_source(Format::Sql, true, false, true, true);
    assert!(s.tz && !s.native && s.array && s.keep_blank);
}
