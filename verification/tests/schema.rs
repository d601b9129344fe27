use dbtools::classify::TypeTag;
use dbtools::schema::{column_type, width_for, ColumnType, SchemaBuilder};

fn names_and_types(b: SchemaBuilder) -> Vec<(String, ColumnType)> {
    b.resolve().columns.into_iter().map(|c| (c.name, c.column_type)).collect()
}

#[test]
fn a_new_builder_is_empty() {
    let b = SchemaBuilder::new();
    assert_eq!(b.len(), 0);
    assert!(b.resolve().columns.is_empty());
}

#[test]
fn column_types_follow_the_tags() {
    assert_eq!(column_type("a", TypeTag::ObjectIdRef), ColumnType::ObjectIdRef);
    assert_eq!(column_type("a", TypeTag::Timestamp), ColumnType::Timestamp);
    assert_eq!(column_type("a", TypeTag::Number), ColumnType::Number(2));
    assert_eq!(column_type("a", TypeTag::Boolean), ColumnType::Boolean);
    assert_eq!(column_type("a", TypeTag::Text), ColumnType::Text(50));
}

#[test]
fn description_is_wider() {
    assert_eq!(width_for("description"), 100);
    assert_eq!(width_for("Description"), 50);
    assert_eq!(width_for("descriptions"), 50);
    assert_eq!(width_for(""), 50);
    assert_eq!(column_type("description", TypeTag::Text), ColumnType::Text(100));
    assert_eq!(column_type("description", TypeTag::Number), ColumnType::Number(2));
}

#[test]
fn columns_come_in_the_order_first_seen() {
    let mut b = SchemaBuilder::new();
    b.observe("id", TypeTag::Number);
    b.observe("name", TypeTag::Text);
    b.observe("active", TypeTag::Boolean);
    assert_eq!(
        names_and_types(b),
        vec![
            ("id".to_string(), ColumnType::Number(2)),
            ("name".to_string(), ColumnType::Text(50)),
            ("active".to_string(), ColumnType::Boolean),
        ]
    );
}

#[test]
fn first_seen_wins() {
    let mut b = SchemaBuilder::new();
    b.observe("id", TypeTag::Number);
    b.observe("name", TypeTag::Text);
    b.observe("id", TypeTag::Text);
    b.observe("name", TypeTag::Timestamp);
    b.observe("id", TypeTag::Boolean);
    assert_eq!(b.len(), 2);
    assert_eq!(
        names_and_types(b),
        vec![
            ("id".to_string(), ColumnType::Number(2)),
            ("name".to_string(), ColumnType::Text(50)),
        ]
    );
}

#[test]
fn a_column_keeps_its_type_after_every_row() {
    let rows = [
        [("a", TypeTag::Number), ("b", TypeTag::Timestamp)],
        [("a", TypeTag::Text), ("b", TypeTag::Text)],
        [("a", TypeTag::Boolean), ("b", TypeTag::ObjectIdRef)],
    ];
    let mut b = SchemaBuilder::new();
    for k in 0..rows.len() {
        for (name, tag) in rows[k] {
            b.observe(name, tag);
        }
        let mut again = SchemaBuilder::new();
        for row in &rows[..=k] {
            for (name, tag) in row {
                again.observe(name, *tag);
            }
        }
        assert_eq!(
            names_and_types(again),
            vec![
                ("a".to_string(), ColumnType::Number(2)),
                ("b".to_string(), ColumnType::Timestamp),
            ]
        );
    }
    assert_eq!(b.len(), 2);
}

#[test]
fn contains_finds_what_was_seen() {
    let mut b = SchemaBuilder::new();
    assert!(!b.contains("id"));
    b.observe("id", TypeTag::Number);
    assert!(b.contains("id"));
    assert!(!b.contains("ID"));
    assert!(!b.contains(""));
}
