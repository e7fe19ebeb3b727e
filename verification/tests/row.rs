use typed_csv::{CsvValue, Row};

fn shown(value: Option<&CsvValue>) -> String {
    format!("{value:?}")
}

#[test]
fn new_row_is_empty() {
    let row = Row::new();
    assert!(row.is_empty());
    assert_eq!(row.len(), 0);
    assert!(row.get("a").is_none());
    assert!(!row.contains_key(""));
    assert!(row.entries().is_empty());
}

#[test]
fn row_keeps_what_is_put_in() {
    let mut row = Row::new();
    row.insert("a".to_string(), CsvValue::Integer(1));
    row.insert("b".to_string(), CsvValue::Text("x".to_string()));
    row.insert("".to_string(), CsvValue::Float("1.5".to_string()));
    assert!(!row.is_empty());
    assert_eq!(row.len(), 3);
    assert_eq!(shown(row.get("a")), "Some(Integer(1))");
    assert_eq!(shown(row.get("b")), "Some(Text(\"x\"))");
    assert_eq!(shown(row.get("")), "Some(Float(\"1.5\"))");
    assert!(row.contains_key("a"));
    assert!(!row.contains_key("c"));
    assert!(row.get("A").is_none());
}

#[test]
fn row_insert_overwrites_under_the_same_key() {
    let mut row = Row::new();
    row.insert("a".to_string(), CsvValue::Integer(1));
    row.insert("b".to_string(), CsvValue::Integer(2));
    row.insert("a".to_string(), CsvValue::Text("new".to_string()));
    assert_eq!(row.len(), 2);
    assert_eq!(shown(row.get("a")), "Some(Text(\"new\"))");
    assert_eq!(shown(row.get("b")), "Some(Integer(2))");

    let mut keys: Vec<String> = row.entries().iter().map(|(k, _)| k.clone()).collect();
    keys.sort();
    assert_eq!(keys, vec!["a", "b"]);

    let mut entries = row.into_entries();
    entries.sort_by(|x, y| x.0.cmp(&y.0));
    assert_eq!(entries.len(), 2);
    assert_eq!(format!("{:?}", entries[0]), "(\"a\", Text(\"new\"))");
    assert_eq!(format!("{:?}", entries[1]), "(\"b\", Integer(2))");
}
