use typed_csv::{get_value_field, handle_new_key};

#[test]
fn it_should_generate_missing_fields() {
    let fields = vec![
        "1".to_owned(),
        "2".to_owned(),
        "3".to_owned(),
        "4".to_owned(),
        "5".to_owned(),
    ];

    for i in 0..fields.len() * 2 {
        let result = get_value_field(&fields, i);
        if i < fields.len() {
            assert_eq!(&result, fields.get(i).expect("it to be some"));
        } else {
            assert_eq!(result, format!("__{}", i + 1));
        }
    }
}

#[test]
fn field_beyond_an_empty_header_is_synthetic() {
    let fields: Vec<String> = Vec::new();
    assert_eq!(get_value_field(&fields, 0), "__1");
    assert_eq!(get_value_field(&fields, 9), "__10");
    assert_eq!(get_value_field(&fields, 1233), "__1234");
}

#[test]
fn field_at_the_largest_index_does_not_overflow() {
    let fields: Vec<String> = Vec::new();
    let expected = format!("__{}", usize::MAX as u128 + 1);
    assert_eq!(get_value_field(&fields, usize::MAX), expected);
    assert_eq!(handle_new_key("", usize::MAX), expected);
}

#[test]
fn new_key_is_the_trimmed_cell() {
    assert_eq!(handle_new_key("key", 0), "key");
    assert_eq!(handle_new_key("  key 1\t", 3), "key 1");
    assert_eq!(handle_new_key("\u{3000}k\u{a0}", 3), "k");
}

#[test]
fn new_key_of_a_blank_cell_is_synthetic() {
    assert_eq!(handle_new_key("", 0), "__1");
    assert_eq!(handle_new_key("   ", 1), "__2");
    assert_eq!(handle_new_key("\t\r", 41), "__42");
    assert_eq!(handle_new_key("", 99), "__100");
    assert_eq!(handle_new_key("", 1_000_000), "__1000001");
    for i in 0..300usize {
        assert_eq!(handle_new_key(" ", i), format!("__{}", i + 1));
    }
}
