use typed_csv::{parse_value_line, CsvValue};

const SEPARATORS: [char; 3] = ['\t', ',', ';'];

#[test]
fn it_should_parse_the_line() {
    let fields = vec![
        "key 1".to_owned(),
        "key 2".to_owned(),
        "key 3".to_owned(),
        "key 4".to_owned(),
        "key 5".to_owned(),
    ];

    let values = ["text", "", "1", "1.1", ""];

    for sep in SEPARATORS {
        let line = values.join(&sep.to_string());

        let result = parse_value_line(&line, sep, &fields);

        let one = result
            .get(fields.first().expect("it to be some"))
            .expect("it to be some");
        assert!(matches!(one, CsvValue::Text(result_value) if result_value == values[0]));

        assert!(result.get(fields.get(1).expect("it to be some")).is_none());

        let three = result
            .get(fields.get(2).expect("it to be some"))
            .expect("it to be some");
        assert!(matches!(three, CsvValue::Integer(result_value) if *result_value == 1i64));

        let four = result
            .get(fields.get(3).expect("it to be some"))
            .expect("it to be some");
        assert!(
            matches!(four, CsvValue::Float(result_value) if (result_value.parse::<f64>().expect("a float") - 1.1f64).abs() < f64::EPSILON)
        );

        assert!(result.get(fields.get(4).expect("it to be some")).is_none());
    }
}

#[test]
fn it_should_generate_unknown_field_names() {
    let fields = Vec::new();

    let values = ["text", "", "1", "1.1", ""];

    for sep in SEPARATORS {
        let line = values.join(&sep.to_string());

        let result = parse_value_line(&line, sep, &fields);

        let one = result.get("__1").expect("it to be some");
        assert!(matches!(one, CsvValue::Text(result_value) if result_value == values[0]));

        assert!(result.get("__2").is_none());

        let three = result.get("__3").expect("it to be some");
        assert!(matches!(three, CsvValue::Integer(result_value) if *result_value == 1i64));

        let four = result.get("__4").expect("it to be some");
        assert!(
            matches!(four, CsvValue::Float(result_value) if (result_value.parse::<f64>().expect("a float") - 1.1f64).abs() < f64::EPSILON)
        );

        assert!(result.get("__5").is_none());
    }
}

fn names(fields: &[&str]) -> Vec<String> {
    fields.iter().map(|f| f.to_string()).collect()
}

fn shown(value: Option<&CsvValue>) -> String {
    format!("{value:?}")
}

#[test]
fn line_shorter_than_the_header_leaves_columns_out() {
    let row = parse_value_line("1;two", ';', &names(&["a", "b", "c", "d"]));
    assert_eq!(row.len(), 2);
    assert_eq!(shown(row.get("a")), "Some(Integer(1))");
    assert_eq!(shown(row.get("b")), "Some(Text(\"two\"))");
    assert!(!row.contains_key("c"));
    assert!(!row.contains_key("d"));
}

#[test]
fn line_longer_than_the_header_goes_on_with_synthetic_names() {
    let row = parse_value_line("1,2,3,4", ',', &names(&["a", "b"]));
    assert_eq!(row.len(), 4);
    assert_eq!(shown(row.get("a")), "Some(Integer(1))");
    assert_eq!(shown(row.get("b")), "Some(Integer(2))");
    assert_eq!(shown(row.get("__3")), "Some(Integer(3))");
    assert_eq!(shown(row.get("__4")), "Some(Integer(4))");
}

#[test]
fn later_field_wins_under_a_name_given_twice() {
    let row = parse_value_line("1,2,3", ',', &names(&["a", "a", "b"]));
    assert_eq!(row.len(), 2);
    assert_eq!(shown(row.get("a")), "Some(Integer(2))");
    assert_eq!(shown(row.get("b")), "Some(Integer(3))");

    let row = parse_value_line("1,,3", ',', &names(&["a", "a", "b"]));
    assert_eq!(shown(row.get("a")), "Some(Integer(1))");

    let row = parse_value_line("x,y,z", ',', &names(&["__3", "b"]));
    assert_eq!(row.len(), 2);
    assert_eq!(shown(row.get("__3")), "Some(Text(\"z\"))");
    assert_eq!(shown(row.get("b")), "Some(Text(\"y\"))");
}

#[test]
fn blank_line_gives_an_empty_row() {
    for line in ["", "   ", ",,,", " , ,\t"] {
        let row = parse_value_line(line, ',', &names(&["a", "b"]));
        assert!(row.is_empty(), "{line:?}");
        assert_eq!(row.len(), 0);
        assert!(row.get("a").is_none());
        assert!(row.into_entries().is_empty());
    }
}

#[test]
fn fields_are_trimmed_and_typed_one_by_one() {
    let row = parse_value_line(
        "  7 | -2.50 |  some text |9223372036854775808|nan| +1 ",
        '|',
        &names(&["i", "f", "t", "big", "n", "p"]),
    );
    assert_eq!(row.len(), 6);
    assert_eq!(shown(row.get("i")), "Some(Integer(7))");
    assert_eq!(shown(row.get("f")), "Some(Float(\"-2.50\"))");
    assert_eq!(shown(row.get("t")), "Some(Text(\"some text\"))");
    assert_eq!(shown(row.get("big")), "Some(Float(\"9223372036854775808\"))");
    assert_eq!(shown(row.get("n")), "Some(Text(\"nan\"))");
    assert_eq!(shown(row.get("p")), "Some(Float(\"+1\"))");
}

#[test]
fn reading_trimmed_fields_again_gives_the_same_row() {
    let header = names(&["a", "b", "c"]);
    let cells = ["  12 ", "", " x y ", "\u{a0}3.5", "   ", "z "];
    for sep in SEPARATORS {
        let line = cells.join(&sep.to_string());
        let trimmed: Vec<&str> = cells.iter().map(|c| c.trim()).collect();
        let again = trimmed.join(&sep.to_string());

        let first = parse_value_line(&line, sep, &header);
        let second = parse_value_line(&again, sep, &header);

        assert_eq!(first.len(), 4);
        assert_eq!(first.len(), second.len());
        for (key, value) in first.entries() {
            assert_eq!(shown(Some(value)), shown(second.get(key)));
        }
        assert_eq!(shown(first.get("a")), "Some(Integer(12))");
        assert_eq!(shown(first.get("c")), "Some(Text(\"x y\"))");
        assert_eq!(shown(first.get("__4")), "Some(Float(\"3.5\"))");
        assert_eq!(shown(first.get("__6")), "Some(Text(\"z\"))");
    }
}
