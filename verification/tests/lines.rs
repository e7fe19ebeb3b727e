use typed_csv::Lines;

fn all(input: &str) -> Vec<String> {
    let mut lines = Lines::new(input);
    let mut out = Vec::new();
    while let Some(line) = lines.next() {
        out.push(line);
    }
    assert_eq!(lines.next(), None);
    out
}

#[test]
fn lines_are_cut_as_the_standard_library_cuts_them() {
    for input in [
        "",
        "\n",
        "a",
        "a\n",
        "a\nb",
        "a\n\nb\n",
        "a\r\nb\r\n",
        "a\rb\r",
        "a\r",
        "\r",
        "\r\n",
        "\r\r\n",
        "a\n\r",
        "\n\n\n",
        "x,y\r\n1,2\n\n3,4",
        "é\u{2028}b\nç\r\n",
    ] {
        let expected: Vec<String> = input.lines().map(|l| l.to_string()).collect();
        assert_eq!(all(input), expected, "{input:?}");
    }
}

#[test]
fn lines_keep_a_carriage_return_that_no_line_feed_follows() {
    assert_eq!(all("a\rb\n"), vec!["a\rb"]);
    assert_eq!(all("a\r"), vec!["a\r"]);
    assert_eq!(all("a\r\r\n"), vec!["a\r"]);
}

#[test]
fn lines_cursor_gives_characters_too() {
    let mut lines = Lines::new("ab\r\n\ncd");
    assert_eq!(lines.next_chars(), Some(vec!['a', 'b']));
    assert_eq!(lines.next_chars(), Some(vec![]));
    assert_eq!(lines.next(), Some("cd".to_string()));
    assert_eq!(lines.next_chars(), None);
    assert_eq!(lines.next(), None);
}
