use typed_csv::text::{chars_to_string, find_char, split_chars, to_chars, trim_chars};

fn cut(line: &str, separator: char) -> Vec<String> {
    let chars = to_chars(line);
    split_chars(&chars, separator)
        .into_iter()
        .map(chars_to_string)
        .collect()
}

#[test]
fn split_gives_one_piece_more_than_there_are_separators() {
    assert_eq!(cut("", ','), vec![""]);
    assert_eq!(cut("a", ','), vec!["a"]);
    assert_eq!(cut(",", ','), vec!["", ""]);
    assert_eq!(cut("a,b", ','), vec!["a", "b"]);
    assert_eq!(cut(",a,,b,", ','), vec!["", "a", "", "b", ""]);
    assert_eq!(cut(" a ; b;c ", ';'), vec![" a ", " b", "c "]);
}

#[test]
fn split_cuts_as_the_standard_library_cuts() {
    for separator in ['\t', ',', ';', ' ', 'é', '\u{0}'] {
        for line in ["", "a", ",,", "a,b;c\td e", "é,é;é", "\t\t", "x\u{0}y\u{0}", " lead,trail "] {
            let expected: Vec<String> = line.split(separator).map(|p| p.to_string()).collect();
            assert_eq!(cut(line, separator), expected, "{line:?} {separator:?}");
        }
    }
}

#[test]
fn chars_and_strings_convert_both_ways() {
    for text in ["", "abc", "é\u{3000}ß", "a\nb\r\n", "__12"] {
        let chars = to_chars(text);
        assert_eq!(chars, text.chars().collect::<Vec<char>>());
        assert_eq!(chars_to_string(&chars), text);
    }
}

#[test]
fn find_char_gives_the_first_place_or_the_length() {
    let chars = to_chars("a,b,c");
    assert_eq!(find_char(&chars, ','), 1);
    assert_eq!(find_char(&chars, 'a'), 0);
    assert_eq!(find_char(&chars, 'c'), 4);
    assert_eq!(find_char(&chars, 'x'), 5);
    assert_eq!(find_char(&[], 'x'), 0);
}

#[test]
fn trim_chars_trims_as_the_standard_library_trims() {
    for text in ["", " ", "a", "  a b  ", "\t\r\nx\u{a0}", "\u{2003}é \u{3000}", "_ _"] {
        let chars = to_chars(text);
        assert_eq!(chars_to_string(trim_chars(&chars)), text.trim(), "{text:?}");
    }
}
