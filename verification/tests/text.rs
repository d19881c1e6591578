//! Splitting a text into rows of tokens.
use matrix_algebra::text::{is_blank, tokenize};

#[test]
fn blank_is_what_the_standard_library_calls_white_space() {
    for n in 0..=0x10ffffu32 {
        if let Some(c) = char::from_u32(n) {
            assert_eq!(is_blank(c), c.is_whitespace(), "U+{:04X}", n);
        }
    }
}

#[test]
fn tokenize_splits_lines_and_words() {
    assert_eq!(tokenize("1 2\n3 4"), vec![vec!["1", "2"], vec!["3", "4"]]);
    assert_eq!(tokenize("  a\tb  \n\n c \n"), vec![vec!["a", "b"], vec![], vec!["c"]]);
    assert_eq!(tokenize("x"), vec![vec!["x"]]);
}

#[test]
fn tokenize_of_nothing_is_one_empty_row() {
    let empty: Vec<Vec<String>> = vec![vec![]];
    assert_eq!(tokenize(""), empty);
    assert_eq!(tokenize(" \n \r\n\t"), empty);
}

#[test]
fn tokenize_as_the_standard_library_splits() {
    let text = " 1.5\u{2003}x\u{a0}\u{a0}y \r\n\n  z\u{3000}\n w\n\n";
    let expected: Vec<Vec<String>> = text
        .trim()
        .split('\n')
        .map(|row| row.trim().split_whitespace().map(|t| t.to_string()).collect())
        .collect();
    assert_eq!(tokenize(text), expected);
}

#[test]
fn tokenize_keeps_characters_of_more_than_one_byte() {
    assert_eq!(tokenize("é ü\nß 1"), vec![vec!["é", "ü"], vec!["ß", "1"]]);
}
