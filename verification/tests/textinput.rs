use castle_adventure::text::parse_i32;
use castle_adventure::textinput::{is_separator, parse_input, split_words, TextCommand};

fn parsed(line: &str) -> Option<(String, Option<String>)> {
    match parse_input(&line.to_string()) {
        TextCommand::Given { command, arg } => Some((command, arg)),
        TextCommand::Blank => None,
    }
}

#[test]
fn blank_line_is_no_command() {
    assert_eq!(parsed(""), None);
    assert_eq!(parsed("   \t  "), None);
}

#[test]
fn single_word_has_no_argument() {
    assert_eq!(parsed("quit"), Some(("quit".to_string(), None)));
    assert_eq!(parsed("  quit  "), Some(("quit".to_string(), None)));
}

#[test]
fn argument_is_the_rest_joined_by_single_spaces() {
    assert_eq!(
        parsed("look  at   lamp "),
        Some(("look".to_string(), Some("at lamp".to_string())))
    );
    assert_eq!(
        parsed("use wand"),
        Some(("use".to_string(), Some("wand".to_string())))
    );
    assert_eq!(
        parsed("redirect 76 1"),
        Some(("redirect".to_string(), Some("76 1".to_string())))
    );
}

#[test]
fn words_are_split_at_unicode_white_space() {
    assert_eq!(
        split_words("a\u{00A0}b\u{2003}c\u{3000}d\ne"),
        vec!["a", "b", "c", "d", "e"]
    );
    assert_eq!(split_words("\u{200B}x"), vec!["\u{200B}x"]);
}

#[test]
fn separators_agree_with_the_standard_library() {
    for code in 0u32..0x3100 {
        if let Some(c) = char::from_u32(code) {
            assert_eq!(is_separator(c), c.is_whitespace(), "code point {}", code);
        }
    }
}

#[test]
fn numbers_parse_like_the_standard_library() {
    for text in [
        "0", "7", "42", "-1", "+5", "007", "2147483647", "2147483648", "-2147483648",
        "-2147483649", "99999999999999999999", "", "+", "-", " 5", "5 ", "1x", "--1", "٣",
    ] {
        assert_eq!(parse_i32(text), text.parse::<i32>().ok(), "text {:?}", text);
    }
}
