use rulebook::lexer::{
    alnum, identifier, keyword, keyword2, next_identifier, next_keyword, next_keyword2,
    past_spaces, past_word, space, whitespace,
};

#[test]
fn whitespace_takes_a_whole_run() {
    assert_eq!(whitespace(" \t\r\n x", 0), Some(5));
    assert_eq!(whitespace("a  b", 1), Some(3));
}

#[test]
fn whitespace_fails_on_none() {
    assert_eq!(whitespace("x", 0), None);
    assert_eq!(whitespace("", 0), None);
    assert_eq!(whitespace("a ", 2), None);
    assert_eq!(whitespace("a ", 7), None);
}

#[test]
fn only_four_bytes_are_whitespace() {
    assert!(space(b' ') && space(b'\t') && space(b'\n') && space(b'\r'));
    assert!(!space(0x0b) && !space(0x0c) && !space(b'a') && !space(0));
}

#[test]
fn letters_and_digits_are_alphanumeric() {
    for b in 0u8..=255 {
        assert_eq!(alnum(b), (b as char).is_ascii_alphanumeric());
    }
}

#[test]
fn identifier_is_the_maximal_word() {
    assert_eq!(identifier("count7 x", 0), Some(("count7".to_string(), 6)));
    assert_eq!(identifier("a_b", 0), Some(("a".to_string(), 1)));
    assert_eq!(identifier("xyz", 1), Some(("yz".to_string(), 3)));
}

#[test]
fn identifier_fails_without_a_letter_or_digit() {
    assert_eq!(identifier(" x", 0), None);
    assert_eq!(identifier("", 0), None);
    assert_eq!(identifier("x", 1), None);
    assert_eq!(identifier("x", 9), None);
}

#[test]
fn identifier_stops_at_a_multibyte_character() {
    assert_eq!(identifier("caf\u{e9} x", 0), Some(("caf".to_string(), 3)));
    assert_eq!(identifier("\u{e9}", 0), None);
    assert_eq!(identifier("\u{e9}a", 2), Some(("a".to_string(), 3)));
}

#[test]
fn keywords_are_not_reserved_words() {
    assert_eq!(identifier("the", 0), Some(("the".to_string(), 3)));
    assert_eq!(identifier("Given a", 0), Some(("Given".to_string(), 5)));
}

#[test]
fn keyword_needs_a_word_boundary() {
    assert_eq!(keyword("is a Heart", 0, "is a"), Some(4));
    assert_eq!(keyword("is an Ace", 0, "is a"), None);
    assert_eq!(keyword("is an Ace", 0, "is an"), Some(5));
    assert_eq!(keyword("is", 0, "is"), Some(2));
    assert_eq!(keyword("is!", 0, "is"), Some(2));
    assert_eq!(keyword("island", 0, "is"), None);
}

#[test]
fn keyword_fails_when_the_text_is_too_short() {
    assert_eq!(keyword("is", 0, "is a"), None);
    assert_eq!(keyword("is a", 3, "is a"), None);
    assert_eq!(keyword("is a", 40, "is a"), None);
}

#[test]
fn keyword_wants_single_spaces_inside_a_tag() {
    assert_eq!(keyword("is  a x", 0, "is a"), None);
}

#[test]
fn either_keyword_is_found() {
    assert_eq!(keyword2("or a Spades", 0, "or a", "or an"), Some(4));
    assert_eq!(keyword2("or an Ace", 0, "or a", "or an"), Some(5));
    assert_eq!(keyword2("or the", 0, "or a", "or an"), None);
}

#[test]
fn next_tokens_need_whitespace_first() {
    assert_eq!(next_keyword("x  of y", 1, "of"), Some(5));
    assert_eq!(next_keyword("xof y", 1, "of"), None);
    assert_eq!(next_identifier("x   yz", 1), Some(("yz".to_string(), 6)));
    assert_eq!(next_identifier("xyz", 1), None);
    assert_eq!(next_identifier("x  ", 1), None);
}

#[test]
fn scans_stay_put_beyond_the_text() {
    assert_eq!(past_spaces("  ", 5), 5);
    assert_eq!(past_word("ab", 5), 5);
    assert_eq!(past_spaces("  x", 0), 2);
    assert_eq!(past_word("ab c", 0), 2);
}

#[test]
fn next_keyword_of_two() {
    assert_eq!(next_keyword2("x and an y", 1, "and a", "and an"), Some(8));
    assert_eq!(next_keyword2("x and a y", 1, "and a", "and an"), Some(7));
    assert_eq!(next_keyword2("x and y", 1, "and a", "and an"), None);
    assert_eq!(next_keyword2("and a y", 0, "and a", "and an"), None);
}
