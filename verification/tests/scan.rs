use page_parser::chars::{
    hex_digit, is_digit, is_number_char, is_tag_char, is_whitespace, same_letter,
    valid_identifier_char,
};
use page_parser::error::ParseError;
use page_parser::scan::{chars_of, text_is, text_is_ignoring_ascii_case, Scanner};

#[test]
fn whitespace_is_what_the_standard_library_calls_whitespace() {
    for code in 0..=0x10ffffu32 {
        if let Some(c) = char::from_u32(code) {
            assert_eq!(is_whitespace(c), c.is_whitespace(), "at {:x}", code);
        }
    }
}

#[test]
fn character_classes() {
    for code in 0..=0x10ffffu32 {
        if let Some(c) = char::from_u32(code) {
            assert_eq!(is_digit(c), c.is_ascii_digit());
            assert_eq!(is_tag_char(c), c.is_ascii_alphanumeric());
            assert_eq!(valid_identifier_char(c), c.is_ascii_alphanumeric() || c == '-' || c == '_');
            assert_eq!(is_number_char(c), c.is_ascii_digit() || c == '.');
            assert_eq!(hex_digit(c), c.to_digit(16).map(|d| d as u8));
            assert_eq!(same_letter(c, 'q'), c.to_ascii_lowercase() == 'q');
            assert_eq!(same_letter('Q', c), c.to_ascii_lowercase() == 'q');
            assert!(same_letter(c, c));
        }
    }
    assert!(!same_letter('a', 'b'));
    assert!(!same_letter('@', '`'));
    assert!(!same_letter('[', '{'));
}

#[test]
fn texts_are_compared_character_by_character() {
    assert!(text_is("style", "style"));
    assert!(!text_is("style", "Style"));
    assert!(!text_is("style", "styles"));
    assert!(text_is("", ""));
    assert!(text_is_ignoring_ascii_case("DocType", "DOCTYPE"));
    assert!(text_is_ignoring_ascii_case("px", "PX"));
    assert!(!text_is_ignoring_ascii_case("px", "p"));
    assert!(!text_is_ignoring_ascii_case("pt", "px"));
    assert!(!text_is_ignoring_ascii_case("ſ", "s"));
    assert_eq!(chars_of("aé\u{1F600}z"), vec!['a', 'é', '\u{1F600}', 'z']);
    assert_eq!(chars_of(""), Vec::<char>::new());
}

#[test]
fn doctype_word_agrees_with_upper_casing() {
    let samples = [
        "DOCTYPE", "doctype", "DocType", "dOCTYPe", "DOCTYP", "DOCTYPES", "DOCTYPE>", "D0CTYPE",
        "ÐOCTYPE", "doctypé", "", "DOCTYPı", "ⅮOCTYPE",
    ];
    for word in samples {
        assert_eq!(
            text_is_ignoring_ascii_case(word, "DOCTYPE"),
            word.to_uppercase() == "DOCTYPE",
            "on {:?}",
            word
        );
    }
}

#[test]
fn scanner_reads_characters_in_order() {
    let mut scan = Scanner::new("aé\u{1F600}");
    assert!(!scan.eof());
    assert_eq!(scan.next_char(), Ok('a'));
    assert_eq!(scan.next_char(), Ok('a'));
    assert_eq!(scan.consume_char(), Ok('a'));
    assert_eq!(scan.consume_char(), Ok('é'));
    assert_eq!(scan.next_char(), Ok('\u{1F600}'));
    assert_eq!(scan.consume_char(), Ok('\u{1F600}'));
    assert!(scan.eof());
    assert_eq!(scan.next_char(), Err(ParseError::EndOfInput));
    assert_eq!(scan.consume_char(), Err(ParseError::EndOfInput));
    assert!(scan.eof());
    assert!(Scanner::new("").eof());
}

#[test]
fn consume_while_takes_the_longest_run() {
    let mut scan = Scanner::new("aaabaa");
    assert_eq!(scan.consume_while(|c| c == 'a'), "aaa");
    assert_eq!(scan.consume_while(|c| c == 'a'), "");
    assert_eq!(scan.next_char(), Ok('b'));
    assert_eq!(scan.consume_while(|c| c != 'x'), "baa");
    assert!(scan.eof());
    assert_eq!(scan.consume_while(|_| true), "");
    let mut scan = Scanner::new("héllo wörld");
    assert_eq!(scan.consume_while(|c| !c.is_whitespace()), "héllo");
}

#[test]
fn consume_whitespace_stops_at_the_first_other_character() {
    let mut scan = Scanner::new(" \t\r\n\u{a0}\u{3000}x y");
    scan.consume_whitespace();
    assert_eq!(scan.consume_char(), Ok('x'));
    scan.consume_whitespace();
    scan.consume_whitespace();
    assert_eq!(scan.consume_char(), Ok('y'));
    scan.consume_whitespace();
    assert!(scan.eof());
}

#[test]
fn starts_with_looks_ahead_without_reading() {
    let mut scan = Scanner::new("a</b");
    assert!(scan.starts_with("a"));
    assert!(scan.starts_with("a</"));
    assert!(scan.starts_with(""));
    assert!(!scan.starts_with("</"));
    assert!(!scan.starts_with("a</bc"));
    assert_eq!(scan.consume_char(), Ok('a'));
    assert!(scan.starts_with("</"));
    assert!(scan.starts_with("</b"));
    assert!(!scan.starts_with("<b"));
    assert_eq!(scan.next_char(), Ok('<'));
}

#[test]
fn expect_char_reads_only_the_character_that_is_due() {
    let mut scan = Scanner::new("ab");
    assert_eq!(scan.expect_char('a'), Ok(()));
    assert_eq!(scan.expect_char('a'), Err(ParseError::StructuralMismatch));
    let mut scan = Scanner::new("");
    assert_eq!(scan.expect_char('a'), Err(ParseError::EndOfInput));
}
