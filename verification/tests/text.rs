use formasm::text::{
    code_tokens, contains, copy_range, fill, has_char, matches_at, read_decimal, read_signed,
    read_unsigned, same_text, scan, space, split_lines, split_tokens, to_chars, CharClass,
};

fn chars(s: &str) -> Vec<char> {
    s.chars().collect()
}

fn texts(v: &[&str]) -> Vec<Vec<char>> {
    v.iter().map(|t| chars(t)).collect()
}

#[test]
fn lines_are_split_at_line_feeds() {
    assert_eq!(split_lines(&chars("a\nbc\n\nd")), texts(&["a", "bc", "", "d"]));
    assert_eq!(split_lines(&chars("a\nbc\n")), texts(&["a", "bc"]));
    assert_eq!(split_lines(&chars("a\n\n")), texts(&["a", ""]));
    assert_eq!(split_lines(&chars("\n")), texts(&[""]));
    assert_eq!(split_lines(&chars("\na")), texts(&["", "a"]));
    assert_eq!(split_lines(&chars("abc")), texts(&["abc"]));
    assert_eq!(split_lines(&chars("")), texts(&[]));
}

#[test]
fn lines_agree_with_the_standard_library() {
    for text in ["", "\n", "a", "a\n", "a\nb", "\n\n", "x y\n\n z \n", "💬\n💘 🍩 🍊 1\n"] {
        let expected: Vec<Vec<char>> = text.lines().map(chars).collect();
        assert_eq!(split_lines(&chars(text)), expected);
    }
}

#[test]
fn tokens_are_runs_without_separators() {
    assert_eq!(split_tokens(&chars("  a bc\t d  ")), texts(&["a", "bc", "d"]));
    assert_eq!(split_tokens(&chars("abc")), texts(&["abc"]));
    assert_eq!(split_tokens(&chars("   ")), texts(&[]));
    assert_eq!(split_tokens(&chars("")), texts(&[]));
    assert_eq!(split_tokens(&chars("💘\u{3000}🍩\u{a0}🍊\r")), texts(&["💘", "🍩", "🍊"]));
}

#[test]
fn tokens_agree_with_the_standard_library() {
    for text in ["", " ", "a", " a", "a ", "a  b", "\ta\u{2003}b\u{85}c\r\n", "💘 🍩 🍊 1 # x"] {
        let expected: Vec<Vec<char>> = text.split_whitespace().map(chars).collect();
        assert_eq!(split_tokens(&chars(text)), expected);
    }
}

#[test]
fn separators_are_the_white_space_characters() {
    for code in 0..0x11000u32 {
        if let Some(c) = char::from_u32(code) {
            assert_eq!(space(c), c.is_whitespace());
            assert_eq!(CharClass::Space.holds(c), c.is_whitespace());
            assert_eq!(CharClass::Word.holds(c), !c.is_whitespace());
            assert_eq!(CharClass::Line.holds(c), c != '\n');
        }
    }
}

#[test]
fn comment_ends_the_tokens() {
    assert_eq!(code_tokens(&chars("a b # c d")), texts(&["a", "b"]));
    assert_eq!(code_tokens(&chars("a b #c d")), texts(&["a", "b"]));
    assert_eq!(code_tokens(&chars("a b# c")), texts(&["a", "b#", "c"]));
    assert_eq!(code_tokens(&chars("# a b")), texts(&[]));
    assert_eq!(code_tokens(&chars("  #")), texts(&[]));
    assert_eq!(code_tokens(&chars("a b")), texts(&["a", "b"]));
    assert_eq!(code_tokens(&chars("")), texts(&[]));
}

#[test]
fn scan_stops_at_the_end_of_the_run() {
    let text = chars("  ab \ncd");
    assert_eq!(scan(&text, 0, CharClass::Space), 2);
    assert_eq!(scan(&text, 2, CharClass::Space), 2);
    assert_eq!(scan(&text, 2, CharClass::Word), 4);
    assert_eq!(scan(&text, 0, CharClass::Line), 5);
    assert_eq!(scan(&text, 5, CharClass::Line), 5);
    assert_eq!(scan(&text, 6, CharClass::Line), 8);
    assert_eq!(scan(&text, 8, CharClass::Word), 8);
}

#[test]
fn copy_range_copies_the_range() {
    let text = chars("hello");
    assert_eq!(copy_range(&text, 1, 3), chars("el"));
    assert_eq!(copy_range(&text, 0, 5), chars("hello"));
    assert_eq!(copy_range(&text, 5, 5), chars(""));
}

#[test]
fn substring_search() {
    assert!(contains(&chars("hello"), &chars("ell")));
    assert!(contains(&chars("hello"), &chars("hello")));
    assert!(contains(&chars("hello"), &chars("o")));
    assert!(contains(&chars("hello"), &chars("h")));
    assert!(contains(&chars("hello"), &chars("")));
    assert!(contains(&chars(""), &chars("")));
    assert!(!contains(&chars("hello"), &chars("hellos")));
    assert!(!contains(&chars("hello"), &chars("lle")));
    assert!(!contains(&chars(""), &chars("a")));
    assert!(contains(&chars("aab"), &chars("ab")));
    assert!(matches_at(&chars("aab"), &chars("ab"), 1));
    assert!(!matches_at(&chars("aab"), &chars("ab"), 0));
    assert!(matches_at(&chars("aab"), &chars(""), 3));
}

#[test]
fn character_search() {
    assert!(has_char(&chars("a💬b"), '💬'));
    assert!(has_char(&chars("💬"), '💬'));
    assert!(!has_char(&chars("a🔒b"), '💬'));
    assert!(!has_char(&chars(""), '💬'));
}

#[test]
fn texts_are_compared_by_their_characters() {
    assert!(same_text(&chars("abc"), &chars("abc")));
    assert!(same_text(&chars(""), &chars("")));
    assert!(!same_text(&chars("abc"), &chars("abd")));
    assert!(!same_text(&chars("abc"), &chars("ab")));
    assert!(!same_text(&chars("ab"), &chars("abc")));
}

#[test]
fn placeholders_are_filled() {
    assert_eq!(fill(&chars("👈 🍩 _"), &chars("5")), chars("👈 🍩 5"));
    assert_eq!(fill(&chars("_a__"), &chars("xy")), chars("xyaxyxy"));
    assert_eq!(fill(&chars("a_b"), &chars("")), chars("ab"));
    assert_eq!(fill(&chars("a_b"), &chars("_")), chars("a_b"));
    assert_eq!(fill(&chars("abc"), &chars("x")), chars("abc"));
    assert_eq!(fill(&chars(""), &chars("x")), chars(""));
}

#[test]
fn decimal_numbers_are_read_with_a_cap() {
    assert_eq!(read_decimal(&chars("0"), 0, 7), Some(0));
    assert_eq!(read_decimal(&chars("7"), 0, 7), Some(7));
    assert_eq!(read_decimal(&chars("8"), 0, 7), Some(8));
    assert_eq!(read_decimal(&chars("9"), 0, 7), Some(8));
    assert_eq!(read_decimal(&chars("123456789012345678901234567890"), 0, 7), Some(8));
    assert_eq!(read_decimal(&chars("255"), 0, 255), Some(255));
    assert_eq!(read_decimal(&chars("256"), 0, 255), Some(256));
    assert_eq!(read_decimal(&chars("99999"), 0, 255), Some(256));
    assert_eq!(read_decimal(&chars("x12"), 1, 15), Some(12));
    assert_eq!(read_decimal(&chars("0012"), 0, 15), Some(12));
    assert_eq!(read_decimal(&chars(""), 0, 15), None);
    assert_eq!(read_decimal(&chars("12"), 2, 15), None);
    assert_eq!(read_decimal(&chars("1x"), 0, 15), None);
    assert_eq!(read_decimal(&chars("१"), 0, 15), None);
    assert_eq!(read_decimal(&chars("/"), 0, 15), None);
    assert_eq!(read_decimal(&chars(":"), 0, 15), None);
}

#[test]
fn unsigned_literals() {
    assert_eq!(read_unsigned(&chars("5"), 7), Some(5));
    assert_eq!(read_unsigned(&chars("+5"), 7), Some(5));
    assert_eq!(read_unsigned(&chars("+50"), 7), Some(8));
    assert_eq!(read_unsigned(&chars("-5"), 7), None);
    assert_eq!(read_unsigned(&chars("+"), 7), None);
    assert_eq!(read_unsigned(&chars("++5"), 7), None);
    assert_eq!(read_unsigned(&chars(""), 7), None);
}

#[test]
fn signed_literals() {
    assert_eq!(read_signed(&chars("5"), 15), Some(5));
    assert_eq!(read_signed(&chars("+5"), 15), Some(5));
    assert_eq!(read_signed(&chars("-5"), 15), Some(-5));
    assert_eq!(read_signed(&chars("-0"), 15), Some(0));
    assert_eq!(read_signed(&chars("15"), 15), Some(15));
    assert_eq!(read_signed(&chars("-15"), 15), Some(-15));
    assert_eq!(read_signed(&chars("16"), 15), Some(16));
    assert_eq!(read_signed(&chars("-16"), 15), Some(-16));
    assert_eq!(read_signed(&chars("1000"), 15), Some(16));
    assert_eq!(read_signed(&chars("-1000"), 15), Some(-16));
    assert_eq!(read_signed(&chars("-300"), 255), Some(-256));
    assert_eq!(read_signed(&chars("-"), 15), None);
    assert_eq!(read_signed(&chars("+-5"), 15), None);
    assert_eq!(read_signed(&chars("-+5"), 15), None);
    assert_eq!(read_signed(&chars("5-"), 15), None);
    assert_eq!(read_signed(&chars(""), 15), None);
}

#[test]
fn literals_agree_with_the_standard_library() {
    for text in ["0", "7", "+7", "-7", "007", "255", "", "+", "-", "1 ", " 1", "1_0", "0x1"] {
        let expected: Option<u16> = text.parse::<u8>().ok().map(|v| v as u16);
        assert_eq!(read_unsigned(&chars(text), 255).filter(|v| *v <= 255), expected);
        let expected: Option<i16> = text.parse::<i8>().ok().map(|v| v as i16);
        assert_eq!(read_signed(&chars(text), 127).filter(|v| -127 <= *v && *v <= 127), expected);
    }
}

#[test]
fn strings_become_characters() {
    assert_eq!(to_chars("a💬b"), vec!['a', '💬', 'b']);
    assert_eq!(to_chars(""), Vec::<char>::new());
}
