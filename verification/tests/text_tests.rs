use lang_front::scanner::{keyword_category, str_eq, Category};
use lang_front::source_map::{char_len_utf8, decode_at};
use lang_front::syntax::scanner::keyword_category as keyword_category_with_calls;
use lang_front::syntax::scanner::{is_whitespace, Category as NamedCategory, Delim};

#[test]
fn characters_are_decoded_at_their_first_byte() {
    let text = "aé€😀";
    assert_eq!(Some('a'), decode_at(text, 0));
    assert_eq!(Some('é'), decode_at(text, 1));
    assert_eq!(Some('€'), decode_at(text, 3));
    assert_eq!(Some('😀'), decode_at(text, 6));
    assert_eq!(None, decode_at(text, 10));
    assert_eq!(None, decode_at("", 0));
}

#[test]
fn a_character_takes_one_to_four_bytes() {
    assert_eq!(1, char_len_utf8('\u{0}'));
    assert_eq!(1, char_len_utf8('\u{7f}'));
    assert_eq!(2, char_len_utf8('\u{80}'));
    assert_eq!(2, char_len_utf8('\u{7ff}'));
    assert_eq!(3, char_len_utf8('\u{800}'));
    assert_eq!(3, char_len_utf8('\u{ffff}'));
    assert_eq!(4, char_len_utf8('\u{10000}'));
    assert_eq!(4, char_len_utf8('\u{10ffff}'));
    for c in ['a', 'é', '€', '😀'] {
        assert_eq!(c.len_utf8(), char_len_utf8(c));
    }
}

#[test]
fn strings_are_equal_when_their_characters_are() {
    assert!(str_eq("", ""));
    assert!(str_eq("while", "while"));
    assert!(str_eq("é€", "é€"));
    assert!(!str_eq("while", "whilf"));
    assert!(!str_eq("while", "whil"));
    assert!(!str_eq("", "a"));
    assert!(!str_eq("é", "e"));
}

#[test]
fn keywords_are_told_from_identifiers() {
    let keywords = [
        ("program", Category::Program),
        ("let", Category::Let),
        ("int", Category::Int),
        ("bool", Category::Bool),
        ("float", Category::Float),
        ("str", Category::Str),
        ("if", Category::If),
        ("else", Category::Else),
        ("while", Category::While),
    ];
    for (text, category) in keywords {
        assert_eq!(category, keyword_category(text));
    }
    for text in ["Program", "lets", "i", "", "read", "writeln", "while_", "_if"] {
        assert_eq!(Category::Ident, keyword_category(text));
    }
}

#[test]
fn calls_are_keywords_where_delimiters_are_named() {
    let keywords = [
        ("program", NamedCategory::Program),
        ("let", NamedCategory::Let),
        ("int", NamedCategory::Int),
        ("bool", NamedCategory::Bool),
        ("float", NamedCategory::Float),
        ("str", NamedCategory::Str),
        ("read", NamedCategory::Read),
        ("readln", NamedCategory::Readln),
        ("write", NamedCategory::Write),
        ("writeln", NamedCategory::Writeln),
        ("if", NamedCategory::If),
        ("else", NamedCategory::Else),
        ("while", NamedCategory::While),
    ];
    for (text, category) in keywords {
        assert_eq!(category, keyword_category_with_calls(text));
    }
    for text in ["reads", "Write", "ln", ""] {
        assert_eq!(NamedCategory::Ident, keyword_category_with_calls(text));
    }
    assert_ne!(NamedCategory::OpenDelim(Delim::Paren), NamedCategory::OpenDelim(Delim::Curly));
    assert!(is_whitespace(Some('\u{2028}')));
    assert!(!is_whitespace(Some('x')));
    assert!(!is_whitespace(None));
}
