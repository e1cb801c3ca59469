use lst::buffer::Buffer;
use lst::parse;
use lst::parse::TryParse;
use lst::tokens::{Array, Node, TokenKind, Value};
use lst::Linearize;

#[test]
fn test_foo() {
    let s = "//hello\n{\n\n";
    let s = parse(s.to_string());
    assert!(s.has_error());
    let s = s.linearize_tokens();
    assert_eq!(s, vec!["//hello\n", "{\n\n"]);

    let s = "//hello\n{\n\n}";
    let s = parse(s.to_string());
    assert!(!s.has_error());
    let s = s.linearize_tokens();
    assert_eq!(s, vec!["//hello\n", "{", "\n\n", "}"]);
}

#[test]
fn test_array() {
    let s = "[1, 2, 3]";
    let s = Buffer { content: s };
    let s = Node::<Array>::try_parse(s).unwrap();
    let mut buf = Vec::new();
    s.linearize("[1, 2, 3]", &mut buf);
}

#[test]
fn test_commas_between() {
    let s = "[1 2,]";
    let s = Buffer { content: s };
    let s = Node::<Array>::try_parse(s);
    assert!(s.is_err());
}

#[test]
fn array_of_three_parses_and_joins_back() {
    let s = parse("[1, 2, 3]".to_string());
    assert!(!s.has_error());
    assert_eq!(s.linearize_tokens().concat(), "[1, 2, 3]");
    assert_eq!(
        s.linearize_tokens(),
        vec!["[", "1", ",", " ", "2", ",", " ", "3", "]"]
    );
}

#[test]
fn array_tokens_carry_their_kinds() {
    let s = parse("[1, 2, 3]".to_string());
    let kinds: Vec<TokenKind> = s.linearize().into_iter().map(|(k, _)| k).collect();
    assert_eq!(
        kinds,
        vec![
            TokenKind::LeftBracket,
            TokenKind::Number,
            TokenKind::Comma,
            TokenKind::Trivia,
            TokenKind::Number,
            TokenKind::Comma,
            TokenKind::Trivia,
            TokenKind::Number,
            TokenKind::RightBracket,
        ]
    );
}

#[test]
fn array_without_comma_is_one_invalid_value() {
    let s = parse("[1 2,]".to_string());
    assert!(s.has_error());
    assert_eq!(s.linearize(), vec![(TokenKind::Invalid, "[1 2,]")]);
    assert!(matches!(s.dom().1 .1, Value::Invalid(_)));
}

#[test]
fn leading_zero_is_an_error() {
    let s = parse("01".to_string());
    assert!(s.has_error());
    assert_eq!(s.linearize(), vec![(TokenKind::Invalid, "01")]);
}

#[test]
fn true_takes_four_bytes() {
    let s = parse("true".to_string());
    assert!(!s.has_error());
    assert_eq!(s.dom().0, 0);
    assert_eq!(s.dom().1 .0, 4);
    assert!(matches!(s.dom().1 .1, Value::Boolean(_)));
    assert_eq!(s.linearize(), vec![(TokenKind::Boolean, "true")]);
}

#[test]
fn unterminated_object_behind_a_comment() {
    let s = parse("//hello\n{\n\n".to_string());
    assert!(s.has_error());
    assert_eq!(
        s.linearize(),
        vec![(TokenKind::Trivia, "//hello\n"), (TokenKind::Invalid, "{\n\n")]
    );
}

#[test]
fn empty_object_behind_a_comment() {
    let s = parse("//hello\n{\n\n}".to_string());
    assert!(!s.has_error());
    assert_eq!(
        s.linearize(),
        vec![
            (TokenKind::Trivia, "//hello\n"),
            (TokenKind::LeftBrace, "{"),
            (TokenKind::Trivia, "\n\n"),
            (TokenKind::RightBrace, "}"),
        ]
    );
}

fn concat_lines(lines: &[&str]) -> String {
    let mut text = String::new();
    for line in lines {
        text.push_str(line);
        text.push('\n');
    }
    text
}

#[test]
fn document_of_many_lines() {
    let text = concat_lines(&[
        "// settings",
        "{",
        "  \"name\": \"demo\", // the name",
        "  \"tags\": [\"a\", \"b\"],",
        "  \"on\": true,",
        "  \"ratio\": 0.25",
        "}",
    ]);
    let text = text.as_str();
    let s = parse(text.to_string());
    assert!(!s.has_error());
    assert_eq!(s.linearize_tokens().concat(), text);
    assert_eq!(
        s.linearize_tokens(),
        vec![
            "// settings\n", "{", "\n  ", "\"name\"", ":", " ", "\"demo\"", ",",
            " // the name\n  ", "\"tags\"", ":", " ", "[", "\"a\"", ",", " ", "\"b\"", "]", ",",
            "\n  ", "\"on\"", ":", " ", "true", ",", "\n  ", "\"ratio\"", ":", " ", "0.25",
            "\n", "}", "\n",
        ]
    );
}
