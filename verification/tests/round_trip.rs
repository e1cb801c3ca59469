use lst::grammar::MAX_DEPTH;
use lst::parse;
use lst::parse::{ErrorKind, ParseError, Parser};
use lst::source::Source;
use lst::buffer::Buffer;
use lst::parse::TryParse;
use lst::tokens::{
    Array, Colon, Comma, Invalid, Item, LeftBracket, Node, Number, Object, Offset, RightBrace,
    RightBracket, TokenKind, Value,
};
use lst::width::Width;
use lst::Linearize;

const SAMPLES: [&str; 40] = [
    "",
    " ",
    "\n",
    "//",
    "// only a comment",
    "1",
    "0",
    "0.5",
    "01",
    "1.2.3",
    "true",
    "false",
    "truth",
    "\"text\"",
    "\"open",
    "\"\u{e9}\u{1F600}\"",
    "[]",
    "[1, 2, 3]",
    "[1 2,]",
    "[1,",
    "[[1], [2, [3]], []]",
    "{}",
    "{\"a\": 1}",
    "{\"a\": 1, \"b\": [true, false], \"c\": {\"d\": \"e\"}}",
    "{\"a\": 1 \"b\": 2}",
    "{\"a\" 1}",
    "{\"a\": [1 2]}",
    "[{\"a\": nope}, 2]",
    "//hello\n{\n\n",
    "//hello\n{\n\n}",
    "1 2",
    "1\n",
    "  [ 1 , 2 ]  // done\n",
    "null",
    "-1",
    "\u{3000}[\u{a0}1\u{2003},\u{e9}]",
    "{\"k\": \"\\\"\"} trailing",
    "[1, 2] ]",
    "\u{0}\u{ffff}\u{10ffff}",
    "/ not a comment",
];

fn nested(open: &str, close: &str, depth: usize) -> String {
    let mut s = String::new();
    for _ in 0..depth {
        s.push_str(open);
    }
    for _ in 0..depth {
        s.push_str(close);
    }
    s
}

#[test]
fn tokens_join_back_to_the_text() {
    for text in SAMPLES {
        let s = parse(text.to_string());
        assert_eq!(s.linearize_tokens().concat(), text, "{:?}", text);
        let with_kinds: String = s.linearize().into_iter().map(|(_, t)| t).collect();
        assert_eq!(with_kinds, text, "{:?}", text);
        assert_eq!(s.content(), text);
    }
}

#[test]
fn every_text_parses() {
    for text in SAMPLES {
        let s = parse(text.to_string());
        let _ = s.has_error();
        let _ = s.linearize();
    }
    let mut all = String::new();
    for text in SAMPLES {
        all.push_str(text);
        let _ = parse(all.clone()).linearize_tokens();
    }
}

#[test]
fn errors_are_invalid_tokens() {
    for text in SAMPLES {
        let s = parse(text.to_string());
        let invalid = s.linearize().iter().any(|(k, _)| *k == TokenKind::Invalid);
        assert_eq!(s.has_error(), invalid, "{:?}", text);
    }
}

#[test]
fn errors_of_a_subtree_are_its_invalid_tokens() {
    let number = |comma: Option<Comma>| Item {
        item: Offset(0, Node(1, Value::Number(Number))),
        comma: Offset(0, comma),
    };
    let inner = Array {
        left_bracket: Offset(0, LeftBracket),
        values: vec![Item {
            item: Offset(1, Node(1, Value::Invalid(ParseError::new(ErrorKind::InvalidValue)))),
            comma: Offset(0, None),
        }],
        right_bracket: Offset(1, RightBracket),
    };
    let outer = Array {
        left_bracket: Offset(0, LeftBracket),
        values: vec![
            number(Some(Comma)),
            Item { item: Offset(0, Node(5, Value::Array(inner))), comma: Offset(0, Some(Comma)) },
            number(None),
        ],
        right_bracket: Offset(0, RightBracket),
    };
    let text = "[1,[ x ],2]";
    let tree = Node(11, Value::Array(outer));
    let mut buf = Vec::new();
    tree.linearize(text, &mut buf);
    assert_eq!(
        buf,
        vec![
            (TokenKind::LeftBracket, "["),
            (TokenKind::Number, "1"),
            (TokenKind::Comma, ","),
            (TokenKind::LeftBracket, "["),
            (TokenKind::Trivia, " "),
            (TokenKind::Invalid, "x"),
            (TokenKind::Trivia, " "),
            (TokenKind::RightBracket, "]"),
            (TokenKind::Comma, ","),
            (TokenKind::Number, "2"),
            (TokenKind::RightBracket, "]"),
        ]
    );
    assert!(tree.1.has_error());
    let Value::Array(outer) = &tree.1 else {
        panic!("an array was expected");
    };
    assert!(!outer.values[0].item.1 .1.has_error());
    assert!(outer.values[1].item.1 .1.has_error());
    assert!(!outer.values[2].item.1 .1.has_error());
    let mut first = Vec::new();
    outer.values[0].linearize("1,", &mut first);
    assert_eq!(first, vec![(TokenKind::Number, "1"), (TokenKind::Comma, ",")]);
}

#[test]
fn an_error_inside_takes_the_rest_of_the_text() {
    let s = parse("[1, [x], {\"a\": [2, 3]}]".to_string());
    assert!(s.has_error());
    assert_eq!(s.linearize(), vec![(TokenKind::Invalid, "[1, [x], {\"a\": [2, 3]}]")]);
}

#[test]
fn which_samples_have_errors() {
    let clean = [
        "1", "0", "0.5", "true", "false", "\"text\"", "[]", "[1, 2, 3]", "{}", "{\"a\": 1}",
        "{\"a\": 1 \"b\": 2}", "//hello\n{\n\n}", "1\n", "  [ 1 , 2 ]  // done\n",
    ];
    for text in clean {
        assert!(!parse(text.to_string()).has_error(), "{:?}", text);
    }
    let broken = [
        "", " ", "//", "01", "1.2.3", "truth", "\"open", "[1 2,]", "[1,", "{\"a\" 1}",
        "{\"a\": [1 2]}", "//hello\n{\n\n", "1 2", "null", "-1", "[1, 2] ]",
    ];
    for text in broken {
        assert!(parse(text.to_string()).has_error(), "{:?}", text);
    }
}

#[test]
fn text_behind_the_value_is_kept() {
    let s = parse("1 2".to_string());
    assert!(s.has_error());
    assert_eq!(
        s.linearize(),
        vec![(TokenKind::Number, "1"), (TokenKind::Trivia, " "), (TokenKind::Invalid, "2")]
    );
    assert_eq!(
        *s.trailing(),
        Offset(1, Some(Node(1, Invalid(ParseError::new(ErrorKind::TrailingInput)))))
    );
    let s = parse("[1] // done\n".to_string());
    assert!(!s.has_error());
    assert_eq!(s.linearize_tokens(), vec!["[", "1", "]", " // done\n"]);
    assert_eq!(*s.trailing(), Offset(9, None));
    let s = parse("true".to_string());
    assert_eq!(*s.trailing(), Offset(0, None));
}

#[test]
fn empty_text_is_one_empty_invalid_token() {
    let s = parse(String::new());
    assert!(s.has_error());
    assert_eq!(s.linearize(), vec![(TokenKind::Invalid, "")]);
    assert_eq!(
        *s.dom(),
        Offset(0, Node(0, Value::Invalid(ParseError::new(ErrorKind::EmptyInput))))
    );
}

#[test]
fn nesting_is_limited() {
    let s = parse(nested("[", "]", MAX_DEPTH));
    assert!(!s.has_error());
    let s = parse(nested("[", "]", MAX_DEPTH + 1));
    assert!(s.has_error());
    let text = nested("{\"k\":", "}", MAX_DEPTH + 1);
    let s = parse(text.clone());
    assert!(s.has_error());
    assert_eq!(s.linearize_tokens().concat(), text);
    let text = nested("[", "]", 5000);
    let s = parse(text.clone());
    assert!(s.has_error());
    assert_eq!(s.linearize(), vec![(TokenKind::Invalid, text.as_str())]);
}

#[test]
fn parser_parses_a_copy() {
    let p = Parser::new("[1, 2]");
    let s: Source = p.parse();
    assert!(!s.has_error());
    assert_eq!(s.content(), "[1, 2]");
    assert_eq!(s.linearize_tokens(), vec!["[", "1", ",", " ", "2", "]"]);
}

#[test]
fn unicode_text_round_trips() {
    let text = "\u{3000}{\"n\u{e9}\": [\"\u{1F600}\", 1],\u{2028}\"k\": \"\\\u{e9}\"}\u{a0}";
    let s = parse(text.to_string());
    assert!(!s.has_error());
    assert_eq!(s.linearize_tokens().concat(), text);
    assert_eq!(s.dom().0, 3);
    assert_eq!(s.trailing().0, 2);
}

#[test]
fn parts_linearize_on_their_own() {
    let mut buf = Vec::new();
    Colon.linearize(": 1", &mut buf);
    assert_eq!(buf, vec![(TokenKind::Colon, ":")]);

    let mut buf = Vec::new();
    Offset(2, RightBrace).linearize("  } tail", &mut buf);
    assert_eq!(buf, vec![(TokenKind::Trivia, "  "), (TokenKind::RightBrace, "}")]);

    let mut buf = Vec::new();
    Offset(1, Some(Comma)).linearize(" , 2", &mut buf);
    Offset(1, None::<Comma>).linearize(" ]", &mut buf);
    Offset(0, None::<Comma>).linearize("]", &mut buf);
    assert_eq!(
        buf,
        vec![(TokenKind::Trivia, " "), (TokenKind::Comma, ","), (TokenKind::Trivia, " ")]
    );

    let mut buf = Vec::new();
    Node(5, lst::tokens::String).linearize("\"key\": 1", &mut buf);
    assert_eq!(buf, vec![(TokenKind::String, "\"key\"")]);

    let text = "{ \"a\" : true , \"b\":[] }";
    let object = Node::<Object>::try_parse(Buffer { content: text }).unwrap();
    assert_eq!(object.0, text.len());
    let mut buf = Vec::new();
    object.1.linearize(text, &mut buf);
    let joined: String = buf.iter().map(|(_, t)| *t).collect();
    assert_eq!(joined, text);
    let mut first = Vec::new();
    object.1.pairs[0].linearize(" \"a\" : true , \"b\":[] }", &mut first);
    assert_eq!(
        first,
        vec![
            (TokenKind::Trivia, " "),
            (TokenKind::String, "\"a\""),
            (TokenKind::Trivia, " "),
            (TokenKind::Colon, ":"),
            (TokenKind::Trivia, " "),
            (TokenKind::Boolean, "true"),
            (TokenKind::Trivia, " "),
            (TokenKind::Comma, ","),
        ]
    );
    assert_eq!(object.1.pairs[0].width(), 13);
}
