use lst::buffer::Buffer;
use lst::grammar::MAX_DEPTH;
use lst::parse::{
    parse_boolean, parse_number, parse_punct, parse_string, parse_value, ErrorKind, ParseError,
    TryParse,
};
use lst::tokens::array::parse_array;
use lst::tokens::object::parse_object;
use lst::tokens::offset::{is_whitespace_char, skip_trivia};
use lst::tokens::{
    Boolean, Colon, Comma, Item, LeftBrace, Node, Number, Object, Offset, Pair, Value,
};
use lst::width::Width;

fn buf(s: &str) -> Buffer<'_> {
    Buffer { content: s }
}

fn err<T>(kind: ErrorKind) -> Result<T, ParseError> {
    Err(ParseError::new(kind))
}

#[test]
fn number_accepts_zero_and_zero_point_five() {
    assert_eq!(parse_number(buf("0")), Ok(Node(1, Number)));
    assert_eq!(parse_number(buf("0.5")), Ok(Node(3, Number)));
    assert_eq!(Node::<Number>::try_parse(buf("0.5")), Ok(Node(3, Number)));
}

#[test]
fn number_rejects_leading_zeros() {
    assert_eq!(parse_number(buf("01")), err(ErrorKind::LeadingZero));
    assert_eq!(parse_number(buf("00")), err(ErrorKind::LeadingZero));
    assert_eq!(parse_number(buf("007")), err(ErrorKind::LeadingZero));
    assert_eq!(parse_number(buf("00.5")), err(ErrorKind::LeadingZero));
}

#[test]
fn number_stops_at_the_first_other_character() {
    assert_eq!(parse_number(buf("12,")), Ok(Node(2, Number)));
    assert_eq!(parse_number(buf("12.75]")), Ok(Node(5, Number)));
    assert_eq!(parse_number(buf("0x")), Ok(Node(1, Number)));
    assert_eq!(parse_number(buf("3.")), Ok(Node(2, Number)));
    assert_eq!(parse_number(buf("1e5")), Ok(Node(1, Number)));
}

#[test]
fn number_rejects_what_is_no_digit() {
    assert_eq!(parse_number(buf("")), err(ErrorKind::MissingDigit));
    assert_eq!(parse_number(buf("-1")), err(ErrorKind::MissingDigit));
    assert_eq!(parse_number(buf(".5")), err(ErrorKind::MissingDigit));
    assert_eq!(parse_number(buf("\u{0663}")), err(ErrorKind::MissingDigit));
}

#[test]
fn number_rejects_a_second_decimal_point() {
    assert_eq!(parse_number(buf("1.2.3")), err(ErrorKind::MultipleDecimalPoints));
    assert_eq!(parse_number(buf("1..")), err(ErrorKind::MultipleDecimalPoints));
    assert_eq!(parse_number(buf("01.2.3")), err(ErrorKind::MultipleDecimalPoints));
}

#[test]
fn string_runs_through_its_closing_quote() {
    assert_eq!(parse_string(buf("\"\"")), Ok(Node(2, lst::tokens::String)));
    assert_eq!(parse_string(buf("\"abc\" rest")), Ok(Node(5, lst::tokens::String)));
    assert_eq!(
        Node::<lst::tokens::String>::try_parse(buf("\"abc\"")),
        Ok(Node(5, lst::tokens::String))
    );
}

#[test]
fn string_width_counts_bytes() {
    assert_eq!(parse_string(buf("\"\u{e9}\"")), Ok(Node(4, lst::tokens::String)));
    assert_eq!(parse_string(buf("\"\u{1F600}\"x")), Ok(Node(6, lst::tokens::String)));
}

#[test]
fn string_backslash_takes_the_next_character_along() {
    assert_eq!(parse_string(buf("\"a\\\"b\"")), Ok(Node(6, lst::tokens::String)));
    assert_eq!(parse_string(buf("\"\\q\"")), Ok(Node(4, lst::tokens::String)));
    assert_eq!(parse_string(buf("\"\\\u{e9}\"")), Ok(Node(5, lst::tokens::String)));
    assert_eq!(parse_string(buf("\"\\\\\"")), Ok(Node(4, lst::tokens::String)));
    assert_eq!(parse_string(buf("\"\\\"")), err(ErrorKind::UnterminatedLiteral));
    assert_eq!(parse_string(buf("\"\\")), err(ErrorKind::UnterminatedLiteral));
}

#[test]
fn string_errors() {
    assert_eq!(parse_string(buf("")), err(ErrorKind::UnexpectedStart));
    assert_eq!(parse_string(buf("abc\"")), err(ErrorKind::UnexpectedStart));
    assert_eq!(parse_string(buf("\"abc")), err(ErrorKind::UnterminatedLiteral));
}

#[test]
fn boolean_is_true_or_false() {
    assert_eq!(parse_boolean(buf("true")), Ok(Node(4, Boolean)));
    assert_eq!(parse_boolean(buf("false")), Ok(Node(5, Boolean)));
    assert_eq!(parse_boolean(buf("truest")), Ok(Node(4, Boolean)));
    assert_eq!(Node::<Boolean>::try_parse(buf("false,")), Ok(Node(5, Boolean)));
    assert_eq!(parse_boolean(buf("tru")), err(ErrorKind::InvalidBoolean));
    assert_eq!(parse_boolean(buf("fals")), err(ErrorKind::InvalidBoolean));
    assert_eq!(parse_boolean(buf("True")), err(ErrorKind::InvalidBoolean));
    assert_eq!(parse_boolean(buf("")), err(ErrorKind::InvalidBoolean));
}

#[test]
fn punctuation_matches_one_character() {
    assert_eq!(parse_punct(buf(":"), ':', Colon), Ok(Colon));
    assert_eq!(parse_punct(buf(",1"), ',', Comma), Ok(Comma));
    assert_eq!(Colon::try_parse(buf(": 1")), Ok(Colon));
    assert_eq!(Colon::try_parse(buf(" :")), err(ErrorKind::ExpectedChar(':')));
    assert_eq!(LeftBrace::try_parse(buf("[")), err(ErrorKind::ExpectedChar('{')));
    assert_eq!(Comma::try_parse(buf("")), err(ErrorKind::ExpectedChar(',')));
    assert_eq!(Colon.width(), 1);
}

#[test]
fn trivia_is_whitespace_and_line_comments() {
    assert_eq!(skip_trivia(buf("")), 0);
    assert_eq!(skip_trivia(buf("x")), 0);
    assert_eq!(skip_trivia(buf("  \t\r\n x")), 6);
    assert_eq!(skip_trivia(buf("// note\nx")), 8);
    assert_eq!(skip_trivia(buf("// to the end")), 13);
    assert_eq!(skip_trivia(buf(" // a\n // b\n1")), 12);
    assert_eq!(skip_trivia(buf("//\n//\n")), 6);
}

#[test]
fn one_slash_starts_no_comment() {
    assert_eq!(skip_trivia(buf("/ x")), 0);
    assert_eq!(skip_trivia(buf(" /")), 1);
    assert_eq!(skip_trivia(buf(" /x/")), 1);
}

#[test]
fn trivia_width_counts_bytes() {
    assert_eq!(skip_trivia(buf("\u{3000}1")), 3);
    assert_eq!(skip_trivia(buf("\u{a0}\u{2003}1")), 5);
    assert_eq!(skip_trivia(buf("//\u{e9}\u{1F600}\n1")), 9);
}

#[test]
fn whitespace_is_the_unicode_property() {
    let mut u: u32 = 0;
    while u <= 0x10FFFF {
        if let Some(c) = char::from_u32(u) {
            assert_eq!(is_whitespace_char(c), c.is_whitespace(), "U+{:04X}", u);
        }
        u += 1;
    }
}

#[test]
fn char_width_is_the_encoded_length() {
    let mut u: u32 = 0;
    while u <= 0x10FFFF {
        if let Some(c) = char::from_u32(u) {
            assert_eq!(c.width(), c.len_utf8(), "U+{:04X}", u);
        }
        u += 1;
    }
    assert_eq!('a'.width(), 1);
    assert_eq!('\u{e9}'.width(), 2);
    assert_eq!('\u{20ac}'.width(), 3);
    assert_eq!('\u{1F600}'.width(), 4);
}

#[test]
fn offset_records_trivia_only_on_success() {
    assert_eq!(
        Offset::<Node<Number>>::try_parse(buf("  12")),
        Ok(Offset(2, Node(2, Number)))
    );
    assert_eq!(
        Offset::<Node<Number>>::try_parse(buf("  x")),
        err(ErrorKind::MissingDigit)
    );
    assert_eq!(Offset::<Colon>::try_parse(buf("//c\n:")), Ok(Offset(4, Colon)));
    assert_eq!(Offset::<Node<Number>>::try_parse(buf("  12")).unwrap().width(), 4);
}

#[test]
fn optional_rule_never_fails() {
    assert_eq!(Option::<Comma>::try_parse(buf(",")), Ok(Some(Comma)));
    assert_eq!(Option::<Comma>::try_parse(buf("x")), Ok(None));
    assert_eq!(
        Offset::<Option<Comma>>::try_parse(buf("  x")),
        Ok(Offset(2, None))
    );
    assert_eq!(Offset::<Option<Comma>>::try_parse(buf("  x")).unwrap().width(), 2);
    assert_eq!(Offset::<Option<Comma>>::try_parse(buf(" ,")).unwrap().width(), 2);
}

#[test]
fn value_dispatch_never_fails() {
    let v = parse_value(buf(""), MAX_DEPTH);
    assert_eq!(v, Node(0, Value::Invalid(ParseError::new(ErrorKind::EmptyInput))));
    let v = parse_value(buf("null"), MAX_DEPTH);
    assert_eq!(v, Node(4, Value::Invalid(ParseError::new(ErrorKind::InvalidValue))));
    let v = parse_value(buf("-1 2"), MAX_DEPTH);
    assert_eq!(v, Node(4, Value::Invalid(ParseError::new(ErrorKind::InvalidValue))));
    let v = parse_value(buf("\"abc"), MAX_DEPTH);
    assert_eq!(v, Node(4, Value::Invalid(ParseError::new(ErrorKind::UnterminatedLiteral))));
    let v = parse_value(buf("1.2.3, 4"), MAX_DEPTH);
    assert_eq!(v, Node(8, Value::Invalid(ParseError::new(ErrorKind::MultipleDecimalPoints))));
    let v = parse_value(buf("tr\u{e9}"), MAX_DEPTH);
    assert_eq!(v, Node(4, Value::Invalid(ParseError::new(ErrorKind::InvalidBoolean))));
    let v = parse_value(buf("{\"a\" 1}"), MAX_DEPTH);
    assert_eq!(v, Node(7, Value::Invalid(ParseError::new(ErrorKind::ExpectedChar('}')))));
    let v = parse_value(buf("[1,"), MAX_DEPTH);
    assert_eq!(v, Node(3, Value::Invalid(ParseError::new(ErrorKind::UnterminatedArray))));
    let v = parse_value(buf("[1 2]"), MAX_DEPTH);
    assert_eq!(v, Node(5, Value::Invalid(ParseError::new(ErrorKind::MissingSeparator))));
    assert_eq!(Node::<Value>::try_parse(buf("7 ")).unwrap(), Node(1, Value::Number(Number)));
    assert_eq!(parse_value(buf("false"), 0), Node(5, Value::Boolean(Boolean)));
}

#[test]
fn array_errors() {
    assert_eq!(parse_array(buf("1]"), MAX_DEPTH), err(ErrorKind::ExpectedChar('[')));
    assert_eq!(parse_array(buf("["), MAX_DEPTH), err(ErrorKind::UnterminatedArray));
    assert_eq!(parse_array(buf("[1, 2"), MAX_DEPTH), err(ErrorKind::UnterminatedArray));
    assert_eq!(parse_array(buf("[  "), MAX_DEPTH), err(ErrorKind::UnterminatedArray));
    assert_eq!(parse_array(buf("[1 2,]"), MAX_DEPTH), err(ErrorKind::MissingSeparator));
    assert_eq!(parse_array(buf("[1 2 3]"), MAX_DEPTH), err(ErrorKind::MissingSeparator));
    assert_eq!(parse_array(buf("[]"), 0), err(ErrorKind::StackDepthExceeded));
}

#[test]
fn array_shapes() {
    let a = parse_array(buf("[]"), MAX_DEPTH).unwrap();
    assert_eq!(a.0, 2);
    assert!(a.1.values.is_empty());
    let a = parse_array(buf(" [ 1 , 2 ] tail"), MAX_DEPTH).unwrap();
    assert_eq!(a.0, 10);
    assert_eq!(a.1.left_bracket.0, 1);
    assert_eq!(a.1.values.len(), 2);
    assert_eq!(a.1.values[0].item, Offset(1, Node(1, Value::Number(Number))));
    assert_eq!(a.1.values[0].comma, Offset(1, Some(Comma)));
    assert_eq!(a.1.values[0].width(), 4);
    assert_eq!(a.1.values[1].comma, Offset(1, None));
    assert_eq!(a.1.right_bracket.0, 0);
    let a = parse_array(buf("[1,]"), MAX_DEPTH).unwrap();
    assert_eq!(a.1.values.len(), 1);
    let a = parse_array(buf("[x]"), MAX_DEPTH);
    assert_eq!(a, err(ErrorKind::UnterminatedArray));
}

#[test]
fn item_is_a_value_and_an_optional_comma() {
    let i = Item::try_parse(buf(" 1 , 2")).unwrap();
    assert_eq!(i.item, Offset(1, Node(1, Value::Number(Number))));
    assert_eq!(i.comma, Offset(1, Some(Comma)));
    assert_eq!(i.width(), 4);
    let i = Item::try_parse(buf("true]")).unwrap();
    assert_eq!(i.comma, Offset(0, None));
    assert_eq!(i.width(), 4);
}

#[test]
fn object_takes_pairs_with_or_without_commas() {
    let o = parse_object(buf("{\"a\": 1, \"b\": 2}"), MAX_DEPTH).unwrap();
    assert_eq!(o.0, 16);
    assert_eq!(o.1.pairs.len(), 2);
    let o = parse_object(buf("{\"a\": 1 \"b\": 2}"), MAX_DEPTH).unwrap();
    assert_eq!(o.0, 15);
    assert_eq!(o.1.pairs.len(), 2);
    assert_eq!(o.1.pairs[0].comma, Offset(1, None));
    let o = Node::<Object>::try_parse(buf("{\"a\": 1,}")).unwrap();
    assert_eq!(o.1.pairs.len(), 1);
}

#[test]
fn object_errors() {
    assert_eq!(parse_object(buf("[]"), MAX_DEPTH), err(ErrorKind::ExpectedChar('{')));
    assert_eq!(parse_object(buf("{"), MAX_DEPTH), err(ErrorKind::UnterminatedObject));
    assert_eq!(parse_object(buf("{\n\n"), MAX_DEPTH), err(ErrorKind::UnterminatedObject));
    assert_eq!(
        parse_object(buf("{\"a\": 1, // more\n"), MAX_DEPTH),
        err(ErrorKind::UnterminatedObject)
    );
    assert_eq!(parse_object(buf("{]"), MAX_DEPTH), err(ErrorKind::ExpectedChar('}')));
    assert_eq!(parse_object(buf("{\"a\" 1}"), MAX_DEPTH), err(ErrorKind::ExpectedChar('}')));
    assert_eq!(parse_object(buf("{a: 1}"), MAX_DEPTH), err(ErrorKind::ExpectedChar('}')));
    assert_eq!(parse_object(buf("{\"a\": 1 2}"), MAX_DEPTH), err(ErrorKind::ExpectedChar('}')));
    assert_eq!(parse_object(buf("{}"), 0), err(ErrorKind::StackDepthExceeded));
}

#[test]
fn pair_is_key_colon_value_comma() {
    let p = Pair::try_parse(buf(" \"k\" : [1] , x")).unwrap();
    assert_eq!(p.key, Offset(1, Node(3, lst::tokens::String)));
    assert_eq!(p.colon, Offset(1, Colon));
    assert_eq!(p.value.0, 1);
    assert_eq!(p.value.1 .0, 3);
    assert_eq!(p.comma, Offset(1, Some(Comma)));
    assert_eq!(p.width(), 12);
    assert_eq!(Pair::try_parse(buf("k: 1")), err(ErrorKind::UnexpectedStart));
    assert_eq!(Pair::try_parse(buf("\"k\" 1")), err(ErrorKind::ExpectedChar(':')));
    let p = Pair::try_parse(buf("\"k\":")).unwrap();
    assert_eq!(
        p.value,
        Offset(0, Node(0, Value::Invalid(ParseError::new(ErrorKind::EmptyInput))))
    );
}

#[test]
fn map_value_keeps_the_width() {
    let n = Node(3, Number).map_value(|n| Value::Number(n));
    assert_eq!(n, Node(3, Value::Number(Number)));
}

#[test]
fn buffer_offset_and_cutoff() {
    let b = buf("a\u{e9}b");
    assert_eq!(b.offset(0).content, "a\u{e9}b");
    assert_eq!(b.offset(1).content, "\u{e9}b");
    assert_eq!(b.offset(3).content, "b");
    assert_eq!(b.offset(4).content, "");
    assert_eq!(b.cutoff(0).content, "");
    assert_eq!(b.cutoff(3).content, "a\u{e9}");
    assert_eq!(b.cutoff(4).content, "a\u{e9}b");
    assert_eq!(b.len(), 4);
    assert_eq!(b.offset(1).cutoff(2).content, "\u{e9}");
}

#[test]
fn errors_have_messages() {
    assert_eq!(ParseError::new(ErrorKind::EmptyInput).message(), "Empty content");
    assert_eq!(
        ParseError::new(ErrorKind::LeadingZero).message(),
        "Number cannot have leading zeros"
    );
    assert_eq!(ParseError::new(ErrorKind::ExpectedChar('}')).message(), "Expected '}'");
    assert_eq!(
        ParseError::new(ErrorKind::ExpectedChar('x')).message(),
        "Expected another character"
    );
    assert_eq!(ParseError::new(ErrorKind::TrailingInput).kind, ErrorKind::TrailingInput);
}

#[test]
fn buffer_knows_its_cuts() {
    let b = buf("a\u{e9}b");
    assert!(b.can_cut(0));
    assert!(b.can_cut(1));
    assert!(!b.can_cut(2));
    assert!(b.can_cut(3));
    assert!(b.can_cut(4));
    assert!(!b.can_cut(5));
    assert_eq!(&*b, "a\u{e9}b");
}
