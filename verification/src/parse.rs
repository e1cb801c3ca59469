//! Errors of the grammar, and the leaf rules.
use std::convert::Infallible;
use std::str::Chars;
use vstd::prelude::*;
use vstd::std_specs::iter::IteratorSpec;
use crate::buffer::Buffer;
use crate::grammar::{
    is_digit, number_end, spec_boolean, spec_number, spec_punct, spec_string, spec_value,
    spec_value_slot, string_end, MAX_DEPTH,
};
use crate::layout::lemma_trivia_fits;
use crate::source::{spec_parse, Source};
use crate::tokens::array::parse_array;
use crate::tokens::object::parse_object;
use crate::tokens::offset::skip_trivia;
use crate::tokens::{Boolean, Node, Number, Offset, Value};
use crate::width::{lemma_text_width_step, text_width, Width};

verus! {

/// Why a grammar rule did not match.
#[derive(Debug, Clone, Copy, PartialEq, Eq, Structural)]
pub enum ErrorKind {
    /// A value was looked for where the text has ended.
    EmptyInput,
    /// The text starts with a character that starts no value.
    InvalidValue,
    /// A string does not start with a double quote.
    UnexpectedStart,
    /// A string has no closing double quote.
    UnterminatedLiteral,
    /// A number does not start with a digit.
    MissingDigit,
    /// A number has a second decimal point.
    MultipleDecimalPoints,
    /// A number has a leading zero that no decimal point follows.
    LeadingZero,
    /// The text is neither `true` nor `false`.
    InvalidBoolean,
    /// The text does not start with the punctuation character named.
    ExpectedChar(char),
    /// An array item that is not the last has no comma behind it.
    MissingSeparator,
    /// The text ended inside an array.
    UnterminatedArray,
    /// The text ended inside an object.
    UnterminatedObject,
    /// Arrays and objects are nested deeper than the limit.
    StackDepthExceeded,
    /// Text is left behind the value.
    TrailingInput,
}

/// A diagnostic for a grammar rule that failed.
#[derive(Debug, Clone, Copy, PartialEq, Eq, Structural)]
pub struct ParseError {
    pub kind: ErrorKind,
}

impl ErrorKind {
    /// The diagnostic text for this kind of error.
    pub open spec fn spec_message(self) -> Seq<char> {
        match self {
            ErrorKind::EmptyInput => "Empty content"@,
            ErrorKind::InvalidValue => "Invalid value"@,
            ErrorKind::UnexpectedStart => "String must start with '\"'"@,
            ErrorKind::UnterminatedLiteral => "String must end with '\"'"@,
            ErrorKind::MissingDigit => "Number must start with a digit"@,
            ErrorKind::MultipleDecimalPoints => "Encountered a second . in a number"@,
            ErrorKind::LeadingZero => "Number cannot have leading zeros"@,
            ErrorKind::InvalidBoolean => "Boolean must be either true or false"@,
            ErrorKind::ExpectedChar(c) => if c == ':' {
                "Expected ':'"@
            } else if c == ',' {
                "Expected ','"@
            } else if c == '{' {
                "Expected '{'"@
            } else if c == '}' {
                "Expected '}'"@
            } else if c == '[' {
                "Expected '['"@
            } else if c == ']' {
                "Expected ']'"@
            } else {
                "Expected another character"@
            },
            ErrorKind::MissingSeparator => "Encountered array items not separated by comma"@,
            ErrorKind::UnterminatedArray => "Encountered array without closing ]"@,
            ErrorKind::UnterminatedObject => "Encountered object without closing }"@,
            ErrorKind::StackDepthExceeded => "Arrays and objects are nested too deep"@,
            ErrorKind::TrailingInput => "Encountered text behind the value"@,
        }
    }
}

impl ParseError {
    /// The error of the kind `kind`.
    pub fn new(kind: ErrorKind) -> (e: ParseError)
        ensures
            e.kind == kind,
    {
        ParseError { kind }
    }

    /// The diagnostic text for this error.
    pub fn message(&self) -> (m: &'static str)
        ensures
            m@ == self.kind.spec_message(),
    {
        match self.kind {
            ErrorKind::EmptyInput => "Empty content",
            ErrorKind::InvalidValue => "Invalid value",
            ErrorKind::UnexpectedStart => "String must start with '\"'",
            ErrorKind::UnterminatedLiteral => "String must end with '\"'",
            ErrorKind::MissingDigit => "Number must start with a digit",
            ErrorKind::MultipleDecimalPoints => "Encountered a second . in a number",
            ErrorKind::LeadingZero => "Number cannot have leading zeros",
            ErrorKind::InvalidBoolean => "Boolean must be either true or false",
            ErrorKind::ExpectedChar(c) => if c == ':' {
                "Expected ':'"
            } else if c == ',' {
                "Expected ','"
            } else if c == '{' {
                "Expected '{'"
            } else if c == '}' {
                "Expected '}'"
            } else if c == '[' {
                "Expected '['"
            } else if c == ']' {
                "Expected ']'"
            } else {
                "Expected another character"
            },
            ErrorKind::MissingSeparator => "Encountered array items not separated by comma",
            ErrorKind::UnterminatedArray => "Encountered array without closing ]",
            ErrorKind::UnterminatedObject => "Encountered object without closing }",
            ErrorKind::StackDepthExceeded => "Arrays and objects are nested too deep",
            ErrorKind::TrailingInput => "Encountered text behind the value",
        }
    }
}

/// A grammar rule: a type that can be read from the start of a text.
pub trait TryParse: Sized {
    type Error;

    /// Whether `r` is what the rule gives on the text `s`.
    spec fn parses_to(s: Seq<char>, r: Result<Self, Self::Error>) -> bool;

    /// Reads `Self` from the start of `content`.
    fn try_parse(content: Buffer<'_>) -> (r: Result<Self, Self::Error>)
        ensures
            Self::parses_to(content@, r),
    ;
}

/// The optional rule: `None` where the rule fails. It never fails.
impl<T: TryParse> TryParse for Option<T> {
    type Error = Infallible;

    open spec fn parses_to(s: Seq<char>, r: Result<Self, Infallible>) -> bool {
        match r {
            Ok(Some(v)) => T::parses_to(s, Ok(v)),
            Ok(None) => exists|e: T::Error| T::parses_to(s, Err(e)),
            Err(_) => false,
        }
    }

    fn try_parse(content: Buffer<'_>) -> (r: Result<Self, Infallible>) {
        match T::try_parse(content) {
            Ok(v) => Ok(Some(v)),
            Err(e) => {
                Ok(None)
            },
        }
    }
}

impl TryParse for Node<crate::tokens::String> {
    type Error = ParseError;

    open spec fn parses_to(s: Seq<char>, r: Result<Self, ParseError>) -> bool {
        r == spec_string(s)
    }

    fn try_parse(content: Buffer<'_>) -> (r: Result<Self, ParseError>) {
        parse_string(content)
    }
}

impl TryParse for Node<Number> {
    type Error = ParseError;

    open spec fn parses_to(s: Seq<char>, r: Result<Self, ParseError>) -> bool {
        r == spec_number(s)
    }

    fn try_parse(content: Buffer<'_>) -> (r: Result<Self, ParseError>) {
        parse_number(content)
    }
}

impl TryParse for Node<Boolean> {
    type Error = ParseError;

    open spec fn parses_to(s: Seq<char>, r: Result<Self, ParseError>) -> bool {
        r == spec_boolean(s)
    }

    fn try_parse(content: Buffer<'_>) -> (r: Result<Self, ParseError>) {
        parse_boolean(content)
    }
}

/// Value dispatch, with arrays and objects nested down to `MAX_DEPTH`.
impl TryParse for Node<Value> {
    type Error = Infallible;

    open spec fn parses_to(s: Seq<char>, r: Result<Self, Infallible>) -> bool {
        r matches Ok(v) && v@ == spec_value(s, MAX_DEPTH as nat)
    }

    fn try_parse(content: Buffer<'_>) -> (r: Result<Self, Infallible>) {
        Ok(parse_value(content, MAX_DEPTH))
    }
}

/// A text that is yet to be parsed.
#[derive(Debug, Clone, Copy)]
pub struct Parser<'a> {
    content: &'a str,
}

impl<'a> View for Parser<'a> {
    type V = Seq<char>;

    closed spec fn view(&self) -> Seq<char> {
        self.content@
    }
}

impl<'a> Parser<'a> {
    /// A parser for `content`.
    pub fn new(content: &'a str) -> (p: Self)
        ensures
            p@ == content@,
    {
        Self { content }
    }

    /// Parses a copy of the text.
    pub fn parse(&self) -> (r: Source)
        ensures
            r@ == spec_parse(self@),
    {
        Source::new(self.content.to_owned())
    }
}

/// Takes the next character off `chars`.
pub(crate) fn take_char(chars: &mut Chars<'_>) -> (c: Option<char>)
    ensures
        c == (if (*old(chars)).remaining().len() > 0 {
            Some((*old(chars)).remaining()[0])
        } else {
            None
        }),
        (*final(chars)).remaining() == (if (*old(chars)).remaining().len() > 0 {
            (*old(chars)).remaining().drop_first()
        } else {
            (*old(chars)).remaining()
        }),
{
    chars.next()
}

/// Takes the next character off `chars` and says whether it is `c`.
pub(crate) fn take_if(chars: &mut Chars<'_>, c: char) -> (b: bool)
    ensures
        b == ((*old(chars)).remaining().len() > 0 && (*old(chars)).remaining()[0] == c),
        b ==> (*final(chars)).remaining() == (*old(chars)).remaining().drop_first(),
{
    match take_char(chars) {
        Some(d) => d == c,
        None => false,
    }
}

/// Whether `c` is an ASCII digit.
pub fn is_digit_char(c: char) -> (b: bool)
    ensures
        b == is_digit(c),
{
    '0' <= c && c <= '9'
}

/// The punctuation rule for the character `c`.
pub fn parse_punct<T>(content: Buffer<'_>, c: char, token: T) -> (r: Result<T, ParseError>)
    ensures
        r == spec_punct(content@, c, token),
{
    let mut chars = content.content.chars();
    if take_if(&mut chars, c) {
        Ok(token)
    } else {
        Err(ParseError::new(ErrorKind::ExpectedChar(c)))
    }
}

/// The string rule.
pub fn parse_string(content: Buffer<'_>) -> (r: Result<Node<crate::tokens::String>, ParseError>)
    ensures
        r == spec_string(content@),
{
    let ghost s = content@;
    let total = content.len();
    let mut chars = content.content.chars();
    if !take_if(&mut chars, '"') {
        return Err(ParseError::new(ErrorKind::UnexpectedStart));
    }
    let mut len: usize = 1;
    let ghost mut i: int = 1;
    proof {
        lemma_text_width_step(s, 0);
    }
    loop
        invariant
            1 <= i <= s.len(),
            chars.remaining() == s.skip(i),
            len == text_width(s.take(i)),
            string_end(s, i) == string_end(s, 1),
            s[0] == '"',
            total == text_width(s),
            s == content@,
        decreases s.len() - i,
    {
        match take_char(&mut chars) {
            None => {
                return Err(ParseError::new(ErrorKind::UnterminatedLiteral));
            },
            Some(c) => {
                proof {
                    lemma_text_width_step(s, i);
                }
                len = len + c.width();
                if c == '\\' {
                    match take_char(&mut chars) {
                        None => {
                            return Err(ParseError::new(ErrorKind::UnterminatedLiteral));
                        },
                        Some(e) => {
                            proof {
                                lemma_text_width_step(s, i + 1);
                                i = i + 2;
                            }
                            len = len + e.width();
                        },
                    }
                } else if c == '"' {
                    return Ok(Node(len, crate::tokens::String));
                } else {
                    proof {
                        i = i + 1;
                    }
                }
            },
        }
    }
}

/// The number rule.
pub fn parse_number(content: Buffer<'_>) -> (r: Result<Node<Number>, ParseError>)
    ensures
        r == spec_number(content@),
{
    let ghost s = content@;
    let total = content.len();
    let mut chars = content.content.chars();
    let leading_zero = match take_char(&mut chars) {
        None => {
            return Err(ParseError::new(ErrorKind::MissingDigit));
        },
        Some(c) => {
            if !is_digit_char(c) {
                return Err(ParseError::new(ErrorKind::MissingDigit));
            }
            c == '0'
        },
    };
    let mut len: usize = 1;
    let mut dot = false;
    let mut second = true;
    let mut dot_follows_zero = false;
    let ghost mut i: int = 1;
    proof {
        lemma_text_width_step(s, 0);
    }
    loop
        invariant
            1 <= i <= s.len(),
            chars.remaining() == s.skip(i),
            len == text_width(s.take(i)),
            len >= i,
            number_end(s, i, dot) == number_end(s, 1, false),
            second == (i == 1),
            dot_follows_zero == (i > 1 && s[1] == '.'),
            is_digit(s[0]),
            leading_zero == (s[0] == '0'),
            total == text_width(s),
            s == content@,
        decreases s.len() - i,
    {
        let done = match take_char(&mut chars) {
            None => true,
            Some(c) => {
                proof {
                    lemma_text_width_step(s, i);
                }
                if c == '.' && dot {
                    return Err(ParseError::new(ErrorKind::MultipleDecimalPoints));
                }
                if c == '.' || is_digit_char(c) {
                    if c == '.' {
                        dot = true;
                    }
                    if second {
                        dot_follows_zero = c == '.';
                    }
                    second = false;
                    len = len + c.width();
                    proof {
                        i = i + 1;
                    }
                    false
                } else {
                    true
                }
            },
        };
        if done {
            if leading_zero && !second && !dot_follows_zero {
                return Err(ParseError::new(ErrorKind::LeadingZero));
            }
            return Ok(Node(len, Number));
        }
    }
}

/// The boolean rule.
pub fn parse_boolean(content: Buffer<'_>) -> (r: Result<Node<Boolean>, ParseError>)
    ensures
        r == spec_boolean(content@),
{
    let mut chars = content.content.chars();
    match take_char(&mut chars) {
        Some('t') => {
            if take_if(&mut chars, 'r') && take_if(&mut chars, 'u') && take_if(&mut chars, 'e') {
                return Ok(Node(4, Boolean));
            }
        },
        Some('f') => {
            if take_if(&mut chars, 'a') && take_if(&mut chars, 'l') && take_if(&mut chars, 's')
                && take_if(&mut chars, 'e') {
                return Ok(Node(5, Boolean));
            }
        },
        _ => {},
    }
    Err(ParseError::new(ErrorKind::InvalidBoolean))
}

/// Value dispatch. It never fails: what no rule accepts becomes an
/// `Invalid` value that covers all of `content`. `depth` is how many more
/// levels of arrays and objects may open.
pub fn parse_value(content: Buffer<'_>, depth: usize) -> (r: Node<Value>)
    ensures
        r@ == spec_value(content@, depth as nat),
    decreases depth, 1nat,
{
    let len = content.len();
    let mut chars = content.content.chars();
    let c = match take_char(&mut chars) {
        None => {
            return Node(0, Value::Invalid(ParseError::new(ErrorKind::EmptyInput)));
        },
        Some(c) => c,
    };
    let res = if c == '"' {
        match parse_string(content) {
            Ok(n) => Ok(Node(n.0, Value::String(n.1))),
            Err(e) => Err(e),
        }
    } else if is_digit_char(c) {
        match parse_number(content) {
            Ok(n) => Ok(Node(n.0, Value::Number(n.1))),
            Err(e) => Err(e),
        }
    } else if c == 't' || c == 'f' {
        match parse_boolean(content) {
            Ok(n) => Ok(Node(n.0, Value::Boolean(n.1))),
            Err(e) => Err(e),
        }
    } else if c == '{' {
        match parse_object(content, depth) {
            Ok(n) => Ok(Node(n.0, Value::Object(n.1))),
            Err(e) => Err(e),
        }
    } else if c == '[' {
        match parse_array(content, depth) {
            Ok(n) => Ok(Node(n.0, Value::Array(n.1))),
            Err(e) => Err(e),
        }
    } else {
        Err(ParseError::new(ErrorKind::InvalidValue))
    };
    match res {
        Ok(n) => n,
        Err(e) => Node(len, Value::Invalid(e)),
    }
}

/// A value behind trivia.
pub fn parse_value_slot(content: Buffer<'_>, depth: usize) -> (r: Offset<Node<Value>>)
    ensures
        r@ == spec_value_slot(content@, depth as nat),
        text_width(content@) <= usize::MAX,
    decreases depth, 2nat,
{
    let trivia = skip_trivia(content);
    proof {
        lemma_trivia_fits(content@);
    }
    Offset(trivia, parse_value(content.offset(trivia), depth))
}

} // verus!
