//! The nodes of the tree.
use vstd::prelude::*;
use crate::buffer::Buffer;
use crate::grammar::spec_punct;
use crate::linearize::{buffer_view, linearize_leaf, Linearize, LinearizeBuffer, Token};
use crate::parse::{parse_punct, ParseError, TryParse};
use crate::width::{head, is_cut, Width};

pub mod array;
pub mod item;
pub mod node;
pub mod object;
pub mod offset;
pub mod pair;
pub mod value;

pub use array::{Array, ArrayView};
pub use item::{Item, ItemView};
pub use node::Node;
pub use object::{Object, ObjectView};
pub use offset::Offset;
pub use pair::{Pair, PairView};
pub use value::{Value, ValueView};

verus! {

/// The literal `true` or `false`.
#[derive(Debug, Clone, Copy, PartialEq, Eq, Structural)]
pub struct Boolean;

/// Whitespace and line comments.
#[derive(Debug, Clone, Copy, PartialEq, Eq, Structural)]
pub struct Trivia;

/// A string literal, quotes included.
#[derive(Debug, Clone, Copy, PartialEq, Eq, Structural)]
pub struct String;

/// A number literal.
#[derive(Debug, Clone, Copy, PartialEq, Eq, Structural)]
pub struct Number;

/// Text that no rule accepted.
#[derive(Debug, Clone, Copy, PartialEq, Eq, Structural)]
pub struct Invalid(pub ParseError);

/// The character `:`.
#[derive(Debug, Clone, Copy, PartialEq, Eq, Structural)]
pub struct Colon;

/// The character `,`.
#[derive(Debug, Clone, Copy, PartialEq, Eq, Structural)]
pub struct Comma;

/// The character `{`.
#[derive(Debug, Clone, Copy, PartialEq, Eq, Structural)]
pub struct LeftBrace;

/// The character `}`.
#[derive(Debug, Clone, Copy, PartialEq, Eq, Structural)]
pub struct RightBrace;

/// The character `[`.
#[derive(Debug, Clone, Copy, PartialEq, Eq, Structural)]
pub struct LeftBracket;

/// The character `]`.
#[derive(Debug, Clone, Copy, PartialEq, Eq, Structural)]
pub struct RightBracket;

/// What kind of token a span of the source is.
#[derive(Debug, Clone, Copy, PartialEq, Eq, Structural)]
pub enum TokenKind {
    Trivia,
    Boolean,
    String,
    Number,
    Invalid,
    Colon,
    Comma,
    LeftBrace,
    RightBrace,
    LeftBracket,
    RightBracket,
}

impl Width for Colon {
    open spec fn spec_width(&self) -> nat {
        1
    }

    fn width(&self) -> (w: usize) {
        1
    }
}

impl Width for Comma {
    open spec fn spec_width(&self) -> nat {
        1
    }

    fn width(&self) -> (w: usize) {
        1
    }
}

impl Width for LeftBrace {
    open spec fn spec_width(&self) -> nat {
        1
    }

    fn width(&self) -> (w: usize) {
        1
    }
}

impl Width for RightBrace {
    open spec fn spec_width(&self) -> nat {
        1
    }

    fn width(&self) -> (w: usize) {
        1
    }
}

impl Width for LeftBracket {
    open spec fn spec_width(&self) -> nat {
        1
    }

    fn width(&self) -> (w: usize) {
        1
    }
}

impl Width for RightBracket {
    open spec fn spec_width(&self) -> nat {
        1
    }

    fn width(&self) -> (w: usize) {
        1
    }
}

impl TryParse for Colon {
    type Error = ParseError;

    open spec fn parses_to(s: Seq<char>, r: Result<Self, ParseError>) -> bool {
        r == spec_punct(s, ':', Colon)
    }

    fn try_parse(content: Buffer<'_>) -> (r: Result<Self, ParseError>) {
        parse_punct(content, ':', Colon)
    }
}

impl Linearize for Colon {
    open spec fn fits(&self, s: Seq<char>) -> bool {
        is_cut(s, 1)
    }

    open spec fn tokens(&self, s: Seq<char>) -> Seq<Token> {
        seq![(TokenKind::Colon, head(s, 1))]
    }

    fn linearize<'a>(&self, source: &'a str, buf: &mut LinearizeBuffer<'a>) {
        linearize_leaf(TokenKind::Colon, 1, source, buf);
    }
}

impl TryParse for Comma {
    type Error = ParseError;

    open spec fn parses_to(s: Seq<char>, r: Result<Self, ParseError>) -> bool {
        r == spec_punct(s, ',', Comma)
    }

    fn try_parse(content: Buffer<'_>) -> (r: Result<Self, ParseError>) {
        parse_punct(content, ',', Comma)
    }
}

impl Linearize for Comma {
    open spec fn fits(&self, s: Seq<char>) -> bool {
        is_cut(s, 1)
    }

    open spec fn tokens(&self, s: Seq<char>) -> Seq<Token> {
        seq![(TokenKind::Comma, head(s, 1))]
    }

    fn linearize<'a>(&self, source: &'a str, buf: &mut LinearizeBuffer<'a>) {
        linearize_leaf(TokenKind::Comma, 1, source, buf);
    }
}

impl TryParse for LeftBrace {
    type Error = ParseError;

    open spec fn parses_to(s: Seq<char>, r: Result<Self, ParseError>) -> bool {
        r == spec_punct(s, '{', LeftBrace)
    }

    fn try_parse(content: Buffer<'_>) -> (r: Result<Self, ParseError>) {
        parse_punct(content, '{', LeftBrace)
    }
}

impl Linearize for LeftBrace {
    open spec fn fits(&self, s: Seq<char>) -> bool {
        is_cut(s, 1)
    }

    open spec fn tokens(&self, s: Seq<char>) -> Seq<Token> {
        seq![(TokenKind::LeftBrace, head(s, 1))]
    }

    fn linearize<'a>(&self, source: &'a str, buf: &mut LinearizeBuffer<'a>) {
        linearize_leaf(TokenKind::LeftBrace, 1, source, buf);
    }
}

impl TryParse for RightBrace {
    type Error = ParseError;

    open spec fn parses_to(s: Seq<char>, r: Result<Self, ParseError>) -> bool {
        r == spec_punct(s, '}', RightBrace)
    }

    fn try_parse(content: Buffer<'_>) -> (r: Result<Self, ParseError>) {
        parse_punct(content, '}', RightBrace)
    }
}

impl Linearize for RightBrace {
    open spec fn fits(&self, s: Seq<char>) -> bool {
        is_cut(s, 1)
    }

    open spec fn tokens(&self, s: Seq<char>) -> Seq<Token> {
        seq![(TokenKind::RightBrace, head(s, 1))]
    }

    fn linearize<'a>(&self, source: &'a str, buf: &mut LinearizeBuffer<'a>) {
        linearize_leaf(TokenKind::RightBrace, 1, source, buf);
    }
}

impl TryParse for LeftBracket {
    type Error = ParseError;

    open spec fn parses_to(s: Seq<char>, r: Result<Self, ParseError>) -> bool {
        r == spec_punct(s, '[', LeftBracket)
    }

    fn try_parse(content: Buffer<'_>) -> (r: Result<Self, ParseError>) {
        parse_punct(content, '[', LeftBracket)
    }
}

impl Linearize for LeftBracket {
    open spec fn fits(&self, s: Seq<char>) -> bool {
        is_cut(s, 1)
    }

    open spec fn tokens(&self, s: Seq<char>) -> Seq<Token> {
        seq![(TokenKind::LeftBracket, head(s, 1))]
    }

    fn linearize<'a>(&self, source: &'a str, buf: &mut LinearizeBuffer<'a>) {
        linearize_leaf(TokenKind::LeftBracket, 1, source, buf);
    }
}

impl TryParse for RightBracket {
    type Error = ParseError;

    open spec fn parses_to(s: Seq<char>, r: Result<Self, ParseError>) -> bool {
        r == spec_punct(s, ']', RightBracket)
    }

    fn try_parse(content: Buffer<'_>) -> (r: Result<Self, ParseError>) {
        parse_punct(content, ']', RightBracket)
    }
}

impl Linearize for RightBracket {
    open spec fn fits(&self, s: Seq<char>) -> bool {
        is_cut(s, 1)
    }

    open spec fn tokens(&self, s: Seq<char>) -> Seq<Token> {
        seq![(TokenKind::RightBracket, head(s, 1))]
    }

    fn linearize<'a>(&self, source: &'a str, buf: &mut LinearizeBuffer<'a>) {
        linearize_leaf(TokenKind::RightBracket, 1, source, buf);
    }
}

} // verus!
