//! Leading trivia: whitespace and line comments in front of a payload.
use std::str::Chars;
use vstd::prelude::*;
use vstd::std_specs::iter::IteratorSpec;
use crate::buffer::Buffer;
use crate::grammar::{
    after_trivia, is_whitespace, lemma_line_len_bounds, line_len, spec_comma_slot, spec_punct_slot,
    spec_string, trivia_len, trivia_width, with_trivia,
};
use crate::layout::lemma_trivia_fits;
use crate::parse::{parse_punct, parse_string, take_char, take_if, ParseError, TryParse};
use crate::tokens::{Comma, Node};
use crate::width::{
    lemma_text_width_concat, lemma_text_width_step, lemma_text_width_take, text_width, Width,
};

verus! {

/// A payload together with the number of bytes of trivia in front of it.
#[derive(Debug, PartialEq, Eq)]
pub struct Offset<T>(pub usize, pub T);

impl<T> std::ops::Deref for Offset<T> {
    type Target = T;

    fn deref(&self) -> (r: &T)
        ensures
            *r == self.1,
    {
        &self.1
    }
}

impl<T: Width> Width for Offset<T> {
    open spec fn spec_width(&self) -> nat {
        self.0 as nat + self.1.spec_width()
    }

    fn width(&self) -> (w: usize) {
        self.0 + self.1.width()
    }
}

impl<T: View> View for Offset<T> {
    type V = Offset<T::V>;

    open spec fn view(&self) -> Offset<T::V> {
        Offset(self.0, self.1@)
    }
}

/// The trivia-skipping wrapper: the rule of the payload, read behind the
/// trivia. Where that rule fails, its error is handed on and the trivia is
/// not recorded.
impl<T: TryParse> TryParse for Offset<T> {
    type Error = T::Error;

    open spec fn parses_to(s: Seq<char>, r: Result<Self, T::Error>) -> bool {
        match r {
            Ok(o) => o.0 == trivia_width(s) && T::parses_to(after_trivia(s), Ok(o.1)),
            Err(e) => T::parses_to(after_trivia(s), Err(e)),
        }
    }

    fn try_parse(content: Buffer<'_>) -> (r: Result<Self, T::Error>) {
        let trivia = skip_trivia(content);
        proof {
            lemma_trivia_fits(content@);
        }
        match T::try_parse(content.offset(trivia)) {
            Ok(res) => Ok(Offset(trivia, res)),
            Err(e) => Err(e),
        }
    }
}

/// Whether `c` is whitespace.
pub fn is_whitespace_char(c: char) -> (b: bool)
    ensures
        b == is_whitespace(c),
{
    let u = c as u32;
    (0x09 <= u && u <= 0x0D) || u == 0x20 || u == 0x85 || u == 0xA0 || u == 0x1680 || (0x2000 <= u
        && u <= 0x200A) || u == 0x2028 || u == 0x2029 || u == 0x202F || u == 0x205F || u == 0x3000
}

/// The first `a + n` characters are as wide as the first `a` and the `n`
/// behind them together.
pub proof fn lemma_text_width_take_skip(s: Seq<char>, a: int, n: int)
    requires
        0 <= a,
        0 <= n,
        a + n <= s.len(),
    ensures
        text_width(s.take(a + n)) == text_width(s.take(a)) + text_width(s.skip(a).take(n)),
        s.skip(a).skip(n) == s.skip(a + n),
{
    assert(s.take(a + n) =~= s.take(a) + s.skip(a).take(n));
    lemma_text_width_concat(s.take(a), s.skip(a).take(n));
}

/// Takes the rest of a line off `chars`, its line feed included, and
/// returns the width of what it took.
fn skip_line(chars: &mut Chars<'_>, limit: usize) -> (w: usize)
    requires
        text_width((*old(chars)).remaining()) <= limit,
    ensures
        w == text_width(
            (*old(chars)).remaining().take(line_len((*old(chars)).remaining()) as int),
        ),
        (*final(chars)).remaining() == (*old(chars)).remaining().skip(
            line_len((*old(chars)).remaining()) as int,
        ),
{
    let ghost s = (*chars).remaining();
    let mut w: usize = 0;
    let ghost mut i: int = 0;
    loop
        invariant
            0 <= i <= s.len(),
            (*chars).remaining() == s.skip(i),
            w == text_width(s.take(i)),
            line_len(s) == i + line_len(s.skip(i)),
            text_width(s) <= limit,
            s == (*old(chars)).remaining(),
        decreases limit - w,
    {
        match take_char(chars) {
            None => {
                return w;
            },
            Some(c) => {
                proof {
                    lemma_text_width_step(s, i);
                    assert(s.skip(i).drop_first() == s.skip(i + 1));
                    i = i + 1;
                }
                w = w + c.width();
                if c == '\n' {
                    return w;
                }
            },
        }
    }
}

/// The width of the trivia at the start of `content`. A text that is held
/// in memory is no wider than a `usize` can say.
pub fn skip_trivia(content: Buffer<'_>) -> (w: usize)
    ensures
        w == trivia_width(content@),
        text_width(content@) <= usize::MAX,
{
    let ghost s = content@;
    let total = content.len();
    let mut chars = content.content.chars();
    let mut offset: usize = 0;
    let ghost mut i: int = 0;
    loop
        invariant
            0 <= i <= s.len(),
            chars.remaining() == s.skip(i),
            offset == text_width(s.take(i)),
            trivia_len(s) == i + trivia_len(s.skip(i)),
            total == text_width(s),
            s == content@,
        decreases s.len() - i,
    {
        let ghost rest = s.skip(i);
        match take_char(&mut chars) {
            None => {
                return offset;
            },
            Some(c) => {
                proof {
                    lemma_text_width_step(s, i);
                    assert(rest.drop_first() == s.skip(i + 1));
                }
                if is_whitespace_char(c) {
                    offset = offset + c.width();
                    proof {
                        i = i + 1;
                    }
                } else if c == '/' {
                    if !take_if(&mut chars, '/') {
                        return offset;
                    }
                    proof {
                        lemma_text_width_step(s, i + 1);
                        assert(s.skip(i + 1).drop_first() == s.skip(i + 2));
                        lemma_line_len_bounds(s.skip(i + 2));
                        lemma_text_width_take_skip(s, i + 2, line_len(s.skip(i + 2)) as int);
                        lemma_text_width_take(s, i + 2 + line_len(s.skip(i + 2)));
                        lemma_text_width_take(s, i + 2);
                        assert(line_len(s.skip(i + 1)) == 1 + line_len(s.skip(i + 2)));
                        assert(rest.skip(line_len(rest) as int) =~= s.skip(i + line_len(rest)));
                    }
                    let line = skip_line(&mut chars, total);
                    offset = offset + 2 + line;
                    proof {
                        i = i + line_len(rest);
                    }
                } else {
                    return offset;
                }
            },
        }
    }
}

/// Punctuation behind trivia.
pub fn parse_punct_slot<T>(content: Buffer<'_>, c: char, token: T) -> (r: Result<
    Offset<T>,
    ParseError,
>)
    ensures
        r == spec_punct_slot(content@, c, token),
{
    let trivia = skip_trivia(content);
    proof {
        lemma_trivia_fits(content@);
    }
    match parse_punct(content.offset(trivia), c, token) {
        Ok(t) => Ok(Offset(trivia, t)),
        Err(e) => Err(e),
    }
}

/// An optional comma behind trivia.
pub fn parse_comma_slot(content: Buffer<'_>) -> (r: Offset<Option<Comma>>)
    ensures
        r == spec_comma_slot(content@),
{
    let trivia = skip_trivia(content);
    proof {
        lemma_trivia_fits(content@);
    }
    match parse_punct(content.offset(trivia), ',', Comma) {
        Ok(c) => Offset(trivia, Some(c)),
        Err(_) => Offset(trivia, None),
    }
}

/// A string behind trivia.
pub fn parse_string_slot(content: Buffer<'_>) -> (r: Result<
    Offset<Node<crate::tokens::String>>,
    ParseError,
>)
    ensures
        r == with_trivia(content@, spec_string(after_trivia(content@))),
        text_width(content@) <= usize::MAX,
{
    let trivia = skip_trivia(content);
    proof {
        lemma_trivia_fits(content@);
    }
    match parse_string(content.offset(trivia)) {
        Ok(s) => Ok(Offset(trivia, s)),
        Err(e) => Err(e),
    }
}

} // verus!
