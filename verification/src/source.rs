//! A text together with the tree that it parses to.
use vstd::prelude::*;
use vstd::string::*;
use crate::buffer::Buffer;
use crate::grammar::{MAX_DEPTH, spec_trailing, spec_value_slot};
use crate::layout::{lemma_cut_bound, lemma_trivia_fits, lemma_value_slot_fits};
use crate::laws::{
    concat, lemma_concat_texts, lemma_round_trip, lemma_trailing_fits, text_of, texts,
};
use crate::linearize::{
    buffer_view, linearize_leaf, linearize_trivia, linearize_value_slot, slot_tokens,
    trivia_tokens, value_slot_tokens, LinearizeBuffer, Token,
};
use crate::parse::{parse_value_slot, ErrorKind, ParseError};
use crate::tokens::offset::skip_trivia;
use crate::tokens::value::value_has_error;
use crate::tokens::{Invalid, Node, Offset, TokenKind, Value, ValueView};
use crate::width::{tail, text_width, Width};

verus! {

/// A parsed text. It owns the text, the value that the text starts with,
/// and a record of what lies behind that value.
///
/// A `Source` is only made by parsing, and is never changed: its tree is
/// always the tree of its text.
#[derive(Debug, PartialEq, Eq)]
pub struct Source {
    content: String,
    dom: Offset<Node<Value>>,
    trailing: Offset<Option<Node<Invalid>>>,
}

/// A parsed text as mathematics sees it.
pub struct SourceView {
    pub content: Seq<char>,
    pub dom: Offset<Node<ValueView>>,
    pub trailing: Offset<Option<Node<Invalid>>>,
}

/// The tokens of what lies behind the top-level value.
pub open spec fn trailing_tokens(t: Offset<Option<Node<Invalid>>>, s: Seq<char>) -> Seq<Token> {
    match t.1 {
        Some(n) => slot_tokens(t.0 as nat, TokenKind::Invalid, n.0 as nat, s),
        None => trivia_tokens(t.0 as nat, s),
    }
}

impl SourceView {
    /// Whether the text holds anything that the grammar does not accept: in
    /// its value, or behind it.
    pub open spec fn has_error(self) -> bool {
        value_has_error(self.dom.1.1) || self.trailing.1 is Some
    }

    /// All tokens of the text, in the order of the text.
    pub open spec fn tokens(self) -> Seq<Token> {
        value_slot_tokens(self.dom, self.content) + trailing_tokens(
            self.trailing,
            tail(self.content, self.dom.spec_width()),
        )
    }
}

/// What `s` parses to.
pub open spec fn spec_parse(s: Seq<char>) -> SourceView {
    let dom = spec_value_slot(s, MAX_DEPTH as nat);
    SourceView { content: s, dom, trailing: spec_trailing(tail(s, dom.spec_width())) }
}

/// The views of string slices.
pub open spec fn slices_view<'a>(slices: Seq<&'a str>) -> Seq<Seq<char>> {
    Seq::new(slices.len(), |i: int| slices[i]@)
}

/// Reads what lies behind the top-level value.
pub fn parse_trailing(content: Buffer<'_>) -> (r: Offset<Option<Node<Invalid>>>)
    ensures
        r == spec_trailing(content@),
{
    let trivia = skip_trivia(content);
    proof {
        lemma_trivia_fits(content@);
    }
    let left = content.offset(trivia).len();
    if left == 0 {
        Offset(trivia, None)
    } else {
        Offset(trivia, Some(Node(left, Invalid(ParseError::new(ErrorKind::TrailingInput)))))
    }
}

impl View for Source {
    type V = SourceView;

    closed spec fn view(&self) -> SourceView {
        SourceView { content: self.content@, dom: self.dom@, trailing: self.trailing }
    }
}

impl Source {
    #[verifier::type_invariant]
    spec fn is_parsed(&self) -> bool {
        &&& self@ == spec_parse(self.content@)
        &&& text_width(self.content@) <= usize::MAX
    }

    /// Parses `content` and keeps it with its tree.
    pub fn new(content: String) -> (r: Source)
        ensures
            r@ == spec_parse(content@),
    {
        let buf = Buffer { content: content.as_str() };
        let dom = parse_value_slot(buf, MAX_DEPTH);
        proof {
            lemma_value_slot_fits(content@, MAX_DEPTH as nat);
        }
        let trailing = parse_trailing(buf.offset(dom.width()));
        Source { content, dom, trailing }
    }

    /// The text that was parsed.
    pub fn content(&self) -> (s: &str)
        ensures
            s@ == self@.content,
    {
        self.content.as_str()
    }

    /// The value that the text starts with, and the trivia before it.
    pub fn dom(&self) -> (d: &Offset<Node<Value>>)
        ensures
            d@ == self@.dom,
    {
        &self.dom
    }

    /// What lies behind the value: trivia, and the text that is left behind
    /// that as one `Invalid` node.
    pub fn trailing(&self) -> (t: &Offset<Option<Node<Invalid>>>)
        ensures
            *t == self@.trailing,
    {
        &self.trailing
    }

    /// The tokens of the text, each with its kind, in the order of the text.
    pub fn linearize(&self) -> (buf: LinearizeBuffer<'_>)
        ensures
            self@ == spec_parse(self@.content),
            buffer_view(buf@) == self@.tokens(),
            text_of(buffer_view(buf@)) == self@.content,
    {
        proof {
            use_type_invariant(self);
            let s = self.content@;
            lemma_value_slot_fits(s, MAX_DEPTH as nat);
            lemma_cut_bound(s, self.dom.spec_width());
            lemma_trailing_fits(tail(s, self.dom.spec_width()));
            lemma_round_trip(s);
        }
        let mut buf: LinearizeBuffer<'_> = Vec::new();
        let behind = linearize_value_slot(&self.dom, self.content.as_str(), &mut buf);
        let ghost tokens = value_slot_tokens(self.dom@, self.content@);
        match &self.trailing.1 {
            Some(n) => {
                let rest = linearize_trivia(self.trailing.0, behind, &mut buf);
                linearize_leaf(TokenKind::Invalid, n.0, rest, &mut buf);
            },
            None => {
                linearize_trivia(self.trailing.0, behind, &mut buf);
            },
        }
        assert(buffer_view(buf@) =~= tokens + trailing_tokens(self.trailing, behind@));
        buf
    }

    /// The texts of the tokens, kinds dropped. One behind the other they
    /// are the text that was parsed.
    pub fn linearize_tokens(&self) -> (r: Vec<&str>)
        ensures
            self@ == spec_parse(self@.content),
            slices_view(r@) == texts(self@.tokens()),
            concat(slices_view(r@)) == self@.content,
    {
        let buf = self.linearize();
        let mut result: Vec<&str> = Vec::new();
        let mut i: usize = 0;
        while i < buf.len()
            invariant
                i <= buf.len(),
                result@.len() == i,
                slices_view(result@) == texts(buffer_view(buf@)).take(i as int),
            decreases buf.len() - i,
        {
            let ghost before = result@;
            let ghost all = texts(buffer_view(buf@));
            result.push(buf[i].1);
            proof {
                assert forall|j: int| 0 <= j <= i implies slices_view(result@)[j] == all[j] by {
                    if j < i {
                        assert(slices_view(before)[j] == all.take(i as int)[j]);
                    }
                }
            }
            i = i + 1;
        }
        proof {
            lemma_concat_texts(buffer_view(buf@));
        }
        result
    }

    /// Whether the text holds anything that the grammar does not accept.
    pub fn has_error(&self) -> (b: bool)
        ensures
            b == self@.has_error(),
    {
        self.dom.1.1.has_error() || self.trailing.1.is_some()
    }
}

} // verus!
