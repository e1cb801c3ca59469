//! Objects: a brace, pairs, a brace.
use vstd::prelude::*;
use crate::buffer::Buffer;
use crate::grammar::{MAX_DEPTH, spec_object, spec_pairs, spec_punct_slot};
use crate::layout::{
    lemma_cut_bound, lemma_pair_fits, lemma_pairs_fit, lemma_punct_slot_fits, lemma_trivia_fits,
};
use crate::parse::{ErrorKind, ParseError, TryParse};
use crate::tokens::offset::{parse_punct_slot, skip_trivia};
use crate::tokens::pair::{
    lemma_pairs_width_push, pair_view, pairs_view, pairs_width, parse_pair, Pair, PairView,
};
use crate::tokens::{LeftBrace, Node, Offset, RightBrace};
use crate::width::{is_cut, lemma_cut_twice, tail, text_width, Width};

verus! {

/// An object: its braces, each with the trivia before it, and its pairs.
#[derive(Debug, PartialEq, Eq)]
pub struct Object {
    pub left_brace: Offset<LeftBrace>,
    pub pairs: Vec<Pair>,
    pub right_brace: Offset<RightBrace>,
}

/// An object as mathematics sees it.
pub struct ObjectView {
    pub left_brace: Offset<LeftBrace>,
    pub pairs: Seq<PairView>,
    pub right_brace: Offset<RightBrace>,
}

impl ObjectView {
    /// The bytes from the opening brace's trivia through the closing brace.
    pub open spec fn spec_width(&self) -> nat {
        self.left_brace.spec_width() + pairs_width(self.pairs) + self.right_brace.spec_width()
    }
}

/// The view of an object: the views of its pairs between its braces.
pub open spec fn object_view(o: Object) -> ObjectView
    decreases o,
{
    ObjectView {
        left_brace: o.left_brace,
        pairs: Seq::new(
            o.pairs.len() as nat,
            |i: int|
                if 0 <= i < o.pairs.len() {
                    pair_view(o.pairs[i])
                } else {
                    arbitrary()
                },
        ),
        right_brace: o.right_brace,
    }
}

impl View for Object {
    type V = ObjectView;

    open spec fn view(&self) -> ObjectView {
        object_view(*self)
    }
}

/// The view of an object holds the views of its pairs.
pub proof fn lemma_object_view(o: Object)
    ensures
        o@.left_brace == o.left_brace,
        o@.pairs == pairs_view(o.pairs@),
        o@.right_brace == o.right_brace,
{
}

/// The outcome of the object rule as mathematics sees it.
pub open spec fn object_result_view(r: Result<Node<Object>, ParseError>) -> Result<
    Node<ObjectView>,
    ParseError,
> {
    match r {
        Ok(n) => Ok(n@),
        Err(e) => Err(e),
    }
}

/// The object rule. `depth` is how many more levels may open, this object
/// included.
pub fn parse_object(content: Buffer<'_>, depth: usize) -> (r: Result<Node<Object>, ParseError>)
    ensures
        object_result_view(r) == spec_object(content@, depth as nat),
    decreases depth, 0nat,
{
    if depth == 0 {
        return Err(ParseError::new(ErrorKind::StackDepthExceeded));
    }
    let ghost s = content@;
    let ghost d = (depth - 1) as nat;
    let total = content.len();
    let left_brace = match parse_punct_slot(content, '{', LeftBrace) {
        Ok(l) => l,
        Err(e) => {
            return Err(e);
        },
    };
    proof {
        lemma_punct_slot_fits(s, '{', LeftBrace);
        lemma_cut_bound(s, left_brace.spec_width());
    }
    let mut pairs: Vec<Pair> = Vec::new();
    let mut offset = left_brace.width();
    let ghost start = tail(s, offset as nat);
    loop
        invariant
            s == content@,
            total == text_width(s),
            depth > 0,
            d == depth - 1,
            is_cut(s, offset as nat),
            offset <= total,
            offset == left_brace.spec_width() + pairs_width(pairs_view(pairs@)),
            start == tail(s, left_brace.spec_width()),
            is_cut(s, left_brace.spec_width()),
            text_width(start) <= usize::MAX,
            spec_punct_slot(s, '{', LeftBrace) == Ok::<Offset<LeftBrace>, ParseError>(left_brace),
            spec_pairs(start, d) == pairs_view(pairs@) + spec_pairs(tail(s, offset as nat), d),
        decreases total - offset,
    {
        let rest = content.offset(offset);
        proof {
            lemma_cut_bound(s, offset as nat);
            lemma_pair_fits(rest@, d);
        }
        match parse_pair(rest, depth - 1) {
            Ok(pair) => {
                proof {
                    lemma_cut_twice(s, offset as nat, pair.spec_width());
                    let before = pairs_view(pairs@);
                    let after = pairs_view(pairs@.push(pair));
                    assert(after =~= before.push(pair@));
                    lemma_pairs_width_push(before, pair@);
                }
                offset = offset + pair.width();
                pairs.push(pair);
            },
            Err(_) => {
                proof {
                    lemma_pairs_fit(start, d);
                    lemma_cut_twice(
                        s,
                        left_brace.spec_width(),
                        pairs_width(pairs_view(pairs@)),
                    );
                    lemma_punct_slot_fits(rest@, '}', RightBrace);
                }
                let right_brace = match parse_punct_slot(rest, '}', RightBrace) {
                    Ok(r) => r,
                    Err(e) => {
                        proof {
                            lemma_trivia_fits(rest@);
                        }
                        if skip_trivia(rest) == rest.len() {
                            return Err(ParseError::new(ErrorKind::UnterminatedObject));
                        }
                        return Err(e);
                    },
                };
                offset = offset + right_brace.width();
                let object = Object { left_brace, pairs, right_brace };
                proof {
                    lemma_object_view(object);
                }
                return Ok(Node(offset, object));
            },
        }
    }
}

/// The object rule, with arrays and objects nested down to `MAX_DEPTH`.
impl TryParse for Node<Object> {
    type Error = ParseError;

    open spec fn parses_to(s: Seq<char>, r: Result<Self, ParseError>) -> bool {
        object_result_view(r) == spec_object(s, MAX_DEPTH as nat)
    }

    fn try_parse(content: Buffer<'_>) -> (r: Result<Self, ParseError>) {
        parse_object(content, MAX_DEPTH)
    }
}

} // verus!
