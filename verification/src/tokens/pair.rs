//! One entry of an object.
use vstd::prelude::*;
use crate::buffer::Buffer;
use crate::grammar::{after_trivia, spec_pair, MAX_DEPTH};
use crate::layout::{
    lemma_cut_bound, lemma_punct_slot_fits, lemma_string_fits, lemma_trivia_fits,
    lemma_value_slot_fits, lemma_with_trivia_fits,
};
use crate::parse::{parse_value_slot, ParseError, TryParse};
use crate::tokens::offset::{parse_comma_slot, parse_punct_slot, parse_string_slot};
use crate::width::{lemma_cut_twice, tail};
use crate::tokens::value::{value_view, Value, ValueView};
use crate::tokens::{Colon, Comma, Node, Offset};
use crate::width::Width;

verus! {

/// A key, a colon, a value and the comma behind it, if there is one.
#[derive(Debug, PartialEq, Eq)]
pub struct Pair {
    pub key: Offset<Node<crate::tokens::String>>,
    pub colon: Offset<Colon>,
    pub value: Offset<Node<Value>>,
    pub comma: Offset<Option<Comma>>,
}

/// A pair as mathematics sees it.
pub struct PairView {
    pub key: Offset<Node<crate::tokens::String>>,
    pub colon: Offset<Colon>,
    pub value: Offset<Node<ValueView>>,
    pub comma: Offset<Option<Comma>>,
}

impl PairView {
    /// The bytes that the key, the colon, the value and the comma slot take together.
    pub open spec fn spec_width(&self) -> nat {
        self.key.spec_width() + self.colon.spec_width() + self.value.spec_width()
            + self.comma.spec_width()
    }
}

/// The view of a pair.
pub open spec fn pair_view(p: Pair) -> PairView
    decreases p,
{
    PairView {
        key: p.key,
        colon: p.colon,
        value: Offset(p.value.0, Node(p.value.1.0, value_view(p.value.1.1))),
        comma: p.comma,
    }
}

impl View for Pair {
    type V = PairView;

    open spec fn view(&self) -> PairView {
        pair_view(*self)
    }
}

impl Width for Pair {
    open spec fn spec_width(&self) -> nat {
        self.key.spec_width() + self.colon.spec_width() + self.value.spec_width()
            + self.comma.spec_width()
    }

    fn width(&self) -> (w: usize) {
        self.key.width() + self.colon.width() + self.value.width() + self.comma.width()
    }
}

/// The outcome of the pair rule as mathematics sees it.
pub open spec fn pair_result_view(r: Result<Pair, ParseError>) -> Result<PairView, ParseError> {
    match r {
        Ok(p) => Ok(p@),
        Err(e) => Err(e),
    }
}

/// The pair rule.
pub fn parse_pair(content: Buffer<'_>, depth: usize) -> (r: Result<Pair, ParseError>)
    ensures
        pair_result_view(r) == spec_pair(content@, depth as nat),
    decreases depth, 3nat,
{
    let ghost s = content@;
    let key = match parse_string_slot(content) {
        Ok(k) => k,
        Err(e) => {
            return Err(e);
        },
    };
    proof {
        lemma_trivia_fits(s);
        lemma_string_fits(after_trivia(s));
        lemma_with_trivia_fits(s, key.1.0 as nat);
        lemma_cut_bound(s, key.spec_width());
    }
    let mut offset = key.width();
    let ghost behind_key = tail(s, key.spec_width());
    let colon = match parse_punct_slot(content.offset(offset), ':', Colon) {
        Ok(c) => c,
        Err(e) => {
            return Err(e);
        },
    };
    proof {
        lemma_punct_slot_fits(behind_key, ':', Colon);
        lemma_cut_twice(s, key.spec_width(), colon.spec_width());
        lemma_cut_bound(behind_key, colon.spec_width());
    }
    offset = offset + colon.width();
    let ghost behind_colon = tail(behind_key, colon.spec_width());
    let value = parse_value_slot(content.offset(offset), depth);
    proof {
        lemma_value_slot_fits(behind_colon, depth as nat);
        lemma_cut_twice(s, key.spec_width() + colon.spec_width(), value.spec_width());
    }
    offset = offset + value.width();
    let comma = parse_comma_slot(content.offset(offset));
    Ok(Pair { key, colon, value, comma })
}

/// The views of `pairs`, in order.
pub open spec fn pairs_view(pairs: Seq<Pair>) -> Seq<PairView> {
    Seq::new(pairs.len(), |i: int| pair_view(pairs[i]))
}

/// The bytes that all of `pairs` take.
pub open spec fn pairs_width(pairs: Seq<PairView>) -> nat
    decreases pairs.len(),
{
    if pairs.len() == 0 {
        0
    } else {
        pairs[0].spec_width() + pairs_width(pairs.drop_first())
    }
}

/// One more pair adds its width.
pub proof fn lemma_pairs_width_push(pairs: Seq<PairView>, pair: PairView)
    ensures
        pairs_width(pairs.push(pair)) == pairs_width(pairs) + pair.spec_width(),
    decreases pairs.len(),
{
    if pairs.len() == 0 {
        assert(pairs.push(pair).drop_first() =~= pairs);
    } else {
        assert(pairs.push(pair).drop_first() =~= pairs.drop_first().push(pair));
        lemma_pairs_width_push(pairs.drop_first(), pair);
    }
}

/// The pair rule, with arrays and objects nested down to `MAX_DEPTH`.
impl TryParse for Pair {
    type Error = ParseError;

    open spec fn parses_to(s: Seq<char>, r: Result<Self, ParseError>) -> bool {
        pair_result_view(r) == spec_pair(s, MAX_DEPTH as nat)
    }

    fn try_parse(content: Buffer<'_>) -> (r: Result<Self, ParseError>) {
        parse_pair(content, MAX_DEPTH)
    }
}

} // verus!
