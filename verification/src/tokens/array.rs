//! Arrays: a bracket, items, a bracket.
use vstd::prelude::*;
use crate::buffer::Buffer;
use crate::grammar::{spec_array, spec_items, spec_punct_slot, MAX_DEPTH};
use crate::layout::{lemma_cut_bound, lemma_item_fits, lemma_punct_slot_fits};
use crate::parse::{ErrorKind, ParseError, TryParse};
use crate::tokens::item::{
    item_view, items_view, items_width, lemma_items_width_push, parse_item, Item, ItemView,
};
use crate::tokens::offset::parse_punct_slot;
use crate::tokens::{LeftBracket, Node, Offset, RightBracket};
use crate::width::{is_cut, lemma_cut_twice, tail, text_width, Width};

verus! {

/// An array: its brackets, each with the trivia before it, and its items.
#[derive(Debug, PartialEq, Eq)]
pub struct Array {
    pub left_bracket: Offset<LeftBracket>,
    pub values: Vec<Item>,
    pub right_bracket: Offset<RightBracket>,
}

/// An array as mathematics sees it.
pub struct ArrayView {
    pub left_bracket: Offset<LeftBracket>,
    pub values: Seq<ItemView>,
    pub right_bracket: Offset<RightBracket>,
}

impl ArrayView {
    /// The bytes from the opening bracket's trivia through the closing bracket.
    pub open spec fn spec_width(&self) -> nat {
        self.left_bracket.spec_width() + items_width(self.values) + self.right_bracket.spec_width()
    }
}

/// The view of an array: the views of its items between its brackets.
pub open spec fn array_view(a: Array) -> ArrayView
    decreases a,
{
    ArrayView {
        left_bracket: a.left_bracket,
        values: Seq::new(
            a.values.len() as nat,
            |i: int|
                if 0 <= i < a.values.len() {
                    item_view(a.values[i])
                } else {
                    arbitrary()
                },
        ),
        right_bracket: a.right_bracket,
    }
}

impl View for Array {
    type V = ArrayView;

    open spec fn view(&self) -> ArrayView {
        array_view(*self)
    }
}

/// The view of an array holds the views of its items.
pub proof fn lemma_array_view(a: Array)
    ensures
        a@.left_bracket == a.left_bracket,
        a@.values == items_view(a.values@),
        a@.right_bracket == a.right_bracket,
{
}

/// What reading on gives where `before` has been read already.
pub open spec fn items_behind(
    before: Seq<ItemView>,
    r: Result<(Seq<ItemView>, Offset<RightBracket>), ParseError>,
) -> Result<(Seq<ItemView>, Offset<RightBracket>), ParseError> {
    match r {
        Ok((more, right)) => Ok((before + more, right)),
        Err(e) => Err(e),
    }
}

/// The outcome of the array rule as mathematics sees it.
pub open spec fn array_result_view(r: Result<Node<Array>, ParseError>) -> Result<
    Node<ArrayView>,
    ParseError,
> {
    match r {
        Ok(n) => Ok(n@),
        Err(e) => Err(e),
    }
}

/// The array rule. `depth` is how many more levels may open, this array
/// included.
pub fn parse_array(content: Buffer<'_>, depth: usize) -> (r: Result<Node<Array>, ParseError>)
    ensures
        array_result_view(r) == spec_array(content@, depth as nat),
    decreases depth, 0nat,
{
    if depth == 0 {
        return Err(ParseError::new(ErrorKind::StackDepthExceeded));
    }
    let ghost s = content@;
    let ghost d = (depth - 1) as nat;
    let total = content.len();
    let left_bracket = match parse_punct_slot(content, '[', LeftBracket) {
        Ok(l) => l,
        Err(e) => {
            return Err(e);
        },
    };
    proof {
        lemma_punct_slot_fits(s, '[', LeftBracket);
    }
    let mut values: Vec<Item> = Vec::new();
    let mut offset = left_bracket.width();
    let mut separated = true;
    let ghost start = tail(s, offset as nat);
    loop
        invariant
            s == content@,
            total == text_width(s),
            depth > 0,
            d == depth - 1,
            is_cut(s, offset as nat),
            offset <= total,
            offset == left_bracket.spec_width() + items_width(items_view(values@)),
            start == tail(s, left_bracket.spec_width()),
            spec_punct_slot(s, '[', LeftBracket) == Ok::<Offset<LeftBracket>, ParseError>(
                left_bracket,
            ),
            spec_items(start, true, d) == items_behind(
                items_view(values@),
                spec_items(tail(s, offset as nat), separated, d),
            ),
        decreases total - offset,
    {
        let rest = content.offset(offset);
        proof {
            lemma_cut_bound(s, offset as nat);
        }
        if rest.len() == 0 {
            return Err(ParseError::new(ErrorKind::UnterminatedArray));
        }
        assert(rest@.len() > 0);
        match parse_punct_slot(rest, ']', RightBracket) {
            Ok(right_bracket) => {
                proof {
                    lemma_punct_slot_fits(rest@, ']', RightBracket);
                }
                offset = offset + right_bracket.width();
                let array = Array { left_bracket, values, right_bracket };
                proof {
                    lemma_array_view(array);
                }
                return Ok(Node(offset, array));
            },
            Err(_) => {},
        }
        let item = parse_item(rest, depth - 1);
        proof {
            lemma_item_fits(rest@, d);
            lemma_cut_twice(s, offset as nat, item.spec_width());
        }
        if !separated {
            return Err(ParseError::new(ErrorKind::MissingSeparator));
        }
        proof {
            let before = items_view(values@);
            let after = items_view(values@.push(item));
            assert(after =~= before.push(item@));
            lemma_items_width_push(before, item@);
            match spec_items(tail(rest@, item.spec_width()), item.comma.1 is Some, d) {
                Ok((more, right)) => {
                    assert(before + (seq![item@] + more) =~= after + more);
                },
                Err(_) => {},
            }
        }
        separated = item.comma.1.is_some();
        offset = offset + item.width();
        values.push(item);
    }
}

/// The array rule, with arrays and objects nested down to `MAX_DEPTH`.
impl TryParse for Node<Array> {
    type Error = ParseError;

    open spec fn parses_to(s: Seq<char>, r: Result<Self, ParseError>) -> bool {
        array_result_view(r) == spec_array(s, MAX_DEPTH as nat)
    }

    fn try_parse(content: Buffer<'_>) -> (r: Result<Self, ParseError>) {
        parse_array(content, MAX_DEPTH)
    }
}

} // verus!
