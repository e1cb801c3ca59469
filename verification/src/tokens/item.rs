//! One entry of an array.
use vstd::prelude::*;
use crate::buffer::Buffer;
use crate::grammar::{spec_item, MAX_DEPTH};
use crate::layout::lemma_value_slot_fits;
use crate::parse::{parse_value_slot, ParseError, TryParse};
use crate::tokens::offset::parse_comma_slot;
use crate::tokens::value::{value_view, Value, ValueView};
use crate::tokens::{Comma, Node, Offset};
use crate::width::Width;

verus! {

/// A value and the comma behind it, if there is one.
#[derive(Debug, PartialEq, Eq)]
pub struct Item {
    pub item: Offset<Node<Value>>,
    pub comma: Offset<Option<Comma>>,
}

/// An item as mathematics sees it.
pub struct ItemView {
    pub item: Offset<Node<ValueView>>,
    pub comma: Offset<Option<Comma>>,
}

impl ItemView {
    /// The bytes that the value and the comma slot take together.
    pub open spec fn spec_width(&self) -> nat {
        self.item.spec_width() + self.comma.spec_width()
    }
}

/// The view of an item.
pub open spec fn item_view(i: Item) -> ItemView
    decreases i,
{
    ItemView {
        item: Offset(i.item.0, Node(i.item.1.0, value_view(i.item.1.1))),
        comma: i.comma,
    }
}

impl View for Item {
    type V = ItemView;

    open spec fn view(&self) -> ItemView {
        item_view(*self)
    }
}

impl Width for Item {
    open spec fn spec_width(&self) -> nat {
        self.item.spec_width() + self.comma.spec_width()
    }

    fn width(&self) -> (w: usize) {
        self.item.width() + self.comma.width()
    }
}

/// The item rule.
pub fn parse_item(content: Buffer<'_>, depth: usize) -> (r: Item)
    ensures
        r@ == spec_item(content@, depth as nat),
    decreases depth, 3nat,
{
    let item = parse_value_slot(content, depth);
    proof {
        lemma_value_slot_fits(content@, depth as nat);
    }
    let comma = parse_comma_slot(content.offset(item.width()));
    Item { item, comma }
}

/// The views of `items`, in order.
pub open spec fn items_view(items: Seq<Item>) -> Seq<ItemView> {
    Seq::new(items.len(), |i: int| item_view(items[i]))
}

/// The bytes that all of `items` take.
pub open spec fn items_width(items: Seq<ItemView>) -> nat
    decreases items.len(),
{
    if items.len() == 0 {
        0
    } else {
        items[0].spec_width() + items_width(items.drop_first())
    }
}

/// One more item adds its width.
pub proof fn lemma_items_width_push(items: Seq<ItemView>, item: ItemView)
    ensures
        items_width(items.push(item)) == items_width(items) + item.spec_width(),
    decreases items.len(),
{
    if items.len() == 0 {
        assert(items.push(item).drop_first() =~= items);
    } else {
        assert(items.push(item).drop_first() =~= items.drop_first().push(item));
        lemma_items_width_push(items.drop_first(), item);
    }
}

/// The item rule, with arrays and objects nested down to `MAX_DEPTH`. It
/// never fails.
impl TryParse for Item {
    type Error = ParseError;

    open spec fn parses_to(s: Seq<char>, r: Result<Self, ParseError>) -> bool {
        r matches Ok(i) && i@ == spec_item(s, MAX_DEPTH as nat)
    }

    fn try_parse(content: Buffer<'_>) -> (r: Result<Self, ParseError>) {
        Ok(parse_item(content, MAX_DEPTH))
    }
}

} // verus!
