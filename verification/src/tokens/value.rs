//! The value: the sum of everything that the grammar accepts, and what is
//! left of text that it does not.
use vstd::prelude::*;
use crate::parse::ParseError;
use crate::tokens::array::{Array, array_view, ArrayView};
use crate::tokens::object::{Object, object_view, ObjectView};
use crate::tokens::item::{items_view, ItemView};
use crate::tokens::pair::{pairs_view, PairView};
use crate::tokens::{Boolean, Number};

verus! {

/// Everything a value can be.
#[derive(Debug, PartialEq, Eq)]
pub enum Value {
    Boolean(Boolean),
    String(crate::tokens::String),
    Number(Number),
    Object(Object),
    Array(Array),
    Invalid(ParseError),
}

/// A value as mathematics sees it: sequences in place of vectors.
pub enum ValueView {
    Boolean(Boolean),
    String(crate::tokens::String),
    Number(Number),
    Object(ObjectView),
    Array(ArrayView),
    Invalid(ParseError),
}

/// The view of a value.
pub open spec fn value_view(v: Value) -> ValueView
    decreases v,
{
    match v {
        Value::Boolean(b) => ValueView::Boolean(b),
        Value::String(s) => ValueView::String(s),
        Value::Number(n) => ValueView::Number(n),
        Value::Object(o) => ValueView::Object(object_view(o)),
        Value::Array(a) => ValueView::Array(array_view(a)),
        Value::Invalid(e) => ValueView::Invalid(e),
    }
}

impl View for Value {
    type V = ValueView;

    open spec fn view(&self) -> ValueView {
        value_view(*self)
    }
}

/// Whether a value holds an `Invalid` value: itself, or in the value of a
/// pair or of an item, at any depth. Keys and punctuation are not looked
/// at: a rule that failed on them has failed as a whole, and left an
/// `Invalid` value one level up.
pub open spec fn value_has_error(v: ValueView) -> bool
    decreases v,
{
    match v {
        ValueView::Invalid(_) => true,
        ValueView::Object(o) => pairs_have_error(o.pairs),
        ValueView::Array(a) => items_have_error(a.values),
        _ => false,
    }
}

/// Whether the value of one of `pairs` holds an `Invalid` value.
pub open spec fn pairs_have_error(pairs: Seq<PairView>) -> bool
    decreases pairs,
{
    pairs.len() > 0 && (value_has_error(pairs[0].value.1.1) || pairs_have_error(
        pairs.drop_first(),
    ))
}

/// Whether the value of one of `items` holds an `Invalid` value.
pub open spec fn items_have_error(items: Seq<ItemView>) -> bool
    decreases items,
{
    items.len() > 0 && (value_has_error(items[0].item.1.1) || items_have_error(
        items.drop_first(),
    ))
}

/// Pairs have an error just where the value of one of them has.
pub proof fn lemma_pairs_have_error(pairs: Seq<PairView>)
    ensures
        pairs_have_error(pairs) == exists|i: int|
            0 <= i < pairs.len() && value_has_error((#[trigger] pairs[i]).value.1.1),
    decreases pairs.len(),
{
    if pairs.len() > 0 {
        let more = pairs.drop_first();
        lemma_pairs_have_error(more);
        if exists|i: int| 0 <= i < pairs.len() && value_has_error((#[trigger] pairs[i]).value.1.1) {
            let i = choose|i: int|
                0 <= i < pairs.len() && value_has_error((#[trigger] pairs[i]).value.1.1);
            if i > 0 {
                assert(more[i - 1] == pairs[i]);
            }
        }
        if exists|i: int| 0 <= i < more.len() && value_has_error((#[trigger] more[i]).value.1.1) {
            let i = choose|i: int|
                0 <= i < more.len() && value_has_error((#[trigger] more[i]).value.1.1);
            assert(pairs[i + 1] == more[i]);
        }
    }
}

/// Items have an error just where the value of one of them has.
pub proof fn lemma_items_have_error(items: Seq<ItemView>)
    ensures
        items_have_error(items) == exists|i: int|
            0 <= i < items.len() && value_has_error((#[trigger] items[i]).item.1.1),
    decreases items.len(),
{
    if items.len() > 0 {
        let more = items.drop_first();
        lemma_items_have_error(more);
        if exists|i: int| 0 <= i < items.len() && value_has_error((#[trigger] items[i]).item.1.1) {
            let i = choose|i: int|
                0 <= i < items.len() && value_has_error((#[trigger] items[i]).item.1.1);
            if i > 0 {
                assert(more[i - 1] == items[i]);
            }
        }
        if exists|i: int| 0 <= i < more.len() && value_has_error((#[trigger] more[i]).item.1.1) {
            let i = choose|i: int|
                0 <= i < more.len() && value_has_error((#[trigger] more[i]).item.1.1);
            assert(items[i + 1] == more[i]);
        }
    }
}

impl Value {
    /// Whether this value holds an `Invalid` value.
    pub fn has_error(&self) -> (b: bool)
        ensures
            b == value_has_error(self@),
        decreases self,
    {
        match self {
            Value::Invalid(_) => true,
            Value::Object(o) => object_has_error(o),
            Value::Array(a) => array_has_error(a),
            _ => false,
        }
    }
}

/// Whether the value of one of the pairs of `o` holds an `Invalid` value.
pub fn object_has_error(o: &Object) -> (b: bool)
    ensures
        b == pairs_have_error(o@.pairs),
    decreases o,
{
    proof {
        assert(o@.pairs.skip(0) =~= o@.pairs);
    }
    let mut i: usize = 0;
    while i < o.pairs.len()
        invariant
            i <= o.pairs.len(),
            o@.pairs == pairs_view(o.pairs@),
            pairs_have_error(o@.pairs) == pairs_have_error(o@.pairs.skip(i as int)),
        decreases o.pairs.len() - i,
    {
        proof {
            assert(o@.pairs.skip(i as int).drop_first() =~= o@.pairs.skip(i + 1));
        }
        if o.pairs[i].value.1.1.has_error() {
            return true;
        }
        i = i + 1;
    }
    false
}

/// Whether the value of one of the items of `a` holds an `Invalid` value.
pub fn array_has_error(a: &Array) -> (b: bool)
    ensures
        b == items_have_error(a@.values),
    decreases a,
{
    proof {
        assert(a@.values.skip(0) =~= a@.values);
    }
    let mut i: usize = 0;
    while i < a.values.len()
        invariant
            i <= a.values.len(),
            a@.values == items_view(a.values@),
            items_have_error(a@.values) == items_have_error(a@.values.skip(i as int)),
        decreases a.values.len() - i,
    {
        proof {
            assert(a@.values.skip(i as int).drop_first() =~= a@.values.skip(i + 1));
        }
        if a.values[i].item.1.1.has_error() {
            return true;
        }
        i = i + 1;
    }
    false
}

} // verus!
