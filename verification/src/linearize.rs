//! Walking a tree back into the tokens that it was read from.
//!
//! The walk reads no character: it cuts the source by the widths that the
//! tree recorded. The tokens of a tree that fits its source spell that
//! source out again.
use vstd::prelude::*;
use crate::buffer::split_text;
use crate::tokens::array::lemma_array_view;
use crate::tokens::item::items_view;
use crate::tokens::object::lemma_object_view;
use crate::tokens::pair::pairs_view;

use crate::tokens::{Array, Item, Object, Pair, Value};
use crate::layout::{
    array_fits, item_fits, items_fit, lemma_item_cut, lemma_items_cut, lemma_pair_cut,
    lemma_pairs_cut, lemma_slot_cut, lemma_value_slot_cut, object_fits, pair_fits, pairs_fit,
    slot_fits, value_fits, value_slot_fits,
};
use crate::tokens::item::items_width;
use crate::tokens::pair::pairs_width;
use crate::tokens::{
    ArrayView, Comma, ItemView, Node, ObjectView, Offset, PairView, TokenKind, ValueView,
};
use crate::width::{head, is_cut, lemma_cut_ends, lemma_cut_twice, tail, Width};

verus! {

/// A token as mathematics sees it: its kind and its text.
pub type Token = (TokenKind, Seq<char>);

/// The token for `t` bytes of trivia at the start of `s`; none where `t` is 0.
pub open spec fn trivia_tokens(t: nat, s: Seq<char>) -> Seq<Token> {
    if t > 0 {
        seq![(TokenKind::Trivia, head(s, t))]
    } else {
        Seq::empty()
    }
}

/// The tokens of `t` bytes of trivia and a leaf of `w` bytes behind them.
pub open spec fn slot_tokens(t: nat, kind: TokenKind, w: nat, s: Seq<char>) -> Seq<Token> {
    trivia_tokens(t, s) + seq![(kind, head(tail(s, t), w))]
}

/// The tokens of a comma slot: its trivia, and the comma if there is one.
pub open spec fn comma_tokens(c: Offset<Option<Comma>>, s: Seq<char>) -> Seq<Token> {
    if c.1 is Some {
        slot_tokens(c.0 as nat, TokenKind::Comma, 1, s)
    } else {
        trivia_tokens(c.0 as nat, s)
    }
}

/// The tokens of a value that starts where `s` starts.
pub open spec fn value_tokens(v: Node<ValueView>, s: Seq<char>) -> Seq<Token>
    decreases v,
{
    match v.1 {
        ValueView::Boolean(_) => seq![(TokenKind::Boolean, head(s, v.0 as nat))],
        ValueView::String(_) => seq![(TokenKind::String, head(s, v.0 as nat))],
        ValueView::Number(_) => seq![(TokenKind::Number, head(s, v.0 as nat))],
        ValueView::Invalid(_) => seq![(TokenKind::Invalid, head(s, v.0 as nat))],
        ValueView::Object(o) => object_tokens(o, s),
        ValueView::Array(a) => array_tokens(a, s),
    }
}

/// The tokens of a value and of the trivia before it.
pub open spec fn value_slot_tokens(v: Offset<Node<ValueView>>, s: Seq<char>) -> Seq<Token>
    decreases v,
{
    trivia_tokens(v.0 as nat, s) + value_tokens(v.1, tail(s, v.0 as nat))
}

/// The tokens of an item: of its value, then of its comma slot.
pub open spec fn item_tokens(i: ItemView, s: Seq<char>) -> Seq<Token>
    decreases i,
{
    value_slot_tokens(i.item, s) + comma_tokens(i.comma, tail(s, i.item.spec_width()))
}

/// The tokens of items that lie one behind the other.
pub open spec fn items_tokens(items: Seq<ItemView>, s: Seq<char>) -> Seq<Token>
    decreases items,
{
    if items.len() == 0 {
        Seq::empty()
    } else {
        item_tokens(items[0], s) + items_tokens(
            items.drop_first(),
            tail(s, items[0].spec_width()),
        )
    }
}

/// The tokens of an array: of its opening bracket, its items and its
/// closing bracket.
pub open spec fn array_tokens(a: ArrayView, s: Seq<char>) -> Seq<Token>
    decreases a,
{
    let behind_left = tail(s, a.left_bracket.spec_width());
    slot_tokens(a.left_bracket.0 as nat, TokenKind::LeftBracket, 1, s) + items_tokens(
        a.values,
        behind_left,
    ) + slot_tokens(
        a.right_bracket.0 as nat,
        TokenKind::RightBracket,
        1,
        tail(behind_left, items_width(a.values)),
    )
}

/// The tokens of a pair: of its key, colon, value and comma slot.
pub open spec fn pair_tokens(p: PairView, s: Seq<char>) -> Seq<Token>
    decreases p,
{
    let behind_key = tail(s, p.key.spec_width());
    let behind_colon = tail(behind_key, p.colon.spec_width());
    let behind_value = tail(behind_colon, p.value.spec_width());
    slot_tokens(p.key.0 as nat, TokenKind::String, p.key.1.0 as nat, s) + slot_tokens(
        p.colon.0 as nat,
        TokenKind::Colon,
        1,
        behind_key,
    ) + value_slot_tokens(p.value, behind_colon) + comma_tokens(p.comma, behind_value)
}

/// The tokens of pairs that lie one behind the other.
pub open spec fn pairs_tokens(pairs: Seq<PairView>, s: Seq<char>) -> Seq<Token>
    decreases pairs,
{
    if pairs.len() == 0 {
        Seq::empty()
    } else {
        pair_tokens(pairs[0], s) + pairs_tokens(
            pairs.drop_first(),
            tail(s, pairs[0].spec_width()),
        )
    }
}

/// The tokens of an object: of its opening brace, its pairs and its
/// closing brace.
pub open spec fn object_tokens(o: ObjectView, s: Seq<char>) -> Seq<Token>
    decreases o,
{
    let behind_left = tail(s, o.left_brace.spec_width());
    slot_tokens(o.left_brace.0 as nat, TokenKind::LeftBrace, 1, s) + pairs_tokens(
        o.pairs,
        behind_left,
    ) + slot_tokens(
        o.right_brace.0 as nat,
        TokenKind::RightBrace,
        1,
        tail(behind_left, pairs_width(o.pairs)),
    )
}

/// Where the tokens of a walk are gathered: each with its kind and its text,
/// a slice of the source.
pub type LinearizeBuffer<'a> = Vec<(TokenKind, &'a str)>;

/// The tokens in a buffer as mathematics sees them.
pub open spec fn buffer_view<'a>(buf: Seq<(TokenKind, &'a str)>) -> Seq<Token> {
    Seq::new(buf.len(), |i: int| (buf[i].0, buf[i].1@))
}

/// A part of the tree that can be walked back into tokens.
pub trait Linearize {
    /// Whether every width recorded in `self` is a cut of `s`, where `self`
    /// lies at the start of `s`.
    spec fn fits(&self, s: Seq<char>) -> bool;

    /// The tokens of `self` where it lies at the start of `s`.
    spec fn tokens(&self, s: Seq<char>) -> Seq<Token>;

    /// Appends the tokens of `self` to `buf`. `source` is the text from the
    /// start of `self` on; it may reach beyond the end of `self`.
    fn linearize<'a>(&self, source: &'a str, buf: &mut LinearizeBuffer<'a>)
        requires
            self.fits(source@),
        ensures
            buffer_view(final(buf)@) == buffer_view(old(buf)@) + self.tokens(source@),
    ;
}

impl<T: Linearize> Linearize for Option<T> {
    open spec fn fits(&self, s: Seq<char>) -> bool {
        match self {
            Some(v) => v.fits(s),
            None => true,
        }
    }

    open spec fn tokens(&self, s: Seq<char>) -> Seq<Token> {
        match self {
            Some(v) => v.tokens(s),
            None => Seq::empty(),
        }
    }

    fn linearize<'a>(&self, source: &'a str, buf: &mut LinearizeBuffer<'a>) {
        match self {
            Some(v) => {
                v.linearize(source, buf);
            },
            None => {},
        }
    }
}

impl<T: Linearize> Linearize for Offset<T> {
    open spec fn fits(&self, s: Seq<char>) -> bool {
        is_cut(s, self.0 as nat) && self.1.fits(tail(s, self.0 as nat))
    }

    open spec fn tokens(&self, s: Seq<char>) -> Seq<Token> {
        trivia_tokens(self.0 as nat, s) + self.1.tokens(tail(s, self.0 as nat))
    }

    fn linearize<'a>(&self, source: &'a str, buf: &mut LinearizeBuffer<'a>) {
        let behind = linearize_trivia(self.0, source, buf);
        self.1.linearize(behind, buf);
    }
}

impl Linearize for Node<Value> {
    open spec fn fits(&self, s: Seq<char>) -> bool {
        value_fits(self@, s)
    }

    open spec fn tokens(&self, s: Seq<char>) -> Seq<Token> {
        value_tokens(self@, s)
    }

    fn linearize<'a>(&self, source: &'a str, buf: &mut LinearizeBuffer<'a>) {
        linearize_value(self, source, buf);
    }
}

impl Linearize for Node<crate::tokens::String> {
    open spec fn fits(&self, s: Seq<char>) -> bool {
        is_cut(s, self.0 as nat)
    }

    open spec fn tokens(&self, s: Seq<char>) -> Seq<Token> {
        seq![(TokenKind::String, head(s, self.0 as nat))]
    }

    fn linearize<'a>(&self, source: &'a str, buf: &mut LinearizeBuffer<'a>) {
        linearize_leaf(TokenKind::String, self.0, source, buf);
    }
}

impl Linearize for Array {
    open spec fn fits(&self, s: Seq<char>) -> bool {
        array_fits(self@, s)
    }

    open spec fn tokens(&self, s: Seq<char>) -> Seq<Token> {
        array_tokens(self@, s)
    }

    fn linearize<'a>(&self, source: &'a str, buf: &mut LinearizeBuffer<'a>) {
        linearize_array(self, source, buf);
    }
}

impl Linearize for Item {
    open spec fn fits(&self, s: Seq<char>) -> bool {
        item_fits(self@, s)
    }

    open spec fn tokens(&self, s: Seq<char>) -> Seq<Token> {
        item_tokens(self@, s)
    }

    fn linearize<'a>(&self, source: &'a str, buf: &mut LinearizeBuffer<'a>) {
        linearize_item(self, source, buf);
    }
}

impl Linearize for Object {
    open spec fn fits(&self, s: Seq<char>) -> bool {
        object_fits(self@, s)
    }

    open spec fn tokens(&self, s: Seq<char>) -> Seq<Token> {
        object_tokens(self@, s)
    }

    fn linearize<'a>(&self, source: &'a str, buf: &mut LinearizeBuffer<'a>) {
        linearize_object(self, source, buf);
    }
}

impl Linearize for Pair {
    open spec fn fits(&self, s: Seq<char>) -> bool {
        pair_fits(self@, s)
    }

    open spec fn tokens(&self, s: Seq<char>) -> Seq<Token> {
        pair_tokens(self@, s)
    }

    fn linearize<'a>(&self, source: &'a str, buf: &mut LinearizeBuffer<'a>) {
        linearize_pair(self, source, buf);
    }
}

/// Appends the token for the trivia at the start of `source`, if there is
/// any, and returns the source behind it.
pub fn linearize_trivia<'a>(trivia: usize, source: &'a str, buf: &mut LinearizeBuffer<'a>) -> (rest:
    &'a str)
    requires
        is_cut(source@, trivia as nat),
    ensures
        rest@ == tail(source@, trivia as nat),
        buffer_view(final(buf)@) == buffer_view(old(buf)@) + trivia_tokens(
            trivia as nat,
            source@,
        ),
{
    let (text, rest) = split_text(source, trivia);
    if trivia > 0 {
        buf.push((TokenKind::Trivia, text));
    }
    rest
}

/// Appends the one token of a leaf of `width` bytes at the start of
/// `source`, and returns the source behind it.
pub fn linearize_leaf<'a>(
    kind: TokenKind,
    width: usize,
    source: &'a str,
    buf: &mut LinearizeBuffer<'a>,
) -> (rest: &'a str)
    requires
        is_cut(source@, width as nat),
    ensures
        rest@ == tail(source@, width as nat),
        buffer_view(final(buf)@) == buffer_view(old(buf)@).push(
            (kind, head(source@, width as nat)),
        ),
{
    let (text, rest) = split_text(source, width);
    buf.push((kind, text));
    rest
}

/// Appends the tokens of trivia and of the leaf behind it.
pub fn linearize_slot<'a>(
    trivia: usize,
    kind: TokenKind,
    width: usize,
    source: &'a str,
    buf: &mut LinearizeBuffer<'a>,
) -> (rest: &'a str)
    requires
        slot_fits(source@, trivia as nat, width as nat),
    ensures
        rest@ == tail(tail(source@, trivia as nat), width as nat),
        buffer_view(final(buf)@) == buffer_view(old(buf)@) + slot_tokens(
            trivia as nat,
            kind,
            width as nat,
            source@,
        ),
{
    let behind = linearize_trivia(trivia, source, buf);
    linearize_leaf(kind, width, behind, buf)
}

/// Appends the tokens of a comma slot.
pub fn linearize_comma<'a>(
    comma: &Offset<Option<Comma>>,
    source: &'a str,
    buf: &mut LinearizeBuffer<'a>,
) -> (rest: &'a str)
    requires
        slot_fits(source@, comma.0 as nat, comma.1.spec_width()),
    ensures
        rest@ == tail(tail(source@, comma.0 as nat), comma.1.spec_width()),
        buffer_view(final(buf)@) == buffer_view(old(buf)@) + comma_tokens(*comma, source@),
{
    match comma.1 {
        Some(_) => linearize_slot(comma.0, TokenKind::Comma, 1, source, buf),
        None => linearize_trivia(comma.0, source, buf),
    }
}

/// Appends the tokens of a value that starts where `source` starts, and
/// returns the source behind the value.
pub fn linearize_value<'a>(v: &Node<Value>, source: &'a str, buf: &mut LinearizeBuffer<'a>) -> (rest:
    &'a str)
    requires
        value_fits(v@, source@),
    ensures
        rest@ == tail(source@, v.0 as nat),
        buffer_view(final(buf)@) == buffer_view(old(buf)@) + value_tokens(v@, source@),
    decreases v,
{
    match &v.1 {
        Value::Boolean(_) => linearize_leaf(TokenKind::Boolean, v.0, source, buf),
        Value::String(_) => linearize_leaf(TokenKind::String, v.0, source, buf),
        Value::Number(_) => linearize_leaf(TokenKind::Number, v.0, source, buf),
        Value::Invalid(_) => linearize_leaf(TokenKind::Invalid, v.0, source, buf),
        Value::Object(o) => linearize_object(o, source, buf),
        Value::Array(a) => linearize_array(a, source, buf),
    }
}

/// Appends the tokens of a value and of the trivia before it.
pub fn linearize_value_slot<'a>(
    v: &Offset<Node<Value>>,
    source: &'a str,
    buf: &mut LinearizeBuffer<'a>,
) -> (rest: &'a str)
    requires
        value_slot_fits(v@, source@),
    ensures
        rest@ == tail(source@, v.spec_width()),
        buffer_view(final(buf)@) == buffer_view(old(buf)@) + value_slot_tokens(v@, source@),
    decreases v,
{
    let behind = linearize_trivia(v.0, source, buf);
    let rest = linearize_value(&v.1, behind, buf);
    proof {
        lemma_value_slot_cut(v@, source@);
    }
    rest
}

/// Appends the tokens of an array item.
pub fn linearize_item<'a>(i: &Item, source: &'a str, buf: &mut LinearizeBuffer<'a>) -> (rest:
    &'a str)
    requires
        item_fits(i@, source@),
    ensures
        rest@ == tail(source@, i.spec_width()),
        buffer_view(final(buf)@) == buffer_view(old(buf)@) + item_tokens(i@, source@),
    decreases i,
{
    let behind = linearize_value_slot(&i.item, source, buf);
    let rest = linearize_comma(&i.comma, behind, buf);
    proof {
        lemma_value_slot_cut(i@.item, source@);
        lemma_slot_cut(behind@, i.comma.0 as nat, i.comma.1.spec_width());
        lemma_cut_twice(source@, i.item.spec_width(), i.comma.spec_width());
    }
    rest
}

/// Appends the tokens of an array.
pub fn linearize_array<'a>(a: &Array, source: &'a str, buf: &mut LinearizeBuffer<'a>) -> (rest:
    &'a str)
    requires
        array_fits(a@, source@),
    ensures
        rest@ == tail(source@, a@.spec_width()),
        buffer_view(final(buf)@) == buffer_view(old(buf)@) + array_tokens(a@, source@),
    decreases a,
{
    let ghost before = buffer_view(buf@);
    let ghost items = items_view(a.values@);
    proof {
        lemma_array_view(*a);
        lemma_slot_cut(source@, a.left_bracket.0 as nat, 1);
    }
    let mut rest = linearize_slot(a.left_bracket.0, TokenKind::LeftBracket, 1, source, buf);
    let ghost behind_left = rest@;
    let ghost left = slot_tokens(a.left_bracket.0 as nat, TokenKind::LeftBracket, 1, source@);
    let mut i: usize = 0;
    proof {
        assert(items.skip(0) =~= items);
    }
    while i < a.values.len()
        invariant
            i <= a.values.len(),
            items == items_view(a.values@),
            items_fit(items.skip(i as int), rest@),
            items_fit(items, behind_left),
            tail(rest@, items_width(items.skip(i as int))) == tail(
                behind_left,
                items_width(items),
            ),
            buffer_view(buf@) + items_tokens(items.skip(i as int), rest@) == before + left
                + items_tokens(items, behind_left),
        decreases a.values.len() - i,
    {
        let ghost here = rest@;
        let ghost remaining = items.skip(i as int);
        proof {
            assert(remaining.drop_first() =~= items.skip(i + 1));
            lemma_item_cut(remaining[0], here);
            lemma_items_cut(remaining.drop_first(), tail(here, remaining[0].spec_width()));
            lemma_cut_twice(here, remaining[0].spec_width(), items_width(remaining.drop_first()));
        }
        rest = linearize_item(&a.values[i], rest, buf);
        i = i + 1;
    }
    proof {
        lemma_cut_ends(rest@);
        lemma_items_cut(items, behind_left);
        lemma_slot_cut(rest@, a.right_bracket.0 as nat, 1);
        lemma_cut_twice(behind_left, items_width(items), a.right_bracket.spec_width());
        lemma_cut_twice(
            source@,
            a.left_bracket.spec_width(),
            items_width(items) + a.right_bracket.spec_width(),
        );
    }
    linearize_slot(a.right_bracket.0, TokenKind::RightBracket, 1, rest, buf)
}

/// Appends the tokens of an object entry.
pub fn linearize_pair<'a>(p: &Pair, source: &'a str, buf: &mut LinearizeBuffer<'a>) -> (rest:
    &'a str)
    requires
        pair_fits(p@, source@),
    ensures
        rest@ == tail(source@, p.spec_width()),
        buffer_view(final(buf)@) == buffer_view(old(buf)@) + pair_tokens(p@, source@),
    decreases p,
{
    proof {
        lemma_slot_cut(source@, p.key.0 as nat, p.key.1.0 as nat);
    }
    let behind_key = linearize_slot(p.key.0, TokenKind::String, p.key.1.0, source, buf);
    proof {
        lemma_slot_cut(behind_key@, p.colon.0 as nat, 1);
    }
    let behind_colon = linearize_slot(p.colon.0, TokenKind::Colon, 1, behind_key, buf);
    proof {
        lemma_value_slot_cut(p@.value, behind_colon@);
    }
    let behind_value = linearize_value_slot(&p.value, behind_colon, buf);
    proof {
        lemma_slot_cut(behind_value@, p.comma.0 as nat, p.comma.1.spec_width());
    }
    let rest = linearize_comma(&p.comma, behind_value, buf);
    proof {
        lemma_cut_twice(behind_colon@, p.value.spec_width(), p.comma.spec_width());
        lemma_cut_twice(
            behind_key@,
            p.colon.spec_width(),
            p.value.spec_width() + p.comma.spec_width(),
        );
        lemma_cut_twice(
            source@,
            p.key.spec_width(),
            p.colon.spec_width() + p.value.spec_width() + p.comma.spec_width(),
        );
    }
    rest
}

/// Appends the tokens of an object.
pub fn linearize_object<'a>(o: &Object, source: &'a str, buf: &mut LinearizeBuffer<'a>) -> (rest:
    &'a str)
    requires
        object_fits(o@, source@),
    ensures
        rest@ == tail(source@, o@.spec_width()),
        buffer_view(final(buf)@) == buffer_view(old(buf)@) + object_tokens(o@, source@),
    decreases o,
{
    let ghost before = buffer_view(buf@);
    let ghost pairs = pairs_view(o.pairs@);
    proof {
        lemma_object_view(*o);
        lemma_slot_cut(source@, o.left_brace.0 as nat, 1);
    }
    let mut rest = linearize_slot(o.left_brace.0, TokenKind::LeftBrace, 1, source, buf);
    let ghost behind_left = rest@;
    let ghost left = slot_tokens(o.left_brace.0 as nat, TokenKind::LeftBrace, 1, source@);
    let mut i: usize = 0;
    proof {
        assert(pairs.skip(0) =~= pairs);
    }
    while i < o.pairs.len()
        invariant
            i <= o.pairs.len(),
            pairs == pairs_view(o.pairs@),
            pairs_fit(pairs.skip(i as int), rest@),
            pairs_fit(pairs, behind_left),
            tail(rest@, pairs_width(pairs.skip(i as int))) == tail(
                behind_left,
                pairs_width(pairs),
            ),
            buffer_view(buf@) + pairs_tokens(pairs.skip(i as int), rest@) == before + left
                + pairs_tokens(pairs, behind_left),
        decreases o.pairs.len() - i,
    {
        let ghost here = rest@;
        let ghost remaining = pairs.skip(i as int);
        proof {
            assert(remaining.drop_first() =~= pairs.skip(i + 1));
            lemma_pair_cut(remaining[0], here);
            lemma_pairs_cut(remaining.drop_first(), tail(here, remaining[0].spec_width()));
            lemma_cut_twice(here, remaining[0].spec_width(), pairs_width(remaining.drop_first()));
        }
        rest = linearize_pair(&o.pairs[i], rest, buf);
        i = i + 1;
    }
    proof {
        lemma_cut_ends(rest@);
        lemma_pairs_cut(pairs, behind_left);
        lemma_slot_cut(rest@, o.right_brace.0 as nat, 1);
        lemma_cut_twice(behind_left, pairs_width(pairs), o.right_brace.spec_width());
        lemma_cut_twice(
            source@,
            o.left_brace.spec_width(),
            pairs_width(pairs) + o.right_brace.spec_width(),
        );
    }
    linearize_slot(o.right_brace.0, TokenKind::RightBrace, 1, rest, buf)
}

} // verus!
