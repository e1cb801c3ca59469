//! What holds of every text and every tree.
//!
//! Round trip: the tokens of a tree that fits a text spell out the text
//! that the tree took. Error locality: a tree has an error just where one
//! of its tokens is of the kind `Invalid`.
use vstd::prelude::*;
use crate::grammar::{after_trivia, spec_array, spec_items, spec_trailing, MAX_DEPTH};
use crate::layout::{
    array_fits, item_fits, items_fit, lemma_cut_bound, lemma_item_cut, lemma_items_cut,
    lemma_pair_cut, lemma_pairs_cut, lemma_slot_cut, lemma_trivia_fits, lemma_value_slot_cut,
    lemma_value_slot_fits, object_fits, pair_fits, pairs_fit, slot_fits, value_fits,
    value_slot_fits,
};
use crate::linearize::{
    array_tokens, comma_tokens, item_tokens, items_tokens, object_tokens, pair_tokens,
    pairs_tokens, slot_tokens, trivia_tokens, value_slot_tokens, value_tokens, Token,
};
use crate::source::{spec_parse, trailing_tokens};
use crate::tokens::item::items_width;
use crate::tokens::pair::pairs_width;
use crate::tokens::value::{items_have_error, pairs_have_error, value_has_error};
use crate::tokens::{
    ArrayView, Comma, ItemView, Node, ObjectView, Offset, PairView, TokenKind, ValueView,
};
use crate::width::{head, is_cut, lemma_cut_ends, lemma_cut_twice, tail, text_width, Width};

verus! {

/// The texts of `tokens`, one behind the other.
pub open spec fn text_of(tokens: Seq<Token>) -> Seq<char>
    decreases tokens.len(),
{
    if tokens.len() == 0 {
        Seq::empty()
    } else {
        tokens[0].1 + text_of(tokens.drop_first())
    }
}

/// The text of two runs of tokens is the text of the first and the text of
/// the second.
pub proof fn lemma_text_of_concat(a: Seq<Token>, b: Seq<Token>)
    ensures
        text_of(a + b) == text_of(a) + text_of(b),
    decreases a.len(),
{
    if a.len() > 0 {
        assert((a + b).drop_first() =~= a.drop_first() + b);
        lemma_text_of_concat(a.drop_first(), b);
    }
}

/// The text of one token is its text.
pub proof fn lemma_text_of_one(t: Token)
    ensures
        text_of(seq![t]) == t.1,
{
    let one = seq![t];
    assert(text_of(one.drop_first()) == Seq::<char>::empty());
}

/// The token of trivia spells out the trivia.
pub proof fn lemma_trivia_round_trip(t: nat, s: Seq<char>)
    requires
        is_cut(s, t),
    ensures
        text_of(trivia_tokens(t, s)) == head(s, t),
{
    if t > 0 {
        lemma_text_of_one((TokenKind::Trivia, head(s, t)));
    }
}

/// The tokens of trivia and a leaf spell out both.
pub proof fn lemma_slot_round_trip(t: nat, kind: TokenKind, w: nat, s: Seq<char>)
    requires
        slot_fits(s, t, w),
    ensures
        text_of(slot_tokens(t, kind, w, s)) == head(s, t + w),
{
    lemma_trivia_round_trip(t, s);
    lemma_text_of_one((kind, head(tail(s, t), w)));
    lemma_text_of_concat(trivia_tokens(t, s), seq![(kind, head(tail(s, t), w))]);
    lemma_slot_cut(s, t, w);
}

/// The tokens of a comma slot spell out the slot.
pub proof fn lemma_comma_round_trip(c: Offset<Option<Comma>>, s: Seq<char>)
    requires
        slot_fits(s, c.0 as nat, c.1.spec_width()),
    ensures
        text_of(comma_tokens(c, s)) == head(s, c.spec_width()),
{
    if c.1 is Some {
        lemma_slot_round_trip(c.0 as nat, TokenKind::Comma, 1, s);
    } else {
        lemma_trivia_round_trip(c.0 as nat, s);
    }
}

/// The tokens of a value that fits `s` spell out the bytes of `s` that the
/// value took.
pub proof fn lemma_value_round_trip(v: Node<ValueView>, s: Seq<char>)
    requires
        value_fits(v, s),
    ensures
        text_of(value_tokens(v, s)) == head(s, v.0 as nat),
    decreases v,
{
    match v.1 {
        ValueView::Object(o) => {
            lemma_object_round_trip(o, s);
        },
        ValueView::Array(a) => {
            lemma_array_round_trip(a, s);
        },
        _ => {
            lemma_text_of_one(value_tokens(v, s)[0]);
        },
    }
}

/// The tokens of a value and of the trivia before it spell out both.
pub proof fn lemma_value_slot_round_trip(v: Offset<Node<ValueView>>, s: Seq<char>)
    requires
        value_slot_fits(v, s),
    ensures
        text_of(value_slot_tokens(v, s)) == head(s, v.spec_width()),
    decreases v,
{
    lemma_trivia_round_trip(v.0 as nat, s);
    lemma_value_round_trip(v.1, tail(s, v.0 as nat));
    lemma_text_of_concat(trivia_tokens(v.0 as nat, s), value_tokens(v.1, tail(s, v.0 as nat)));
    lemma_value_slot_cut(v, s);
}

/// The tokens of an item spell out the item.
pub proof fn lemma_item_round_trip(i: ItemView, s: Seq<char>)
    requires
        item_fits(i, s),
    ensures
        text_of(item_tokens(i, s)) == head(s, i.spec_width()),
    decreases i,
{
    let behind = tail(s, i.item.spec_width());
    lemma_value_slot_round_trip(i.item, s);
    lemma_comma_round_trip(i.comma, behind);
    lemma_text_of_concat(value_slot_tokens(i.item, s), comma_tokens(i.comma, behind));
    lemma_value_slot_cut(i.item, s);
    lemma_slot_cut(behind, i.comma.0 as nat, i.comma.1.spec_width());
    lemma_cut_twice(s, i.item.spec_width(), i.comma.spec_width());
}

/// The tokens of items spell out the items, one behind the other.
pub proof fn lemma_items_round_trip(items: Seq<ItemView>, s: Seq<char>)
    requires
        items_fit(items, s),
    ensures
        text_of(items_tokens(items, s)) == head(s, items_width(items)),
    decreases items,
{
    if items.len() > 0 {
        let behind = tail(s, items[0].spec_width());
        lemma_item_round_trip(items[0], s);
        lemma_items_round_trip(items.drop_first(), behind);
        lemma_text_of_concat(item_tokens(items[0], s), items_tokens(items.drop_first(), behind));
        lemma_item_cut(items[0], s);
        lemma_items_cut(items.drop_first(), behind);
        lemma_cut_twice(s, items[0].spec_width(), items_width(items.drop_first()));
    }
}

/// The tokens of an array spell out the array, brackets included.
pub proof fn lemma_array_round_trip(a: ArrayView, s: Seq<char>)
    requires
        array_fits(a, s),
    ensures
        text_of(array_tokens(a, s)) == head(s, a.spec_width()),
    decreases a,
{
    let behind_left = tail(s, a.left_bracket.spec_width());
    let behind_items = tail(behind_left, items_width(a.values));
    let left = slot_tokens(a.left_bracket.0 as nat, TokenKind::LeftBracket, 1, s);
    let middle = items_tokens(a.values, behind_left);
    let right = slot_tokens(a.right_bracket.0 as nat, TokenKind::RightBracket, 1, behind_items);
    lemma_slot_round_trip(a.left_bracket.0 as nat, TokenKind::LeftBracket, 1, s);
    lemma_items_round_trip(a.values, behind_left);
    lemma_slot_round_trip(a.right_bracket.0 as nat, TokenKind::RightBracket, 1, behind_items);
    lemma_text_of_concat(left, middle);
    lemma_text_of_concat(left + middle, right);
    lemma_slot_cut(s, a.left_bracket.0 as nat, 1);
    lemma_items_cut(a.values, behind_left);
    lemma_slot_cut(behind_items, a.right_bracket.0 as nat, 1);
    lemma_cut_twice(behind_left, items_width(a.values), a.right_bracket.spec_width());
    lemma_cut_twice(
        s,
        a.left_bracket.spec_width(),
        items_width(a.values) + a.right_bracket.spec_width(),
    );
}

/// The tokens of a pair spell out the pair.
pub proof fn lemma_pair_round_trip(p: PairView, s: Seq<char>)
    requires
        pair_fits(p, s),
    ensures
        text_of(pair_tokens(p, s)) == head(s, p.spec_width()),
    decreases p,
{
    let behind_key = tail(s, p.key.spec_width());
    let behind_colon = tail(behind_key, p.colon.spec_width());
    let behind_value = tail(behind_colon, p.value.spec_width());
    let key = slot_tokens(p.key.0 as nat, TokenKind::String, p.key.1.0 as nat, s);
    let colon = slot_tokens(p.colon.0 as nat, TokenKind::Colon, 1, behind_key);
    let value = value_slot_tokens(p.value, behind_colon);
    let comma = comma_tokens(p.comma, behind_value);
    lemma_slot_round_trip(p.key.0 as nat, TokenKind::String, p.key.1.0 as nat, s);
    lemma_slot_round_trip(p.colon.0 as nat, TokenKind::Colon, 1, behind_key);
    lemma_value_slot_round_trip(p.value, behind_colon);
    lemma_comma_round_trip(p.comma, behind_value);
    lemma_text_of_concat(key, colon);
    lemma_text_of_concat(key + colon, value);
    lemma_text_of_concat(key + colon + value, comma);
    lemma_slot_cut(s, p.key.0 as nat, p.key.1.0 as nat);
    lemma_slot_cut(behind_key, p.colon.0 as nat, 1);
    lemma_value_slot_cut(p.value, behind_colon);
    lemma_slot_cut(behind_value, p.comma.0 as nat, p.comma.1.spec_width());
    lemma_cut_twice(behind_colon, p.value.spec_width(), p.comma.spec_width());
    lemma_cut_twice(behind_key, p.colon.spec_width(), p.value.spec_width() + p.comma.spec_width());
    lemma_cut_twice(
        s,
        p.key.spec_width(),
        p.colon.spec_width() + p.value.spec_width() + p.comma.spec_width(),
    );
}

/// The tokens of pairs spell out the pairs, one behind the other.
pub proof fn lemma_pairs_round_trip(pairs: Seq<PairView>, s: Seq<char>)
    requires
        pairs_fit(pairs, s),
    ensures
        text_of(pairs_tokens(pairs, s)) == head(s, pairs_width(pairs)),
    decreases pairs,
{
    if pairs.len() > 0 {
        let behind = tail(s, pairs[0].spec_width());
        lemma_pair_round_trip(pairs[0], s);
        lemma_pairs_round_trip(pairs.drop_first(), behind);
        lemma_text_of_concat(pair_tokens(pairs[0], s), pairs_tokens(pairs.drop_first(), behind));
        lemma_pair_cut(pairs[0], s);
        lemma_pairs_cut(pairs.drop_first(), behind);
        lemma_cut_twice(s, pairs[0].spec_width(), pairs_width(pairs.drop_first()));
    }
}

/// The tokens of an object spell out the object, braces included.
pub proof fn lemma_object_round_trip(o: ObjectView, s: Seq<char>)
    requires
        object_fits(o, s),
    ensures
        text_of(object_tokens(o, s)) == head(s, o.spec_width()),
    decreases o,
{
    let behind_left = tail(s, o.left_brace.spec_width());
    let behind_pairs = tail(behind_left, pairs_width(o.pairs));
    let left = slot_tokens(o.left_brace.0 as nat, TokenKind::LeftBrace, 1, s);
    let middle = pairs_tokens(o.pairs, behind_left);
    let right = slot_tokens(o.right_brace.0 as nat, TokenKind::RightBrace, 1, behind_pairs);
    lemma_slot_round_trip(o.left_brace.0 as nat, TokenKind::LeftBrace, 1, s);
    lemma_pairs_round_trip(o.pairs, behind_left);
    lemma_slot_round_trip(o.right_brace.0 as nat, TokenKind::RightBrace, 1, behind_pairs);
    lemma_text_of_concat(left, middle);
    lemma_text_of_concat(left + middle, right);
    lemma_slot_cut(s, o.left_brace.0 as nat, 1);
    lemma_pairs_cut(o.pairs, behind_left);
    lemma_slot_cut(behind_pairs, o.right_brace.0 as nat, 1);
    lemma_cut_twice(behind_left, pairs_width(o.pairs), o.right_brace.spec_width());
    lemma_cut_twice(
        s,
        o.left_brace.spec_width(),
        pairs_width(o.pairs) + o.right_brace.spec_width(),
    );
}

/// Whether one of `tokens` is of the kind `Invalid`.
pub open spec fn has_invalid(tokens: Seq<Token>) -> bool {
    exists|i: int| 0 <= i < tokens.len() && (#[trigger] tokens[i]).0 == TokenKind::Invalid
}

/// Two runs of tokens hold an `Invalid` token just where one of them does.
pub proof fn lemma_has_invalid_concat(a: Seq<Token>, b: Seq<Token>)
    ensures
        has_invalid(a + b) == (has_invalid(a) || has_invalid(b)),
{
    let ab = a + b;
    if has_invalid(a) {
        let i = choose|i: int| 0 <= i < a.len() && (#[trigger] a[i]).0 == TokenKind::Invalid;
        assert(ab[i] == a[i]);
    }
    if has_invalid(b) {
        let i = choose|i: int| 0 <= i < b.len() && (#[trigger] b[i]).0 == TokenKind::Invalid;
        assert(ab[a.len() + i] == b[i]);
    }
    if has_invalid(ab) {
        let i = choose|i: int| 0 <= i < ab.len() && (#[trigger] ab[i]).0 == TokenKind::Invalid;
        if i < a.len() {
            assert(a[i] == ab[i]);
        } else {
            assert(b[i - a.len()] == ab[i]);
        }
    }
}

/// Error locality: a value holds an `Invalid` value just where one of its
/// tokens is of the kind `Invalid`.
pub proof fn lemma_error_locality(v: Node<ValueView>, s: Seq<char>)
    ensures
        value_has_error(v.1) == has_invalid(value_tokens(v, s)),
    decreases v,
{
    match v.1 {
        ValueView::Object(o) => {
            let behind_left = tail(s, o.left_brace.spec_width());
            let left = slot_tokens(o.left_brace.0 as nat, TokenKind::LeftBrace, 1, s);
            let middle = pairs_tokens(o.pairs, behind_left);
            let right = slot_tokens(
                o.right_brace.0 as nat,
                TokenKind::RightBrace,
                1,
                tail(behind_left, pairs_width(o.pairs)),
            );
            lemma_pairs_error_locality(o.pairs, behind_left);
            lemma_has_invalid_concat(left, middle);
            lemma_has_invalid_concat(left + middle, right);
        },
        ValueView::Array(a) => {
            let behind_left = tail(s, a.left_bracket.spec_width());
            let left = slot_tokens(a.left_bracket.0 as nat, TokenKind::LeftBracket, 1, s);
            let middle = items_tokens(a.values, behind_left);
            let right = slot_tokens(
                a.right_bracket.0 as nat,
                TokenKind::RightBracket,
                1,
                tail(behind_left, items_width(a.values)),
            );
            lemma_items_error_locality(a.values, behind_left);
            lemma_has_invalid_concat(left, middle);
            lemma_has_invalid_concat(left + middle, right);
        },
        ValueView::Invalid(_) => {
            assert(value_tokens(v, s)[0].0 == TokenKind::Invalid);
        },
        _ => {},
    }
}

/// Error locality for a value with the trivia before it.
pub proof fn lemma_value_slot_error_locality(v: Offset<Node<ValueView>>, s: Seq<char>)
    ensures
        value_has_error(v.1.1) == has_invalid(value_slot_tokens(v, s)),
    decreases v,
{
    lemma_error_locality(v.1, tail(s, v.0 as nat));
    lemma_has_invalid_concat(trivia_tokens(v.0 as nat, s), value_tokens(v.1, tail(s, v.0 as nat)));
}

/// Error locality for the items of an array.
pub proof fn lemma_items_error_locality(items: Seq<ItemView>, s: Seq<char>)
    ensures
        has_invalid(items_tokens(items, s)) == items_have_error(items),
    decreases items,
{
    if items.len() > 0 {
        let first = items[0];
        let more = items.drop_first();
        let behind = tail(s, first.spec_width());
        let behind_value = tail(s, first.item.spec_width());
        lemma_value_slot_error_locality(first.item, s);
        lemma_has_invalid_concat(
            value_slot_tokens(first.item, s),
            comma_tokens(first.comma, behind_value),
        );
        lemma_items_error_locality(more, behind);
        lemma_has_invalid_concat(item_tokens(first, s), items_tokens(more, behind));
    }
}

/// Error locality for the pairs of an object.
pub proof fn lemma_pairs_error_locality(pairs: Seq<PairView>, s: Seq<char>)
    ensures
        has_invalid(pairs_tokens(pairs, s)) == pairs_have_error(pairs),
    decreases pairs,
{
    if pairs.len() > 0 {
        let first = pairs[0];
        let more = pairs.drop_first();
        let behind = tail(s, first.spec_width());
        let behind_key = tail(s, first.key.spec_width());
        let behind_colon = tail(behind_key, first.colon.spec_width());
        let behind_value = tail(behind_colon, first.value.spec_width());
        let key = slot_tokens(first.key.0 as nat, TokenKind::String, first.key.1.0 as nat, s);
        let colon = slot_tokens(first.colon.0 as nat, TokenKind::Colon, 1, behind_key);
        let value = value_slot_tokens(first.value, behind_colon);
        let comma = comma_tokens(first.comma, behind_value);
        lemma_value_slot_error_locality(first.value, behind_colon);
        lemma_has_invalid_concat(key + colon, value);
        lemma_has_invalid_concat(key + colon + value, comma);
        lemma_pairs_error_locality(more, behind);
        lemma_has_invalid_concat(pair_tokens(first, s), pairs_tokens(more, behind));
    }
}

/// The texts of `tokens`, kinds dropped.
pub open spec fn texts(tokens: Seq<Token>) -> Seq<Seq<char>> {
    Seq::new(tokens.len(), |i: int| tokens[i].1)
}

/// The texts `parts`, one behind the other.
pub open spec fn concat(parts: Seq<Seq<char>>) -> Seq<char>
    decreases parts.len(),
{
    if parts.len() == 0 {
        Seq::empty()
    } else {
        parts[0] + concat(parts.drop_first())
    }
}

/// Joining the texts of tokens gives the text of the tokens.
pub proof fn lemma_concat_texts(tokens: Seq<Token>)
    ensures
        concat(texts(tokens)) == text_of(tokens),
    decreases tokens.len(),
{
    if tokens.len() > 0 {
        assert(texts(tokens).drop_first() =~= texts(tokens.drop_first()));
        lemma_concat_texts(tokens.drop_first());
    }
}

/// What lies behind the value fits the text there, and reaches its end.
pub proof fn lemma_trailing_fits(s: Seq<char>)
    requires
        text_width(s) <= usize::MAX,
    ensures
        slot_fits(s, spec_trailing(s).0 as nat, spec_trailing(s).1.spec_width()),
        spec_trailing(s).spec_width() == text_width(s),
{
    lemma_trivia_fits(s);
    lemma_cut_ends(after_trivia(s));
}

/// Round trip: the tokens of a parsed text, one behind the other, are the
/// text. This holds whether or not the text has errors.
pub proof fn lemma_round_trip(s: Seq<char>)
    requires
        text_width(s) <= usize::MAX,
    ensures
        text_of(spec_parse(s).tokens()) == s,
        concat(texts(spec_parse(s).tokens())) == s,
        spec_parse(s).dom.spec_width() + spec_parse(s).trailing.spec_width() == text_width(s),
{
    let p = spec_parse(s);
    let behind = tail(s, p.dom.spec_width());
    lemma_value_slot_fits(s, MAX_DEPTH as nat);
    lemma_cut_bound(s, p.dom.spec_width());
    lemma_trailing_fits(behind);
    lemma_value_slot_round_trip(p.dom, s);
    match p.trailing.1 {
        Some(n) => {
            lemma_slot_round_trip(p.trailing.0 as nat, TokenKind::Invalid, n.0 as nat, behind);
        },
        None => {
            lemma_trivia_round_trip(p.trailing.0 as nat, behind);
        },
    }
    lemma_text_of_concat(value_slot_tokens(p.dom, s), trailing_tokens(p.trailing, behind));
    lemma_cut_ends(behind);
    lemma_cut_twice(s, p.dom.spec_width(), text_width(behind));
    lemma_cut_ends(s);
    lemma_concat_texts(p.tokens());
}

/// Error locality for a whole text: it has an error just where one of its
/// tokens is of the kind `Invalid`.
pub proof fn lemma_errors_are_tokens(s: Seq<char>)
    ensures
        spec_parse(s).has_error() == has_invalid(spec_parse(s).tokens()),
{
    let p = spec_parse(s);
    let behind = tail(s, p.dom.spec_width());
    lemma_value_slot_error_locality(p.dom, s);
    lemma_has_invalid_concat(value_slot_tokens(p.dom, s), trailing_tokens(p.trailing, behind));
    match p.trailing.1 {
        Some(n) => {
            let t = slot_tokens(p.trailing.0 as nat, TokenKind::Invalid, n.0 as nat, behind);
            assert(t[t.len() - 1].0 == TokenKind::Invalid);
        },
        None => {},
    }
}

/// Separator enforcement: in the items that the array rule accepts, a
/// comma follows every item but the last.
pub proof fn lemma_items_separated(s: Seq<char>, separated: bool, depth: nat)
    ensures
        spec_items(s, separated, depth) matches Ok((items, _)) ==> {
            &&& items.len() > 0 ==> separated
            &&& forall|i: int| 0 <= i < items.len() - 1 ==> (#[trigger] items[i]).comma.1 is Some
        },
    decreases s.len(),
{
    if let Ok((items, _)) = spec_items(s, separated, depth) {
        if items.len() > 0 {
            let item = items[0];
            let rest = tail(s, item.spec_width());
            lemma_items_separated(rest, item.comma.1 is Some, depth);
            assert forall|i: int| 0 <= i < items.len() - 1 implies (#[trigger] items[i]).comma.1
                is Some by {}
        }
    }
}

/// Separator enforcement for a whole array.
pub proof fn lemma_array_separated(s: Seq<char>, depth: nat)
    ensures
        spec_array(s, depth) matches Ok(n) ==> forall|i: int|
            0 <= i < n.1.values.len() - 1 ==> (#[trigger] n.1.values[i]).comma.1 is Some,
{
    if let Ok(n) = spec_array(s, depth) {
        let left = n.1.left_bracket;
        lemma_items_separated(tail(s, left.spec_width()), true, (depth - 1) as nat);
    }
}

} // verus!
