//! How a tree lies in a text: every width recorded in the tree is a cut of
//! the text that the node was read from.
use vstd::prelude::*;
use crate::grammar::{
    after_trivia, is_digit, is_whitespace, lemma_line_len_bounds, line_len, number_end, spec_array,
    spec_boolean, spec_comma_slot, spec_item, spec_items, spec_number, spec_object, spec_pair,
    spec_pairs, spec_punct_slot, spec_string, spec_value, spec_value_slot, starts_comment,
    string_end, trivia_len, trivia_width, with_trivia,
};

use crate::tokens::{ArrayView, ItemView, Node, ObjectView, Offset, PairView, ValueView};
use crate::tokens::item::items_width;
use crate::tokens::pair::pairs_width;
use crate::width::{
    char_width, chars_within, head, is_cut, lemma_chars_within_bounds, lemma_cut_at_chars,
    lemma_cut_ends, lemma_cut_twice, lemma_text_width_step, lemma_text_width_take, tail,
    text_width, Width,
};

verus! {

/// `t` bytes of trivia and a payload of `w` bytes behind them lie in `s`.
pub open spec fn slot_fits(s: Seq<char>, t: nat, w: nat) -> bool {
    is_cut(s, t) && is_cut(tail(s, t), w)
}

/// The value `v` lies in `s`, from its start.
pub open spec fn value_fits(v: Node<ValueView>, s: Seq<char>) -> bool
    decreases v,
{
    match v.1 {
        ValueView::Object(o) => v.0 == o.spec_width() && object_fits(o, s),
        ValueView::Array(a) => v.0 == a.spec_width() && array_fits(a, s),
        _ => is_cut(s, v.0 as nat),
    }
}

/// The value `v` and the trivia before it lie in `s`.
pub open spec fn value_slot_fits(v: Offset<Node<ValueView>>, s: Seq<char>) -> bool
    decreases v,
{
    is_cut(s, v.0 as nat) && value_fits(v.1, tail(s, v.0 as nat))
}

/// The item `i` lies in `s`: its value, and its comma slot behind the value.
pub open spec fn item_fits(i: ItemView, s: Seq<char>) -> bool
    decreases i,
{
    &&& value_slot_fits(i.item, s)
    &&& slot_fits(tail(s, i.item.spec_width()), i.comma.0 as nat, i.comma.1.spec_width())
}

/// The items lie in `s` one behind the other.
pub open spec fn items_fit(items: Seq<ItemView>, s: Seq<char>) -> bool
    decreases items,
{
    if items.len() == 0 {
        true
    } else {
        &&& item_fits(items[0], s)
        &&& items_fit(items.drop_first(), tail(s, items[0].spec_width()))
    }
}

/// The array `a` lies in `s`: its brackets, and its items between them.
pub open spec fn array_fits(a: ArrayView, s: Seq<char>) -> bool
    decreases a,
{
    let behind_left = tail(s, a.left_bracket.spec_width());
    &&& slot_fits(s, a.left_bracket.0 as nat, 1)
    &&& items_fit(a.values, behind_left)
    &&& slot_fits(tail(behind_left, items_width(a.values)), a.right_bracket.0 as nat, 1)
}

/// The pair `p` lies in `s`: its key, colon, value and comma slot, one
/// behind the other.
pub open spec fn pair_fits(p: PairView, s: Seq<char>) -> bool
    decreases p,
{
    let behind_key = tail(s, p.key.spec_width());
    let behind_colon = tail(behind_key, p.colon.spec_width());
    let behind_value = tail(behind_colon, p.value.spec_width());
    &&& slot_fits(s, p.key.0 as nat, p.key.1.0 as nat)
    &&& slot_fits(behind_key, p.colon.0 as nat, 1)
    &&& value_slot_fits(p.value, behind_colon)
    &&& slot_fits(behind_value, p.comma.0 as nat, p.comma.1.spec_width())
}

/// The pairs lie in `s` one behind the other.
pub open spec fn pairs_fit(pairs: Seq<PairView>, s: Seq<char>) -> bool
    decreases pairs,
{
    if pairs.len() == 0 {
        true
    } else {
        &&& pair_fits(pairs[0], s)
        &&& pairs_fit(pairs.drop_first(), tail(s, pairs[0].spec_width()))
    }
}

/// The object `o` lies in `s`: its braces, and its pairs between them.
pub open spec fn object_fits(o: ObjectView, s: Seq<char>) -> bool
    decreases o,
{
    let behind_left = tail(s, o.left_brace.spec_width());
    &&& slot_fits(s, o.left_brace.0 as nat, 1)
    &&& pairs_fit(o.pairs, behind_left)
    &&& slot_fits(tail(behind_left, pairs_width(o.pairs)), o.right_brace.0 as nat, 1)
}

/// A slot that lies in `s` ends at a cut of `s`.
pub proof fn lemma_slot_cut(s: Seq<char>, t: nat, w: nat)
    requires
        slot_fits(s, t, w),
    ensures
        is_cut(s, t + w),
        head(s, t + w) == head(s, t) + head(tail(s, t), w),
        tail(s, t + w) == tail(tail(s, t), w),
{
    lemma_cut_twice(s, t, w);
}

/// A value that lies in `s` ends at a cut of `s`.
pub proof fn lemma_value_cut(v: Node<ValueView>, s: Seq<char>)
    requires
        value_fits(v, s),
    ensures
        is_cut(s, v.0 as nat),
    decreases v,
{
    match v.1 {
        ValueView::Object(o) => {
            lemma_object_cut(o, s);
        },
        ValueView::Array(a) => {
            lemma_array_cut(a, s);
        },
        _ => {},
    }
}

/// A value with the trivia before it ends at a cut, and what it took is
/// the trivia and the value.
pub proof fn lemma_value_slot_cut(v: Offset<Node<ValueView>>, s: Seq<char>)
    requires
        value_slot_fits(v, s),
    ensures
        is_cut(s, v.spec_width()),
        tail(s, v.spec_width()) == tail(tail(s, v.0 as nat), v.1.0 as nat),
        head(s, v.spec_width()) == head(s, v.0 as nat) + head(tail(s, v.0 as nat), v.1.0 as nat),
    decreases v, 1nat,
{
    lemma_value_cut(v.1, tail(s, v.0 as nat));
    lemma_cut_twice(s, v.0 as nat, v.1.0 as nat);
}

/// An item that lies in `s` ends at a cut of `s`.
pub proof fn lemma_item_cut(i: ItemView, s: Seq<char>)
    requires
        item_fits(i, s),
    ensures
        is_cut(s, i.spec_width()),
    decreases i,
{
    lemma_value_slot_cut(i.item, s);
    let behind = tail(s, i.item.spec_width());
    lemma_slot_cut(behind, i.comma.0 as nat, i.comma.1.spec_width());
    lemma_cut_twice(s, i.item.spec_width(), i.comma.spec_width());
}

/// Items that lie in `s` end at a cut of `s`.
pub proof fn lemma_items_cut(items: Seq<ItemView>, s: Seq<char>)
    requires
        items_fit(items, s),
    ensures
        is_cut(s, items_width(items)),
    decreases items,
{
    if items.len() > 0 {
        lemma_item_cut(items[0], s);
        lemma_items_cut(items.drop_first(), tail(s, items[0].spec_width()));
        lemma_cut_twice(s, items[0].spec_width(), items_width(items.drop_first()));
    }
}

/// An array that lies in `s` ends at a cut of `s`.
pub proof fn lemma_array_cut(a: ArrayView, s: Seq<char>)
    requires
        array_fits(a, s),
    ensures
        is_cut(s, a.spec_width()),
    decreases a,
{
    let behind_left = tail(s, a.left_bracket.spec_width());
    lemma_slot_cut(s, a.left_bracket.0 as nat, 1);
    lemma_items_cut(a.values, behind_left);
    lemma_slot_cut(tail(behind_left, items_width(a.values)), a.right_bracket.0 as nat, 1);
    lemma_cut_twice(behind_left, items_width(a.values), a.right_bracket.spec_width());
    lemma_cut_twice(
        s,
        a.left_bracket.spec_width(),
        items_width(a.values) + a.right_bracket.spec_width(),
    );
}

/// A pair that lies in `s` ends at a cut of `s`.
pub proof fn lemma_pair_cut(p: PairView, s: Seq<char>)
    requires
        pair_fits(p, s),
    ensures
        is_cut(s, p.spec_width()),
    decreases p,
{
    let behind_key = tail(s, p.key.spec_width());
    let behind_colon = tail(behind_key, p.colon.spec_width());
    let behind_value = tail(behind_colon, p.value.spec_width());
    lemma_slot_cut(s, p.key.0 as nat, p.key.1.0 as nat);
    lemma_slot_cut(behind_key, p.colon.0 as nat, 1);
    lemma_value_slot_cut(p.value, behind_colon);
    lemma_slot_cut(behind_value, p.comma.0 as nat, p.comma.1.spec_width());
    lemma_cut_twice(behind_colon, p.value.spec_width(), p.comma.spec_width());
    lemma_cut_twice(behind_key, p.colon.spec_width(), p.value.spec_width() + p.comma.spec_width());
    lemma_cut_twice(
        s,
        p.key.spec_width(),
        p.colon.spec_width() + p.value.spec_width() + p.comma.spec_width(),
    );
}

/// Pairs that lie in `s` end at a cut of `s`.
pub proof fn lemma_pairs_cut(pairs: Seq<PairView>, s: Seq<char>)
    requires
        pairs_fit(pairs, s),
    ensures
        is_cut(s, pairs_width(pairs)),
    decreases pairs,
{
    if pairs.len() > 0 {
        lemma_pair_cut(pairs[0], s);
        lemma_pairs_cut(pairs.drop_first(), tail(s, pairs[0].spec_width()));
        lemma_cut_twice(s, pairs[0].spec_width(), pairs_width(pairs.drop_first()));
    }
}

/// An object that lies in `s` ends at a cut of `s`.
pub proof fn lemma_object_cut(o: ObjectView, s: Seq<char>)
    requires
        object_fits(o, s),
    ensures
        is_cut(s, o.spec_width()),
    decreases o,
{
    let behind_left = tail(s, o.left_brace.spec_width());
    lemma_slot_cut(s, o.left_brace.0 as nat, 1);
    lemma_pairs_cut(o.pairs, behind_left);
    lemma_slot_cut(tail(behind_left, pairs_width(o.pairs)), o.right_brace.0 as nat, 1);
    lemma_cut_twice(behind_left, pairs_width(o.pairs), o.right_brace.spec_width());
    lemma_cut_twice(
        s,
        o.left_brace.spec_width(),
        pairs_width(o.pairs) + o.right_brace.spec_width(),
    );
}

/// A cut lies within the text, and what is left behind it is no wider.
pub proof fn lemma_cut_bound(s: Seq<char>, w: nat)
    requires
        is_cut(s, w),
    ensures
        w <= text_width(s),
        text_width(tail(s, w)) + w == text_width(s),
        tail(s, w).len() <= s.len(),
{
    lemma_chars_within_bounds(s, w);
    lemma_text_width_take(s, chars_within(s, w) as int);
}

/// Trivia ends within the text, at a cut.
pub proof fn lemma_trivia_fits(s: Seq<char>)
    ensures
        trivia_len(s) <= s.len(),
        is_cut(s, trivia_width(s)),
        head(s, trivia_width(s)) == s.take(trivia_len(s) as int),
        tail(s, trivia_width(s)) == after_trivia(s),
        trivia_width(s) <= text_width(s),
        text_width(after_trivia(s)) + trivia_width(s) == text_width(s),
        trivia_len(s) <= trivia_width(s),
    decreases s.len(),
{
    if s.len() > 0 && is_whitespace(s[0]) {
        lemma_trivia_fits(s.drop_first());
    } else if starts_comment(s) {
        lemma_line_len_bounds(s);
        lemma_trivia_fits(s.skip(line_len(s) as int));
    }
    lemma_cut_at_chars(s, trivia_len(s) as int);
    lemma_text_width_take(s, trivia_len(s) as int);
}

/// A rule behind trivia fits where the rule alone fits behind the trivia.
pub proof fn lemma_with_trivia_fits(s: Seq<char>, w: nat)
    requires
        is_cut(after_trivia(s), w),
    ensures
        slot_fits(s, trivia_width(s), w),
        is_cut(s, trivia_width(s) + w),
        tail(s, trivia_width(s) + w) == tail(after_trivia(s), w),
        w <= text_width(after_trivia(s)),
        trivia_width(s) + w <= text_width(s),
        s.len() > 0 && (after_trivia(s).len() > 0 ==> w > 0) ==> trivia_width(s) + w > 0,
{
    lemma_trivia_fits(s);
    lemma_cut_twice(s, trivia_width(s), w);
    lemma_cut_bound(after_trivia(s), w);
}

/// A string literal ends behind where it starts, within the text.
pub proof fn lemma_string_end_bounds(s: Seq<char>, i: int)
    requires
        0 <= i,
    ensures
        string_end(s, i) matches Some(end) ==> i < end <= s.len(),
    decreases s.len() - i,
{
    if i < s.len() {
        if s[i] == '\\' {
            if i + 1 < s.len() {
                lemma_string_end_bounds(s, i + 2);
            }
        } else if s[i] != '"' {
            lemma_string_end_bounds(s, i + 1);
        }
    }
}

/// A number ends no earlier than where the scan stands, within the text.
pub proof fn lemma_number_end_bounds(s: Seq<char>, i: int, dot: bool)
    requires
        0 <= i <= s.len(),
    ensures
        number_end(s, i, dot) matches Some(end) ==> i <= end <= s.len(),
    decreases s.len() - i,
{
    if i < s.len() {
        if s[i] == '.' {
            if !dot {
                lemma_number_end_bounds(s, i + 1, true);
            }
        } else if is_digit(s[i]) {
            lemma_number_end_bounds(s, i + 1, dot);
        }
    }
}

/// A string that the string rule accepts ends at a cut, two bytes in or more.
pub proof fn lemma_string_fits(s: Seq<char>)
    ensures
        spec_string(s) matches Ok(n) ==> text_width(s) <= usize::MAX ==> is_cut(s, n.0 as nat)
            && n.0 >= 2,
{
    if let Ok(n) = spec_string(s) {
        let end = string_end(s, 1)->0;
        lemma_string_end_bounds(s, 1);
        lemma_cut_at_chars(s, end);
        lemma_text_width_take(s, end);
    }
}

/// A number that the number rule accepts ends at a cut, one byte in or more.
pub proof fn lemma_number_fits(s: Seq<char>)
    ensures
        spec_number(s) matches Ok(n) ==> text_width(s) <= usize::MAX ==> is_cut(s, n.0 as nat)
            && n.0 >= 1,
{
    if let Ok(n) = spec_number(s) {
        let end = number_end(s, 1, false)->0;
        lemma_number_end_bounds(s, 1, false);
        lemma_cut_at_chars(s, end);
        lemma_text_width_take(s, end);
    }
}

/// A boolean that the boolean rule accepts ends at a cut, four bytes in or five.
pub proof fn lemma_boolean_fits(s: Seq<char>)
    ensures
        spec_boolean(s) matches Ok(n) ==> is_cut(s, n.0 as nat) && n.0 >= 4,
{
    if let Ok(n) = spec_boolean(s) {
        let word = if n.0 == 4 {
            seq!['t', 'r', 'u', 'e']
        } else {
            seq!['f', 'a', 'l', 's', 'e']
        };
        reveal_with_fuel(text_width, 6);
        lemma_cut_at_chars(s, word.len() as int);
    }
}

/// Punctuation behind trivia fits.
pub proof fn lemma_punct_slot_fits<T>(s: Seq<char>, c: char, token: T)
    requires
        char_width(c) == 1,
    ensures
        spec_punct_slot(s, c, token) matches Ok(p) ==> text_width(s) <= usize::MAX ==> {
            &&& slot_fits(s, p.0 as nat, 1)
            &&& is_cut(s, (p.0 + 1) as nat)
            &&& p.0 == trivia_width(s)
            &&& p.1 == token
            &&& tail(s, (p.0 + 1) as nat) == tail(after_trivia(s), 1)
            &&& p.0 + 1 <= text_width(s)
        },
{
    if let Ok(p) = spec_punct_slot(s, c, token) {
        if text_width(s) <= usize::MAX {
            let r = after_trivia(s);
            lemma_cut_at_chars(r, 1);
            lemma_text_width_step(r, 0);
            lemma_with_trivia_fits(s, 1);
        }
    }
}

/// The comma slot fits.
pub proof fn lemma_comma_slot_fits(s: Seq<char>)
    requires
        text_width(s) <= usize::MAX,
    ensures
        slot_fits(s, spec_comma_slot(s).0 as nat, spec_comma_slot(s).1.spec_width()),
        is_cut(s, spec_comma_slot(s).spec_width()),
        spec_comma_slot(s).spec_width() <= text_width(s),
        spec_comma_slot(s).0 == trivia_width(s),
{
    let r = after_trivia(s);
    lemma_trivia_fits(s);
    if spec_comma_slot(s).1 is Some {
        lemma_cut_at_chars(r, 1);
        lemma_text_width_step(r, 0);
        lemma_with_trivia_fits(s, 1);
    }
}

/// What value dispatch builds lies in the text it read, and takes at least
/// one byte of a text that is not empty.
pub proof fn lemma_value_fits(s: Seq<char>, depth: nat)
    requires
        text_width(s) <= usize::MAX,
    ensures
        value_fits(spec_value(s, depth), s),
        is_cut(s, spec_value(s, depth).0 as nat),
        s.len() > 0 ==> spec_value(s, depth).0 > 0,
    decreases depth, 1nat, s.len(),
{
    lemma_cut_ends(s);
    if s.len() == 0 {
        // an empty `Invalid` value
    } else if s[0] == '"' {
        lemma_string_fits(s);
    } else if is_digit(s[0]) {
        lemma_number_fits(s);
    } else if s[0] == 't' || s[0] == 'f' {
        lemma_boolean_fits(s);
    } else if s[0] == '{' {
        lemma_object_fits(s, depth);
    } else if s[0] == '[' {
        lemma_array_fits(s, depth);
    }
    lemma_value_cut(spec_value(s, depth), s);
}

/// What the value rule builds behind trivia lies in the text it read, and
/// takes at least one byte of a text that is not empty.
pub proof fn lemma_value_slot_fits(s: Seq<char>, depth: nat)
    requires
        text_width(s) <= usize::MAX,
    ensures
        value_slot_fits(spec_value_slot(s, depth), s),
        is_cut(s, spec_value_slot(s, depth).spec_width()),
        spec_value_slot(s, depth).0 == trivia_width(s),
        spec_value_slot(s, depth).spec_width() <= text_width(s),
        s.len() > 0 ==> spec_value_slot(s, depth).spec_width() > 0,
    decreases depth, 2nat, s.len(),
{
    lemma_trivia_fits(s);
    lemma_value_fits(after_trivia(s), depth);
    lemma_with_trivia_fits(s, spec_value(after_trivia(s), depth).0 as nat);
}

/// What the item rule builds lies in the text it read, and leaves less of a
/// text that is not empty.
pub proof fn lemma_item_fits(s: Seq<char>, depth: nat)
    requires
        text_width(s) <= usize::MAX,
    ensures
        item_fits(spec_item(s, depth), s),
        is_cut(s, spec_item(s, depth).spec_width()),
        spec_item(s, depth).spec_width() <= text_width(s),
        s.len() > 0 ==> spec_item(s, depth).spec_width() > 0,
        s.len() > 0 ==> tail(s, spec_item(s, depth).spec_width()).len() < s.len(),
    decreases depth, 3nat, s.len(),
{
    lemma_value_slot_fits(s, depth);
    let item = spec_item(s, depth);
    let behind = tail(s, item.item.spec_width());
    lemma_cut_bound(s, item.item.spec_width());
    lemma_comma_slot_fits(behind);
    lemma_item_cut(item, s);
    lemma_progress(s, item.spec_width());
}

/// A cut behind at least one byte leaves less text.
pub proof fn lemma_progress(s: Seq<char>, w: nat)
    requires
        is_cut(s, w),
    ensures
        w > 0 ==> tail(s, w).len() < s.len(),
{
    lemma_chars_within_bounds(s, w);
}

/// The items and the closing bracket that the array rule accepts lie in the
/// text they were read from.
pub proof fn lemma_items_fit(s: Seq<char>, separated: bool, depth: nat)
    requires
        text_width(s) <= usize::MAX,
    ensures
        spec_items(s, separated, depth) matches Ok((items, right)) ==> {
            &&& items_fit(items, s)
            &&& is_cut(s, items_width(items))
            &&& slot_fits(tail(s, items_width(items)), right.0 as nat, 1)
            &&& is_cut(s, items_width(items) + right.spec_width())
        },
    decreases depth, 4nat, s.len(),
{
    if s.len() > 0 {
        match spec_punct_slot(s, ']', crate::tokens::RightBracket) {
            Ok(right) => {
                lemma_punct_slot_fits(s, ']', crate::tokens::RightBracket);
                lemma_cut_ends(s);
            },
            Err(_) => {
                let item = spec_item(s, depth);
                let rest = tail(s, item.spec_width());
                lemma_item_fits(s, depth);
                lemma_cut_bound(s, item.spec_width());
                if separated && rest.len() < s.len() {
                    lemma_items_fit(rest, item.comma.1 is Some, depth);
                    if let Ok((more, right)) = spec_items(rest, item.comma.1 is Some, depth) {
                        let items = seq![item] + more;
                        assert(items.drop_first() =~= more);
                        lemma_cut_twice(s, item.spec_width(), items_width(more));
                        lemma_cut_twice(
                            s,
                            item.spec_width(),
                            items_width(more) + right.spec_width(),
                        );
                    }
                }
            },
        }
    }
}

/// An array that the array rule accepts lies in the text it was read from,
/// and its width is the sum of the widths of its parts.
pub proof fn lemma_array_fits(s: Seq<char>, depth: nat)
    requires
        text_width(s) <= usize::MAX,
    ensures
        spec_array(s, depth) matches Ok(n) ==> {
            &&& n.0 == n.1.spec_width()
            &&& n.0 > 0
            &&& array_fits(n.1, s)
        },
    decreases depth, 0nat, s.len(),
{
    if depth > 0 {
        if let Ok(left) = spec_punct_slot(s, '[', crate::tokens::LeftBracket) {
            lemma_punct_slot_fits(s, '[', crate::tokens::LeftBracket);
            let behind_left = tail(s, left.spec_width());
            lemma_cut_bound(s, left.spec_width());
            lemma_items_fit(behind_left, true, (depth - 1) as nat);
            if let Ok((values, right)) = spec_items(behind_left, true, (depth - 1) as nat) {
                let a = ArrayView { left_bracket: left, values, right_bracket: right };
                lemma_array_cut(a, s);
                lemma_cut_bound(s, a.spec_width());
            }
        }
    }
}

/// A pair that the pair rule accepts lies in the text it was read from, and
/// leaves less of it.
pub proof fn lemma_pair_fits(s: Seq<char>, depth: nat)
    requires
        text_width(s) <= usize::MAX,
    ensures
        spec_pair(s, depth) matches Ok(p) ==> {
            &&& pair_fits(p, s)
            &&& is_cut(s, p.spec_width())
            &&& p.spec_width() <= text_width(s)
            &&& p.spec_width() > 0
            &&& tail(s, p.spec_width()).len() < s.len()
        },
    decreases depth, 3nat, s.len(),
{
    if let Ok(key) = with_trivia(s, spec_string(after_trivia(s))) {
        lemma_trivia_fits(s);
        lemma_string_fits(after_trivia(s));
        lemma_with_trivia_fits(s, key.1.0 as nat);
        let behind_key = tail(s, key.spec_width());
        lemma_cut_bound(s, key.spec_width());
        if let Ok(colon) = spec_punct_slot(behind_key, ':', crate::tokens::Colon) {
            lemma_punct_slot_fits(behind_key, ':', crate::tokens::Colon);
            let behind_colon = tail(behind_key, colon.spec_width());
            lemma_cut_bound(behind_key, colon.spec_width());
            lemma_value_slot_fits(behind_colon, depth);
            let value = spec_value_slot(behind_colon, depth);
            let behind_value = tail(behind_colon, value.spec_width());
            lemma_cut_bound(behind_colon, value.spec_width());
            lemma_comma_slot_fits(behind_value);
            let p = spec_pair(s, depth)->Ok_0;
            lemma_pair_cut(p, s);
            lemma_progress(s, p.spec_width());
        }
    }
}

/// The pairs that the object rule reads lie in the text they were read from.
pub proof fn lemma_pairs_fit(s: Seq<char>, depth: nat)
    requires
        text_width(s) <= usize::MAX,
    ensures
        pairs_fit(spec_pairs(s, depth), s),
        is_cut(s, pairs_width(spec_pairs(s, depth))),
        pairs_width(spec_pairs(s, depth)) <= text_width(s),
    decreases depth, 4nat, s.len(),
{
    if let Ok(pair) = spec_pair(s, depth) {
        lemma_pair_fits(s, depth);
        let rest = tail(s, pair.spec_width());
        lemma_cut_bound(s, pair.spec_width());
        lemma_pairs_fit(rest, depth);
        let more = spec_pairs(rest, depth);
        let pairs = seq![pair] + more;
        assert(pairs.drop_first() =~= more);
        lemma_cut_twice(s, pair.spec_width(), pairs_width(more));
    }
}

/// An object that the object rule accepts lies in the text it was read
/// from, and its width is the sum of the widths of its parts.
pub proof fn lemma_object_fits(s: Seq<char>, depth: nat)
    requires
        text_width(s) <= usize::MAX,
    ensures
        spec_object(s, depth) matches Ok(n) ==> {
            &&& n.0 == n.1.spec_width()
            &&& n.0 > 0
            &&& object_fits(n.1, s)
        },
    decreases depth, 0nat, s.len(),
{
    if depth > 0 {
        if let Ok(left) = spec_punct_slot(s, '{', crate::tokens::LeftBrace) {
            lemma_punct_slot_fits(s, '{', crate::tokens::LeftBrace);
            let behind_left = tail(s, left.spec_width());
            lemma_cut_bound(s, left.spec_width());
            lemma_pairs_fit(behind_left, (depth - 1) as nat);
            let pairs = spec_pairs(behind_left, (depth - 1) as nat);
            let behind_pairs = tail(behind_left, pairs_width(pairs));
            lemma_cut_bound(behind_left, pairs_width(pairs));
            if let Ok(right) = spec_punct_slot(behind_pairs, '}', crate::tokens::RightBrace) {
                lemma_punct_slot_fits(behind_pairs, '}', crate::tokens::RightBrace);
                lemma_object_cut(ObjectView { left_brace: left, pairs, right_brace: right }, s);
            }
        }
    }
}

} // verus!
