//! The grammar: for each rule, the tree that a text parses to.
//!
//! Every rule reads from the start of the text it is given. A rule that
//! follows another reads `tail(s, w)`, the text behind the `w` bytes that
//! the earlier rule took.
use vstd::prelude::*;
use crate::parse::{ErrorKind, ParseError};
use crate::tokens::{
    ArrayView, Boolean, Colon, Comma, Invalid, ItemView, LeftBrace, LeftBracket, Node, Number,
    ObjectView, Offset, PairView, RightBrace, RightBracket, ValueView,
};
use crate::width::{tail, text_width, Width};

verus! {

/// How deep arrays and objects may nest inside the top-level value.
pub const MAX_DEPTH: usize = 128;

/// The characters with the Unicode property `White_Space`.
pub open spec fn is_whitespace(c: char) -> bool {
    let u = c as u32;
    ||| 0x09 <= u <= 0x0D
    ||| u == 0x20
    ||| u == 0x85
    ||| u == 0xA0
    ||| u == 0x1680
    ||| 0x2000 <= u <= 0x200A
    ||| u == 0x2028
    ||| u == 0x2029
    ||| u == 0x202F
    ||| u == 0x205F
    ||| u == 0x3000
}

/// The ASCII digits.
pub open spec fn is_digit(c: char) -> bool {
    '0' <= c <= '9'
}

/// The number of characters through the first line feed of `s`, or all of
/// `s` where it has none.
pub open spec fn line_len(s: Seq<char>) -> nat
    decreases s.len(),
{
    if s.len() == 0 {
        0
    } else if s[0] == '\n' {
        1
    } else {
        1 + line_len(s.drop_first())
    }
}

/// A line ends within the text, and takes at least one character of a text
/// that is not empty.
pub proof fn lemma_line_len_bounds(s: Seq<char>)
    ensures
        line_len(s) <= s.len(),
        s.len() > 0 ==> line_len(s) > 0,
    decreases s.len(),
{
    if s.len() > 0 && s[0] != '\n' {
        lemma_line_len_bounds(s.drop_first());
    }
}

/// `s` starts with a line comment.
pub open spec fn starts_comment(s: Seq<char>) -> bool {
    s.len() >= 2 && s[0] == '/' && s[1] == '/'
}

/// The number of leading characters of `s` that are trivia: whitespace, and
/// comments from `//` through the end of their line.
pub open spec fn trivia_len(s: Seq<char>) -> nat
    decreases s.len(),
{
    if s.len() == 0 {
        0
    } else if is_whitespace(s[0]) {
        1 + trivia_len(s.drop_first())
    } else if starts_comment(s) {
        proof {
            lemma_line_len_bounds(s);
        }
        line_len(s) + trivia_len(s.skip(line_len(s) as int))
    } else {
        0
    }
}

/// The bytes of trivia at the start of `s`.
pub open spec fn trivia_width(s: Seq<char>) -> nat {
    text_width(s.take(trivia_len(s) as int))
}

/// What is left of `s` behind its leading trivia.
pub open spec fn after_trivia(s: Seq<char>) -> Seq<char> {
    s.skip(trivia_len(s) as int)
}

/// The trivia-skipping wrapper: the outcome `r` of a rule on
/// `after_trivia(s)`, with the trivia's width recorded on success.
pub open spec fn with_trivia<T>(s: Seq<char>, r: Result<T, ParseError>) -> Result<
    Offset<T>,
    ParseError,
> {
    match r {
        Ok(v) => Ok(Offset(trivia_width(s) as usize, v)),
        Err(e) => Err(e),
    }
}

/// Single-character punctuation: `token` where `s` starts with `c`.
pub open spec fn spec_punct<T>(s: Seq<char>, c: char, token: T) -> Result<T, ParseError> {
    if s.len() > 0 && s[0] == c {
        Ok(token)
    } else {
        Err(ParseError { kind: ErrorKind::ExpectedChar(c) })
    }
}

/// Punctuation behind trivia.
pub open spec fn spec_punct_slot<T>(s: Seq<char>, c: char, token: T) -> Result<
    Offset<T>,
    ParseError,
> {
    with_trivia(s, spec_punct(after_trivia(s), c, token))
}

/// An optional comma behind trivia. The trivia is recorded either way.
pub open spec fn spec_comma_slot(s: Seq<char>) -> Offset<Option<Comma>> {
    Offset(
        trivia_width(s) as usize,
        match spec_punct(after_trivia(s), ',', Comma) {
            Ok(c) => Some(c),
            Err(_) => None,
        },
    )
}

/// Where the string literal that is being read at index `i` of `s` ends:
/// the index behind its closing quote. A backslash takes the character
/// behind it along, whatever that is.
pub open spec fn string_end(s: Seq<char>, i: int) -> Option<int>
    decreases s.len() - i,
{
    if i < 0 || i >= s.len() {
        None
    } else if s[i] == '\\' {
        if i + 1 < s.len() {
            string_end(s, i + 2)
        } else {
            None
        }
    } else if s[i] == '"' {
        Some(i + 1)
    } else {
        string_end(s, i + 1)
    }
}

/// The string rule.
pub open spec fn spec_string(s: Seq<char>) -> Result<Node<crate::tokens::String>, ParseError> {
    if s.len() == 0 || s[0] != '"' {
        Err(ParseError { kind: ErrorKind::UnexpectedStart })
    } else {
        match string_end(s, 1) {
            Some(end) => Ok(Node(text_width(s.take(end)) as usize, crate::tokens::String)),
            None => Err(ParseError { kind: ErrorKind::UnterminatedLiteral }),
        }
    }
}

/// Where the number that is being read at index `i` of `s` ends: at the
/// first character that is neither a digit nor the one decimal point
/// allowed. `None` where a second decimal point comes first. `dot` says
/// whether a decimal point lies before `i`.
pub open spec fn number_end(s: Seq<char>, i: int, dot: bool) -> Option<int>
    decreases s.len() - i,
{
    if i < 0 || i >= s.len() {
        Some(i)
    } else if s[i] == '.' {
        if dot {
            None
        } else {
            number_end(s, i + 1, true)
        }
    } else if is_digit(s[i]) {
        number_end(s, i + 1, dot)
    } else {
        Some(i)
    }
}

/// The number rule. A leading zero stands alone or before the decimal point.
pub open spec fn spec_number(s: Seq<char>) -> Result<Node<Number>, ParseError> {
    if s.len() == 0 || !is_digit(s[0]) {
        Err(ParseError { kind: ErrorKind::MissingDigit })
    } else {
        match number_end(s, 1, false) {
            None => Err(ParseError { kind: ErrorKind::MultipleDecimalPoints }),
            Some(end) => if s[0] == '0' && end > 1 && s[1] != '.' {
                Err(ParseError { kind: ErrorKind::LeadingZero })
            } else {
                Ok(Node(text_width(s.take(end)) as usize, Number))
            },
        }
    }
}

/// The boolean rule.
pub open spec fn spec_boolean(s: Seq<char>) -> Result<Node<Boolean>, ParseError> {
    if seq!['t', 'r', 'u', 'e'].is_prefix_of(s) {
        Ok(Node(4, Boolean))
    } else if seq!['f', 'a', 'l', 's', 'e'].is_prefix_of(s) {
        Ok(Node(5, Boolean))
    } else {
        Err(ParseError { kind: ErrorKind::InvalidBoolean })
    }
}

/// The value that covers all of `s` and carries the error `e`.
pub open spec fn invalid(s: Seq<char>, e: ParseError) -> Node<ValueView> {
    Node(text_width(s) as usize, ValueView::Invalid(e))
}

/// Value dispatch: the first character picks the rule, and a rule that
/// fails leaves an `Invalid` value that covers all of `s`. `depth` is how
/// many more levels of arrays and objects may open.
pub open spec fn spec_value(s: Seq<char>, depth: nat) -> Node<ValueView>
    decreases depth, 1nat, s.len(),
{
    if s.len() == 0 {
        Node(0, ValueView::Invalid(ParseError { kind: ErrorKind::EmptyInput }))
    } else if s[0] == '"' {
        match spec_string(s) {
            Ok(n) => Node(n.0, ValueView::String(n.1)),
            Err(e) => invalid(s, e),
        }
    } else if is_digit(s[0]) {
        match spec_number(s) {
            Ok(n) => Node(n.0, ValueView::Number(n.1)),
            Err(e) => invalid(s, e),
        }
    } else if s[0] == 't' || s[0] == 'f' {
        match spec_boolean(s) {
            Ok(n) => Node(n.0, ValueView::Boolean(n.1)),
            Err(e) => invalid(s, e),
        }
    } else if s[0] == '{' {
        match spec_object(s, depth) {
            Ok(n) => Node(n.0, ValueView::Object(n.1)),
            Err(e) => invalid(s, e),
        }
    } else if s[0] == '[' {
        match spec_array(s, depth) {
            Ok(n) => Node(n.0, ValueView::Array(n.1)),
            Err(e) => invalid(s, e),
        }
    } else {
        invalid(s, ParseError { kind: ErrorKind::InvalidValue })
    }
}

/// A value behind trivia.
pub open spec fn spec_value_slot(s: Seq<char>, depth: nat) -> Offset<Node<ValueView>>
    decreases depth, 2nat, s.len(),
{
    Offset(trivia_width(s) as usize, spec_value(after_trivia(s), depth))
}

/// The item rule: a value and an optional comma, each behind trivia.
pub open spec fn spec_item(s: Seq<char>, depth: nat) -> ItemView
    decreases depth, 3nat, s.len(),
{
    let item = spec_value_slot(s, depth);
    ItemView { item, comma: spec_comma_slot(tail(s, item.spec_width())) }
}

/// The items of an array and its closing bracket, read from behind the
/// opening bracket or behind an item. `separated` says that no item lies
/// before `s`, or that a comma follows the one that does.
pub open spec fn spec_items(s: Seq<char>, separated: bool, depth: nat) -> Result<
    (Seq<ItemView>, Offset<RightBracket>),
    ParseError,
>
    decreases depth, 4nat, s.len(),
{
    if s.len() == 0 {
        Err(ParseError { kind: ErrorKind::UnterminatedArray })
    } else {
        match spec_punct_slot(s, ']', RightBracket) {
            Ok(right) => Ok((Seq::empty(), right)),
            Err(_) => {
                let item = spec_item(s, depth);
                let rest = tail(s, item.spec_width());
                if !separated {
                    Err(ParseError { kind: ErrorKind::MissingSeparator })
                } else if rest.len() >= s.len() {
                    // An item takes at least one byte: see `lemma_item_fits`.
                    Err(ParseError { kind: ErrorKind::UnterminatedArray })
                } else {
                    match spec_items(rest, item.comma.1 is Some, depth) {
                        Ok((more, right)) => Ok((seq![item] + more, right)),
                        Err(e) => Err(e),
                    }
                }
            },
        }
    }
}

/// The array rule.
pub open spec fn spec_array(s: Seq<char>, depth: nat) -> Result<Node<ArrayView>, ParseError>
    decreases depth, 0nat, s.len(),
{
    if depth == 0 {
        Err(ParseError { kind: ErrorKind::StackDepthExceeded })
    } else {
        match spec_punct_slot(s, '[', LeftBracket) {
            Err(e) => Err(e),
            Ok(left_bracket) => match spec_items(
                tail(s, left_bracket.spec_width()),
                true,
                (depth - 1) as nat,
            ) {
                Err(e) => Err(e),
                Ok((values, right_bracket)) => {
                    let array = ArrayView { left_bracket, values, right_bracket };
                    Ok(Node(array.spec_width() as usize, array))
                },
            },
        }
    }
}

/// The pair rule: a string key, a colon, a value and an optional comma,
/// each behind trivia.
pub open spec fn spec_pair(s: Seq<char>, depth: nat) -> Result<PairView, ParseError>
    decreases depth, 3nat, s.len(),
{
    match with_trivia(s, spec_string(after_trivia(s))) {
        Err(e) => Err(e),
        Ok(key) => {
            let behind_key = tail(s, key.spec_width());
            match spec_punct_slot(behind_key, ':', Colon) {
                Err(e) => Err(e),
                Ok(colon) => {
                    let behind_colon = tail(behind_key, colon.spec_width());
                    let value = spec_value_slot(behind_colon, depth);
                    let behind_value = tail(behind_colon, value.spec_width());
                    Ok(PairView { key, colon, value, comma: spec_comma_slot(behind_value) })
                },
            }
        },
    }
}

/// The pairs of an object: as many as parse one behind the other. No comma
/// is asked for between them.
pub open spec fn spec_pairs(s: Seq<char>, depth: nat) -> Seq<PairView>
    decreases depth, 4nat, s.len(),
{
    match spec_pair(s, depth) {
        Err(_) => Seq::empty(),
        Ok(pair) => {
            let rest = tail(s, pair.spec_width());
            if rest.len() >= s.len() {
                // A pair takes at least two bytes: see `lemma_pair_fits`.
                seq![pair]
            } else {
                seq![pair] + spec_pairs(rest, depth)
            }
        },
    }
}

/// The object rule. Behind the pairs the closing brace is due: where the
/// text ends there, behind trivia at most, the object is unterminated.
pub open spec fn spec_object(s: Seq<char>, depth: nat) -> Result<Node<ObjectView>, ParseError>
    decreases depth, 0nat, s.len(),
{
    if depth == 0 {
        Err(ParseError { kind: ErrorKind::StackDepthExceeded })
    } else {
        match spec_punct_slot(s, '{', LeftBrace) {
            Err(e) => Err(e),
            Ok(left_brace) => {
                let behind_left = tail(s, left_brace.spec_width());
                let pairs = spec_pairs(behind_left, (depth - 1) as nat);
                let behind_pairs = tail(behind_left, crate::tokens::pair::pairs_width(pairs));
                match spec_punct_slot(behind_pairs, '}', RightBrace) {
                    Err(e) => if after_trivia(behind_pairs).len() == 0 {
                        Err(ParseError { kind: ErrorKind::UnterminatedObject })
                    } else {
                        Err(e)
                    },
                    Ok(right_brace) => {
                        let object = ObjectView { left_brace, pairs, right_brace };
                        Ok(Node(object.spec_width() as usize, object))
                    },
                }
            },
        }
    }
}

/// What lies behind the top-level value: trivia, and whatever is left
/// behind that as one `Invalid` node. Text that ends with the value, or with
/// trivia behind it, leaves none.
pub open spec fn spec_trailing(s: Seq<char>) -> Offset<Option<Node<Invalid>>> {
    Offset(
        trivia_width(s) as usize,
        if after_trivia(s).len() == 0 {
            None
        } else {
            Some(
                Node(
                    text_width(after_trivia(s)) as usize,
                    Invalid(ParseError { kind: ErrorKind::TrailingInput }),
                ),
            )
        },
    )
}

} // verus!
