//! Byte widths of characters and of text, and cutting text at a byte width.
//!
//! Text is modelled as a sequence of characters. Every width in this crate
//! is a number of bytes of the UTF-8 encoding, so that widths add up along a
//! tree and a subtree describes itself wherever it lies in the source.
use vstd::prelude::*;
use vstd::utf8::*;

verus! {

/// Number of bytes that the UTF-8 encoding of `c` takes.
pub open spec fn char_width(c: char) -> nat {
    if (c as u32) < 0x80 {
        1
    } else if (c as u32) < 0x800 {
        2
    } else if (c as u32) < 0x10000 {
        3
    } else {
        4
    }
}

/// Number of bytes that the UTF-8 encoding of `s` takes.
pub open spec fn text_width(s: Seq<char>) -> nat
    decreases s.len(),
{
    if s.len() == 0 {
        0
    } else {
        char_width(s[0]) + text_width(s.drop_first())
    }
}

/// Number of leading characters of `s` that lie wholly within its first `w` bytes.
pub open spec fn chars_within(s: Seq<char>, w: nat) -> nat
    decreases s.len(),
{
    if s.len() == 0 || char_width(s[0]) > w {
        0
    } else {
        1 + chars_within(s.drop_first(), (w - char_width(s[0])) as nat)
    }
}

/// The longest prefix of `s` that takes at most `w` bytes.
pub open spec fn head(s: Seq<char>, w: nat) -> Seq<char> {
    s.take(chars_within(s, w) as int)
}

/// What is left of `s` behind `head(s, w)`.
pub open spec fn tail(s: Seq<char>, w: nat) -> Seq<char> {
    s.skip(chars_within(s, w) as int)
}

/// `w` bytes into `s` is a place between two characters, or either end of `s`.
pub open spec fn is_cut(s: Seq<char>, w: nat) -> bool {
    text_width(head(s, w)) == w
}

/// A trait for everything that reports how many bytes of source it took.
pub trait Width {
    /// The width as a mathematical number, free of machine limits.
    spec fn spec_width(&self) -> nat;

    /// The number of source bytes that `self` took.
    fn width(&self) -> (w: usize)
        requires
            self.spec_width() <= usize::MAX,
        ensures
            w == self.spec_width(),
    ;
}

impl Width for char {
    open spec fn spec_width(&self) -> nat {
        char_width(*self)
    }

    fn width(&self) -> (w: usize)
        ensures
            1 <= w <= 4,
    {
        let u = *self as u32;
        if u < 0x80 {
            1
        } else if u < 0x800 {
            2
        } else if u < 0x10000 {
            3
        } else {
            4
        }
    }
}

impl<T: Width> Width for Option<T> {
    open spec fn spec_width(&self) -> nat {
        match self {
            Some(t) => t.spec_width(),
            None => 0,
        }
    }

    fn width(&self) -> (w: usize) {
        match self {
            Some(t) => t.width(),
            None => 0,
        }
    }
}

/// The width of a character is the length of its UTF-8 encoding.
pub proof fn lemma_char_width_is_encoded_len(c: char)
    ensures
        char_width(c) == encode_scalar(c as u32).len(),
        1 <= char_width(c) <= 4,
{
}

/// The width of a text is the length of its UTF-8 encoding.
pub proof fn lemma_text_width_is_encoded_len(s: Seq<char>)
    ensures
        text_width(s) == encode_utf8(s).len(),
    decreases s.len(),
{
    if s.len() > 0 {
        lemma_text_width_is_encoded_len(s.drop_first());
        lemma_char_width_is_encoded_len(s[0]);
    }
}

/// Encoding distributes over concatenation.
pub proof fn lemma_encode_concat(a: Seq<char>, b: Seq<char>)
    ensures
        encode_utf8(a + b) =~= encode_utf8(a) + encode_utf8(b),
    decreases a.len(),
{
    if a.len() > 0 {
        assert((a + b).drop_first() =~= a.drop_first() + b);
        lemma_encode_concat(a.drop_first(), b);
    }
}

/// Widths add up over concatenation.
pub proof fn lemma_text_width_concat(a: Seq<char>, b: Seq<char>)
    ensures
        text_width(a + b) == text_width(a) + text_width(b),
    decreases a.len(),
{
    if a.len() > 0 {
        assert((a + b).drop_first() =~= a.drop_first() + b);
        lemma_text_width_concat(a.drop_first(), b);
    }
}

/// Taking one more character adds that character's width.
pub proof fn lemma_text_width_step(s: Seq<char>, k: int)
    requires
        0 <= k < s.len(),
    ensures
        text_width(s.take(k + 1)) == text_width(s.take(k)) + char_width(s[k]),
        text_width(s.take(k + 1)) <= text_width(s),
        text_width(s.take(0)) == 0,
{
    let one = seq![s[k]];
    assert(s.take(k + 1) =~= s.take(k) + one);
    lemma_text_width_concat(s.take(k), one);
    assert(text_width(one) == char_width(s[k]) + text_width(one.drop_first()));
    lemma_text_width_take(s, k + 1);
}

/// A prefix is no wider than the whole; together with the rest it is as wide.
pub proof fn lemma_text_width_take(s: Seq<char>, k: int)
    requires
        0 <= k <= s.len(),
    ensures
        text_width(s.take(k)) + text_width(s.skip(k)) == text_width(s),
        text_width(s.take(k)) <= text_width(s),
        k <= text_width(s.take(k)),
{
    assert(s =~= s.take(k) + s.skip(k));
    lemma_text_width_concat(s.take(k), s.skip(k));
    lemma_width_at_least_len(s.take(k));
}

/// Every character takes at least one byte.
pub proof fn lemma_width_at_least_len(s: Seq<char>)
    ensures
        s.len() <= text_width(s),
    decreases s.len(),
{
    if s.len() > 0 {
        lemma_width_at_least_len(s.drop_first());
    }
}

/// The width of the first `k` characters is a cut, and it cuts behind them.
pub proof fn lemma_cut_at_chars(s: Seq<char>, k: int)
    requires
        0 <= k <= s.len(),
    ensures
        chars_within(s, text_width(s.take(k))) == k,
        is_cut(s, text_width(s.take(k))),
        head(s, text_width(s.take(k))) == s.take(k),
        tail(s, text_width(s.take(k))) == s.skip(k),
    decreases k,
{
    if k > 0 {
        let r = s.drop_first();
        assert(s.take(k).drop_first() =~= r.take(k - 1));
        lemma_cut_at_chars(r, k - 1);
    }
}

/// What `chars_within` counts: no more characters than there are, and no
/// more bytes than were allowed.
pub proof fn lemma_chars_within_bounds(s: Seq<char>, w: nat)
    ensures
        chars_within(s, w) <= s.len(),
        text_width(head(s, w)) <= w,
        head(s, w) + tail(s, w) == s,
    decreases s.len(),
{
    if s.len() > 0 && char_width(s[0]) <= w {
        let r = s.drop_first();
        let v = (w - char_width(s[0])) as nat;
        lemma_chars_within_bounds(r, v);
        let k = chars_within(s, w) as int;
        assert(s.take(k).drop_first() =~= r.take(k - 1));
    }
}

/// A cut followed by a cut in what is left is a cut at the sum.
pub proof fn lemma_cut_twice(s: Seq<char>, a: nat, b: nat)
    requires
        is_cut(s, a),
        is_cut(tail(s, a), b),
    ensures
        is_cut(s, a + b),
        head(s, a + b) == head(s, a) + head(tail(s, a), b),
        tail(s, a + b) == tail(tail(s, a), b),
{
    let i = chars_within(s, a) as int;
    let t = tail(s, a);
    let j = chars_within(t, b) as int;
    lemma_chars_within_bounds(s, a);
    lemma_chars_within_bounds(t, b);
    assert(s.take(i + j) =~= s.take(i) + t.take(j));
    lemma_text_width_concat(s.take(i), t.take(j));
    lemma_cut_at_chars(s, i + j);
}

/// Both ends of a text are cuts.
pub proof fn lemma_cut_ends(s: Seq<char>)
    ensures
        is_cut(s, 0),
        head(s, 0) == Seq::<char>::empty(),
        tail(s, 0) == s,
        is_cut(s, text_width(s)),
        head(s, text_width(s)) == s,
        tail(s, text_width(s)) == Seq::<char>::empty(),
{
    lemma_cut_at_chars(s, 0);
    lemma_cut_at_chars(s, s.len() as int);
}

/// A cut of the text is a character boundary of its encoding, and the
/// encoding splits there into the encodings of the two parts.
pub proof fn lemma_cut_is_char_boundary(s: Seq<char>, w: nat)
    requires
        is_cut(s, w),
    ensures
        w <= text_width(s),
        is_char_boundary(encode_utf8(s), w as int),
        encode_utf8(s).subrange(0, w as int) == encode_utf8(head(s, w)),
        encode_utf8(s).subrange(w as int, encode_utf8(s).len() as int) == encode_utf8(tail(s, w)),
    decreases s.len(),
{
    broadcast use encode_utf8_valid_utf8;

    let bytes = encode_utf8(s);
    lemma_chars_within_bounds(s, w);
    lemma_encode_concat(head(s, w), tail(s, w));
    if w > 0 {
        let k = chars_within(s, w) as int;
        let r = s.drop_first();
        let v = (w - char_width(s[0])) as nat;
        assert(s.take(k).drop_first() =~= r.take(k - 1));
        lemma_cut_is_char_boundary(r, v);
        encode_utf8_first_scalar(s);
        assert(pop_first_scalar(bytes) =~= encode_utf8(r));
    }
}

/// A character boundary of the encoding is a cut of the text.
pub proof fn lemma_char_boundary_is_cut(s: Seq<char>, w: nat)
    requires
        is_char_boundary(encode_utf8(s), w as int),
    ensures
        is_cut(s, w),
    decreases s.len(),
{
    broadcast use encode_utf8_valid_utf8;

    let bytes = encode_utf8(s);
    if w > 0 && s.len() > 0 {
        let r = s.drop_first();
        encode_utf8_first_scalar(s);
        assert(pop_first_scalar(bytes) =~= encode_utf8(r));
        let v = w - char_width(s[0]);
        assert(is_char_boundary(encode_utf8(r), v));
        lemma_char_boundary_is_cut(r, v as nat);
        lemma_chars_within_bounds(r, v as nat);
        let k = chars_within(s, w) as int;
        assert(s.take(k).drop_first() =~= r.take(k - 1));
    }
}

} // verus!
