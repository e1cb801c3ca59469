//! A read-only window into what is left of the source text.
use vstd::prelude::*;
use vstd::string::*;
use vstd::utf8::*;
use crate::width::{
    head, is_cut, lemma_char_boundary_is_cut, lemma_cut_is_char_boundary,
    lemma_text_width_is_encoded_len, tail, text_width,
};

verus! {

/// A view into source text. A grammar rule reads from the start of its
/// buffer and never changes it; a later rule gets the text behind an
/// earlier one through `offset`.
#[derive(Debug, Clone, Copy)]
pub struct Buffer<'a> {
    pub content: &'a str,
}

impl<'a> View for Buffer<'a> {
    type V = Seq<char>;

    open spec fn view(&self) -> Seq<char> {
        self.content@
    }
}

impl<'a> std::ops::Deref for Buffer<'a> {
    type Target = str;

    fn deref(&self) -> (r: &str)
        ensures
            r@ == self@,
    {
        self.content
    }
}

/// Splits `s` at a cut `n` bytes in.
pub fn split_text<'a>(s: &'a str, n: usize) -> (r: (&'a str, &'a str))
    requires
        is_cut(s@, n as nat),
    ensures
        r.0@ == head(s@, n as nat),
        r.1@ == tail(s@, n as nat),
{
    broadcast use encode_utf8_decode_utf8;

    proof {
        lemma_cut_is_char_boundary(s@, n as nat);
    }
    let r = s.split_at(n);
    assert(decode_utf8(encode_utf8(r.0@)) == r.0@);
    assert(decode_utf8(encode_utf8(r.1@)) == r.1@);
    r
}

/// The number of bytes in `s`.
pub fn text_len(s: &str) -> (n: usize)
    ensures
        n == text_width(s@),
{
    proof {
        lemma_text_width_is_encoded_len(s@);
    }
    s.as_bytes().len()
}

impl<'a> Buffer<'a> {
    /// The text that starts `offset` bytes into this one.
    pub fn offset(&self, offset: usize) -> (r: Buffer<'a>)
        requires
            is_cut(self@, offset as nat),
        ensures
            r@ == tail(self@, offset as nat),
    {
        Buffer { content: split_text(self.content, offset).1 }
    }

    /// The first `len` bytes of this text.
    pub fn cutoff(&self, len: usize) -> (r: Buffer<'a>)
        requires
            is_cut(self@, len as nat),
        ensures
            r@ == head(self@, len as nat),
    {
        Buffer { content: split_text(self.content, len).0 }
    }

    /// Whether `at` bytes into this text is a cut: whether `offset` and
    /// `cutoff` may be called with it.
    pub fn can_cut(&self, at: usize) -> (b: bool)
        ensures
            b == is_cut(self@, at as nat),
    {
        proof {
            if is_cut(self@, at as nat) {
                lemma_cut_is_char_boundary(self@, at as nat);
            }
            if is_char_boundary(encode_utf8(self@), at as int) {
                lemma_char_boundary_is_cut(self@, at as nat);
            }
        }
        self.content.is_char_boundary(at)
    }

    /// The number of bytes in this text.
    pub fn len(&self) -> (n: usize)
        ensures
            n == text_width(self@),
    {
        text_len(self.content)
    }
}

} // verus!
