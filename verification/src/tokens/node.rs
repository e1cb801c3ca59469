use vstd::prelude::*;
use crate::width::Width;

verus! {

/// A payload together with the number of source bytes it took, its own
/// leading trivia not counted.
#[derive(Debug, PartialEq, Eq)]
pub struct Node<T>(pub usize, pub T);

impl<T> Width for Node<T> {
    open spec fn spec_width(&self) -> nat {
        self.0 as nat
    }

    fn width(&self) -> (w: usize) {
        self.0
    }
}

impl<T: View> View for Node<T> {
    type V = Node<T::V>;

    open spec fn view(&self) -> Node<T::V> {
        Node(self.0, self.1@)
    }
}

impl<T> std::ops::Deref for Node<T> {
    type Target = T;

    fn deref(&self) -> (r: &T)
        ensures
            *r == self.1,
    {
        &self.1
    }
}

impl<T> Node<T> {
    /// The same span with another payload.
    pub fn map_value<U, F: FnOnce(T) -> U>(self, m: F) -> (r: Node<U>)
        requires
            m.requires((self.1,)),
        ensures
            r.0 == self.0,
            m.ensures((self.1,), r.1),
    {
        Node(self.0, m(self.1))
    }
}

} // verus!
