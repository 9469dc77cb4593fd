//! Errors that carry the message shown to the user.

use vstd::prelude::*;

verus! {

/// An error: what kind it is, and the message that explains it.
#[derive(Debug)]
pub struct Error<K> {
    pub kind: K,
    pub message: String,
}

impl<K> View for Error<K> {
    type V = (K, Seq<char>);

    open spec fn view(&self) -> (K, Seq<char>) {
        (self.kind, self.message@)
    }
}

impl<K> Error<K> {
    /// The message.
    pub fn to_string(&self) -> (r: String)
        ensures
            r@ == self.message@,
    {
        self.message.clone()
    }
}

} // verus!
