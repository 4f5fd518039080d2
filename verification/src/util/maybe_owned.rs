//! Text that is either a literal of the program or built at run time.

use vstd::prelude::*;

verus! {

/// A message that is borrowed for the whole run of the program, or owned.
#[derive(Debug)]
pub enum MaybeOwned {
    Slice(&'static str),
    Owned(String),
}

impl View for MaybeOwned {
    type V = Seq<char>;

    open spec fn view(&self) -> Seq<char> {
        match *self {
            MaybeOwned::Slice(s) => s@,
            MaybeOwned::Owned(s) => s@,
        }
    }
}

impl MaybeOwned {
    /// The text, wherever it is kept.
    pub fn as_slice(&self) -> (r: &str)
        ensures
            r@ == self@,
    {
        match self {
            MaybeOwned::Slice(s) => s,
            MaybeOwned::Owned(s) => s.as_str(),
        }
    }
}

} // verus!
