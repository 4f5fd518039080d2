//! Interned strings.

use vstd::prelude::*;
use crate::util::str::same_text;

verus! {

/// Interned string.
///
/// A text that is part of the program can be kept as `Static`, without a copy. The
/// atoms that `from_slice` makes are `Owned`: they hold a copy of the text. The text
/// alone decides every comparison, whichever of the two an atom is.
#[derive(Debug)]
pub enum Atom {
    Static(&'static str),
    Owned(String),
}

impl View for Atom {
    type V = Seq<char>;

    open spec fn view(&self) -> Seq<char> {
        match *self {
            Atom::Static(r) => r@,
            Atom::Owned(s) => s@,
        }
    }
}

impl Atom {
    /// The atom of a text.
    pub fn from_slice(s: &str) -> (r: Atom)
        ensures
            r@ == s@,
    {
        Atom::Owned(s.to_string())
    }

    /// The text of the atom.
    pub fn as_slice(&self) -> (r: &str)
        ensures
            r@ == self@,
    {
        match self {
            Atom::Static(r) => r,
            Atom::Owned(s) => s.as_str(),
        }
    }
}

impl Clone for Atom {
    fn clone(&self) -> (r: Atom)
        ensures
            r@ == self@,
    {
        match self {
            Atom::Static(r) => Atom::Static(r),
            Atom::Owned(s) => Atom::Owned(s.clone()),
        }
    }
}

impl PartialEq for Atom {
    fn eq(&self, other: &Atom) -> (r: bool) {
        same_text(self.as_slice(), other.as_slice())
    }
}

impl vstd::std_specs::cmp::PartialEqSpecImpl for Atom {
    open spec fn obeys_eq_spec() -> bool {
        true
    }

    open spec fn eq_spec(&self, other: &Atom) -> bool {
        self@ == other@
    }
}

impl Eq for Atom {

}

} // verus!
