//! The namespaces of elements.

use vstd::prelude::*;

verus! {

/// The namespace of an element.
#[derive(Clone, Copy, PartialEq, Eq, Structural, Debug, Hash)]
pub enum Namespace {
    HTML,
    MathML,
    SVG,
}

} // verus!
