//! Sets of characters below U+0040, one bit each.

use vstd::prelude::*;

verus! {

/// A set of characters, all of them below U+0040.
#[derive(Clone, Copy, Debug)]
pub struct SmallCharSet {
    bits: u64,
}

/// Is the bit `n` of `bits` set?
pub closed spec fn has_bit(bits: u64, n: u32) -> bool {
    (bits >> n) & 1 == 1
}

/// Setting the bit of `c` adds `c` to the members, and nothing else.
proof fn lemma_set_bit(bits: u64, c: char, d: char)
    requires
        (c as u32) < 64,
    ensures
        ((d as u32) < 64 && has_bit(bits | (1u64 << (c as u32)), d as u32)) <==> (((d as u32) < 64
            && has_bit(bits, d as u32)) || d == c),
{
    let n = c as u32;
    let k = d as u32;
    if k < 64 {
        assert((((bits | (1u64 << n)) >> k) & 1 == 1) <==> ((bits >> k) & 1 == 1 || k == n))
            by (bit_vector)
            requires
                n < 64,
                k < 64,
        ;
    }
}

impl View for SmallCharSet {
    type V = Set<char>;

    closed spec fn view(&self) -> Set<char> {
        Set::new(|c: char| (c as u32) < 64 && has_bit(self.bits, c as u32))
    }
}

impl SmallCharSet {
    /// The set without members.
    pub fn empty() -> (r: SmallCharSet)
        ensures
            r@ == Set::<char>::empty(),
    {
        let r = SmallCharSet { bits: 0 };
        proof {
            assert forall|c: char| !r@.contains(c) by {
                let n = c as u32;
                assert((0u64 >> n) & 1 == 0) by (bit_vector);
            }
            assert(r@ =~= Set::<char>::empty());
        }
        r
    }

    /// This set with `c` added.
    pub fn with(self, c: char) -> (r: SmallCharSet)
        requires
            (c as u32) < 64,
        ensures
            r@ == self@.insert(c),
    {
        let n: u32 = c as u32;
        let r = SmallCharSet { bits: self.bits | (1u64 << n) };
        proof {
            assert forall|d: char| #[trigger] r@.contains(d) == (self@.contains(d) || d == c) by {
                lemma_set_bit(self.bits, c, d);
            }
            assert(r@ =~= self@.insert(c));
        }
        r
    }

    /// Is `c` in the set?
    pub fn contains(&self, c: char) -> (r: bool)
        ensures
            r == self@.contains(c),
    {
        let n: u32 = c as u32;
        n < 64 && (self.bits >> n) & 1 == 1
    }
}

} // verus!
