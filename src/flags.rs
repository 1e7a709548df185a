//! Per-pixel convergence flags, held in a `bitvec` bit-vector.
use vstd::prelude::*;
use bitvec::vec::BitVec;

verus! {

/// A fixed-length sequence of flags, one bit each.
#[verifier::external_body]
pub struct Flags {
    bits: BitVec,
}

/// The flags held, in order.
pub uninterp spec fn flags_of(f: Flags) -> Seq<bool>;

impl Flags {
    /// Relies on `BitVec::repeat`: `len` copies of `bit`.
    #[verifier::external_body]
    pub(crate) fn repeat(bit: bool, len: usize) -> (r: Flags)
        ensures
            flags_of(r) == Seq::new(len as nat, |i: int| bit),
    {
        Flags { bits: BitVec::repeat(bit, len) }
    }

    /// Relies on indexing a `BitSlice` by `usize`: the bit at `i`; it panics
    /// out of bounds.
    #[verifier::external_body]
    pub(crate) fn get(&self, i: usize) -> (r: bool)
        requires
            i < flags_of(*self).len(),
        ensures
            r == flags_of(*self)[i as int],
    {
        self.bits[i]
    }

    /// Relies on `BitSlice::set`: writes the bit at `i`; it panics out of
    /// bounds.
    #[verifier::external_body]
    pub(crate) fn set(&mut self, i: usize, v: bool)
        requires
            i < flags_of(*old(self)).len(),
        ensures
            flags_of(*final(self)) == flags_of(*old(self)).update(i as int, v),
    {
        self.bits.set(i, v)
    }
}

} // verus!
