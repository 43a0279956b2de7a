//! Approval bitfields, stored in `bitvec` bit-vectors.
//!
//! The import logic only ever creates zeroed bitfields and reads their
//! length, so the contents of a bitfield are modelled by the spec function
//! [`bitfield_bits`] and a handful of trusted wrappers around the `bitvec`
//! crate.

use vstd::prelude::*;

verus! {

/// A per-candidate approval bitfield, backed by a `bitvec` bit-vector.
#[verifier::external_body]
pub struct Bitfield {
    inner: bitvec::vec::BitVec<bitvec::order::Lsb0, u8>,
}

/// The bits a bitfield holds, least significant first.
pub uninterp spec fn bitfield_bits(b: Bitfield) -> Seq<bool>;

impl Bitfield {
    /// Relies on bitvec's `BitVec::repeat`: a bit-vector of `len` live
    /// bits, all set to `bit`.
    #[verifier::external_body]
    pub fn repeat(bit: bool, len: usize) -> (r: Bitfield)
        ensures
            bitfield_bits(r) == Seq::new(len as nat, |i: int| bit),
    {
        Bitfield { inner: bitvec::vec::BitVec::repeat(bit, len) }
    }

    /// Relies on `BitSlice::len`: the number of live bits.
    #[verifier::external_body]
    pub fn len(&self) -> (r: usize)
        ensures
            r == bitfield_bits(*self).len(),
    {
        self.inner.len()
    }

    /// Relies on `BitSlice`'s `Index<usize>` impl: the bit at `i`.
    #[verifier::external_body]
    pub fn get(&self, i: usize) -> (r: bool)
        requires
            i < bitfield_bits(*self).len(),
        ensures
            r == bitfield_bits(*self)[i as int],
    {
        self.inner[i]
    }
}

impl Clone for Bitfield {
    /// Relies on bitvec's `Clone` impl for `BitVec`: an exact copy.
    #[verifier::external_body]
    fn clone(&self) -> (r: Self)
        ensures
            bitfield_bits(r) == bitfield_bits(*self),
    {
        Bitfield { inner: self.inner.clone() }
    }
}

} // verus!
