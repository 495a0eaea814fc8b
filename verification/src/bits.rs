//! Deletion-tracking bitmap: a bit-addressable vector from the `bitvec`
//! crate, holding one tombstone bit per point offset.
//!
//! The bit vector is held in an opaque wrapper: Verus cannot declare the
//! crate's `BitVec` type itself, whose bounds name its `BitStore` and
//! `BitOrder` traits.  `bits_of` names the held bits, and the small trusted
//! wrappers below state what each call of the crate does to them, as its
//! source shows.

use vstd::prelude::*;

verus! {

/// The tracking bitmap as the adapters hold it: one bit per point offset.
#[verifier::external_body]
#[derive(Debug)]
pub struct TrackingBits {
    inner: bitvec::vec::BitVec<usize, bitvec::order::Lsb0>,
}

/// The bits held by a tracking bitmap, in index order.
pub uninterp spec fn bits_of(v: &TrackingBits) -> Seq<bool>;

impl TrackingBits {
    /// Relies on BitVec::new: a fresh bit vector holds no bits.
    #[verifier::external_body]
    pub fn new() -> (r: TrackingBits)
        ensures
            bits_of(&r) == Seq::<bool>::empty(),
    {
        TrackingBits { inner: bitvec::vec::BitVec::new() }
    }

    /// Relies on BitVec::len: the number of bits held.
    #[verifier::external_body]
    pub fn len(&self) -> (r: usize)
        ensures
            r == bits_of(self).len(),
    {
        self.inner.len()
    }

    /// Relies on BitSlice::get: the bit at `i`, which is in range.
    #[verifier::external_body]
    pub fn get(&self, i: usize) -> (r: bool)
        requires
            i < bits_of(self).len(),
        ensures
            r == bits_of(self)[i as int],
    {
        match self.inner.get(i) {
            Some(b) => *b,
            None => false,
        }
    }

    /// Relies on BitSlice::set: writes the bit at `i`, which is in range.
    #[verifier::external_body]
    pub fn set(&mut self, i: usize, b: bool)
        requires
            i < bits_of(old(self)).len(),
        ensures
            bits_of(final(self)) == bits_of(old(self)).update(i as int, b),
    {
        self.inner.set(i, b);
    }

    /// Relies on BitVec::resize: truncates, or grows with copies of `b`.
    /// The new length stays under the bit-capacity the crate encodes in a
    /// word.
    #[verifier::external_body]
    pub fn resize(&mut self, n: usize, b: bool)
        requires
            n <= usize::MAX / 8,
        ensures
            bits_of(final(self)) == if n <= bits_of(old(self)).len() {
                bits_of(old(self)).take(n as int)
            } else {
                bits_of(old(self)) + Seq::new(
                    (n - bits_of(old(self)).len()) as nat,
                    |j: int| b,
                )
            },
    {
        self.inner.resize(n, b);
    }
}

/// How many bits of a tracking sequence are set.
pub open spec fn count_true(s: Seq<bool>) -> nat
    decreases s.len(),
{
    if s.len() == 0 {
        0
    } else {
        count_true(s.drop_last()) + (if s.last() {
            1nat
        } else {
            0nat
        })
    }
}

} // verus!
