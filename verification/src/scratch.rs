//! Caller-supplied temporary storage, used only when a payload cannot be
//! returned as a zero-copy view of the input: a growable buffer, a bounded
//! buffer for decoding without unbounded allocation, and a zero-capacity
//! buffer that turns any attempt to copy into a hard failure.

use vstd::prelude::*;

use crate::error::Error;

verus! {

broadcast use vstd::array::group_array_axioms;

/// A resizable byte buffer. Its capacity is decided once and for all:
/// what fits does not depend on the bytes currently held, shrinking is
/// always possible, and a failed resize leaves the contents untouched.
pub trait Scratch: Sized {
    /// The bytes the buffer currently holds.
    spec fn data(&self) -> Seq<u8>;

    /// Whether the buffer can be resized to hold `n` bytes.
    spec fn fits(&self, n: nat) -> bool;

    /// Capacity is monotone and never rules out emptiness.
    proof fn fits_properties(&self)
        ensures
            self.fits(0),
            forall|m: nat, n: nat|
                #![trigger self.fits(m), self.fits(n)]
                (n <= m && self.fits(m)) ==> self.fits(n),
    ;

    /// Sets the length to exactly `new_len`, keeping the common prefix and
    /// zero-filling on growth; fails, leaving the buffer unchanged, exactly
    /// when `new_len` exceeds the capacity.
    fn resize(&mut self, new_len: usize) -> (r: Result<(), Error>)
        ensures
            forall|n: nat| final(self).fits(n) == old(self).fits(n),
            match r {
                Ok(()) => old(self).fits(new_len as nat) && final(self).data().len() == new_len
                    && (forall|i: int|
                    0 <= i < new_len && i < old(self).data().len() ==> final(self).data()[i] == old(self).data()[i]) && (forall|i: int|
                    old(self).data().len() <= i < new_len ==> final(self).data()[i] == 0u8),
                Err(e) => e == Error::ScratchBufferTooSmall && !old(self).fits(new_len as nat)
                    && final(self).data() == old(self).data(),
            },
    ;

    /// Empties the buffer; emptying always succeeds.
    fn clear(&mut self)
        ensures
            forall|n: nat| final(self).fits(n) == old(self).fits(n),
            final(self).data() == Seq::<u8>::empty(),
    ;

    /// The buffer's bytes, for reading.
    fn as_slice(&self) -> (r: &[u8])
        ensures
            r@ == self.data(),
    ;

    /// The buffer's bytes, for filling in place.
    fn as_mut_slice(&mut self) -> (r: &mut [u8])
        ensures
            r@ == old(self).data(),
            final(self).data() == final(r)@,
            forall|n: nat| final(self).fits(n) == old(self).fits(n),
    ;

    /// How many bytes the buffer currently holds.
    fn len(&self) -> (n: usize)
        ensures
            n == self.data().len(),
    ;
}

/// The growable heap buffer: everything fits.
impl Scratch for Vec<u8> {
    open spec fn data(&self) -> Seq<u8> {
        self@
    }

    open spec fn fits(&self, n: nat) -> bool {
        true
    }

    proof fn fits_properties(&self) {
    }

    fn resize(&mut self, new_len: usize) -> (r: Result<(), Error>) {
        Vec::resize(self, new_len, 0u8);
        Ok(())
    }

    fn clear(&mut self) {
        Vec::clear(self);
    }

    fn as_slice(&self) -> (r: &[u8]) {
        Vec::as_slice(self)
    }

    fn as_mut_slice(&mut self) -> (r: &mut [u8]) {
        Vec::as_mut_slice(self)
    }

    fn len(&self) -> (n: usize) {
        Vec::len(self)
    }
}

/// A bounded buffer: holds at most `limit` bytes, for decoding in a fixed
/// memory budget; any resize past the limit fails.
pub struct FixedScratch {
    bytes: Vec<u8>,
    limit: usize,
}

impl FixedScratch {
    /// An empty buffer that will never hold more than `limit` bytes.
    pub fn new(limit: usize) -> (s: FixedScratch)
        ensures
            s.data() == Seq::<u8>::empty(),
            forall|n: nat| s.fits(n) == (n <= limit),
    {
        FixedScratch { bytes: Vec::new(), limit }
    }
}

impl Scratch for FixedScratch {
    closed spec fn data(&self) -> Seq<u8> {
        self.bytes@
    }

    closed spec fn fits(&self, n: nat) -> bool {
        n <= self.limit
    }

    proof fn fits_properties(&self) {
    }

    fn resize(&mut self, new_len: usize) -> (r: Result<(), Error>) {
        if new_len <= self.limit {
            Vec::resize(&mut self.bytes, new_len, 0u8);
            Ok(())
        } else {
            Err(Error::ScratchBufferTooSmall)
        }
    }

    fn clear(&mut self) {
        Vec::clear(&mut self.bytes);
    }

    fn as_slice(&self) -> (r: &[u8]) {
        Vec::as_slice(&self.bytes)
    }

    fn as_mut_slice(&mut self) -> (r: &mut [u8]) {
        Vec::as_mut_slice(&mut self.bytes)
    }

    fn len(&self) -> (n: usize) {
        Vec::len(&self.bytes)
    }
}

/// The zero-capacity buffer: it forbids all copying, so a decode that
/// would need the scratch fails instead. It turns "this decode must be
/// zero-copy" into a checked assertion.
pub struct NullScratch([u8; 0]);

impl NullScratch {
    /// The one value of the zero-capacity buffer.
    pub fn new() -> (s: NullScratch)
        ensures
            s.data() == Seq::<u8>::empty(),
            forall|n: nat| s.fits(n) == (n == 0),
    {
        let s = NullScratch([0u8; 0]);
        proof {
            assert(s.data() =~= Seq::<u8>::empty());
        }
        s
    }
}

impl Scratch for NullScratch {
    closed spec fn data(&self) -> Seq<u8> {
        self.0@
    }

    closed spec fn fits(&self, n: nat) -> bool {
        n == 0
    }

    proof fn fits_properties(&self) {
    }

    fn resize(&mut self, new_len: usize) -> (r: Result<(), Error>) {
        if new_len == 0 {
            Ok(())
        } else {
            Err(Error::ScratchBufferTooSmall)
        }
    }

    fn clear(&mut self) {
        proof {
            assert(self.data() =~= Seq::<u8>::empty());
        }
    }

    fn as_slice(&self) -> (r: &[u8]) {
        self.0.as_slice()
    }

    fn as_mut_slice(&mut self) -> (r: &mut [u8]) {
        vstd::array::ref_mut_array_unsizing_coercion(&mut self.0)
    }

    fn len(&self) -> (n: usize) {
        0
    }
}

} // verus!
