//! Byte sources and payload references. A slice source hands out zero-copy
//! sub-slices of its input; a streaming source must copy every payload into
//! the caller's scratch buffer.

use vstd::prelude::*;
use vstd::slice::{slice_index_get, slice_subrange, SliceAdditionalExecFns};
use vstd::string::StringSliceAdditionalSpecFns;
use vstd::utf8::valid_utf8;

use crate::error::Error;
use crate::scratch::Scratch;

verus! {

/// The result of a payload read: either a zero-copy view of the input, or
/// the marker that the payload was assembled in the caller's scratch buffer
/// and is that buffer's current contents. A copied payload is invalidated
/// the next time the scratch buffer is written.
#[derive(Debug, Copy, Clone)]
pub enum Reference<'b> {
    Borrowed(&'b [u8]),
    Copied,
}

/// Relies on core::str::from_utf8: it accepts exactly the well-formed
/// UTF-8 byte strings, and returns the same bytes viewed as text.
#[verifier::external_body]
pub(crate) fn bytes_as_str(b: &[u8]) -> (r: Result<&str, Error>)
    ensures
        match r {
            Ok(t) => valid_utf8(b@) && t.spec_bytes() == b@,
            Err(e) => !valid_utf8(b@) && e == Error::InvalidUnicodeCodePoint,
        },
{
    match core::str::from_utf8(b) {
        Ok(t) => Ok(t),
        Err(_) => Err(Error::InvalidUnicodeCodePoint),
    }
}

impl<'b> Reference<'b> {
    /// The payload this reference designates, given the bytes the scratch
    /// buffer holds.
    pub open spec fn spec_bytes(self, scratch_data: Seq<u8>) -> Seq<u8> {
        match self {
            Reference::Borrowed(s) => s@,
            Reference::Copied => scratch_data,
        }
    }

    /// The payload as a byte slice, reading a copied payload out of the
    /// scratch buffer that holds it.
    pub fn resolve<'x, S: Scratch>(&self, scratch: &'x S) -> (r: &'x [u8]) where 'b: 'x
        ensures
            r@ == self.spec_bytes(scratch.data()),
    {
        match self {
            Reference::Borrowed(s) => s,
            Reference::Copied => scratch.as_slice(),
        }
    }

    /// The payload as text: UTF-8 well-formedness is checked at this
    /// conversion, and anything else fails.
    pub fn as_str<'x, S: Scratch>(&self, scratch: &'x S) -> (r: Result<&'x str, Error>) where
        'b: 'x,

        ensures
            match r {
                Ok(t) => valid_utf8(self.spec_bytes(scratch.data())) && t.spec_bytes()
                    == self.spec_bytes(scratch.data()),
                Err(e) => !valid_utf8(self.spec_bytes(scratch.data())) && e
                    == Error::InvalidUnicodeCodePoint,
            },
    {
        bytes_as_str(self.resolve(scratch))
    }
}

/// Where bytes come from. An exact source knows the bytes it will deliver
/// (`data()`) and its reads are fully specified over them; a streaming
/// source does not, and only the shapes of its reads are promised.
pub trait Read<'b>: Sized {
    /// Whether the source's remaining bytes are known exactly.
    spec fn exact(&self) -> bool;

    /// The bytes the source has yet to deliver, when it is exact.
    spec fn data(&self) -> Seq<u8>;

    /// The remaining input is addressable.
    proof fn data_bounded(&self)
        ensures
            self.data().len() <= usize::MAX,
    ;

    /// Fills `buf` completely with the next bytes, or fails without
    /// delivering anything usable.
    fn read_exact(&mut self, buf: &mut [u8]) -> (r: Result<(), Error>)
        ensures
            final(self).exact() == old(self).exact(),
            final(buf)@.len() == old(buf)@.len(),
            old(self).exact() ==> match r {
                Ok(()) => old(self).data().len() >= old(buf)@.len()
                    && final(buf)@ == old(self).data().take(old(buf)@.len() as int)
                    && final(self).data() == old(self).data().skip(old(buf)@.len() as int),
                Err(e) => e == Error::Eof
                    && old(self).data().len() < old(buf)@.len()
                    && final(self).data() == old(self).data(),
            },
    ;

    /// Returns the next `length` bytes: a zero-copy view when the source
    /// can give one, else a copy placed in `scratch`, whose previous
    /// contents are lost. An exact source never touches the scratch.
    fn read_buffer<S: Scratch>(&mut self, length: usize, scratch: &mut S) -> (r: Result<
        Reference<'b>,
        Error,
    >)
        ensures
            final(self).exact() == old(self).exact(),
            forall|n: nat| final(scratch).fits(n) == old(scratch).fits(n),
            old(self).exact() ==> *final(scratch) == *old(scratch),
            old(self).exact() ==> match r {
                Ok(rr) => old(self).data().len() >= length
                    && (rr matches Reference::Borrowed(sl)
                    && sl@ == old(self).data().take(length as int))
                    && final(self).data() == old(self).data().skip(length as int),
                Err(e) => e == Error::Eof
                    && old(self).data().len() < length
                    && final(self).data() == old(self).data(),
            },
            !old(self).exact() ==> match r {
                Ok(rr) => (rr matches Reference::Copied) && final(scratch).data().len() == length,
                Err(_) => true,
            },
            !old(self).exact() && !old(scratch).fits(length as nat) ==> r == Err::<
                Reference<'b>,
                Error,
            >(Error::ScratchBufferTooSmall) && final(scratch).data() == old(scratch).data(),
    ;
}

/// A byte source backed by an in-memory slice: every read is exact and
/// every payload can be borrowed.
pub struct SliceReader<'b> {
    slice: &'b [u8],
}

impl<'b> SliceReader<'b> {
    /// A source that will deliver exactly the bytes of `slice`.
    pub fn new(slice: &'b [u8]) -> (r: SliceReader<'b>)
        ensures
            r.exact(),
            r.data() == slice@,
    {
        SliceReader { slice }
    }

    /// Fails exactly when fewer than `len` bytes remain.
    fn check_len(&self, len: usize) -> (r: Result<(), Error>)
        ensures
            match r {
                Ok(()) => len <= self.data().len(),
                Err(e) => e == Error::Eof && len > self.data().len(),
            },
    {
        if len > self.slice.len() {
            return Err(Error::Eof);
        }
        Ok(())
    }
}

impl<'b> Read<'b> for SliceReader<'b> {
    closed spec fn exact(&self) -> bool {
        true
    }

    closed spec fn data(&self) -> Seq<u8> {
        self.slice@
    }

    proof fn data_bounded(&self) {
        broadcast use vstd::slice::axiom_spec_len;

        assert(vstd::slice::spec_slice_len(self.slice) == self.slice@.len());
    }

    fn read_exact(&mut self, buf: &mut [u8]) -> (r: Result<(), Error>) {
        match self.check_len(buf.len()) {
            Ok(()) => {},
            Err(e) => {
                return Err(e);
            },
        }
        let n = buf.len();
        let head = slice_subrange(self.slice, 0, n);
        self.slice = slice_subrange(self.slice, n, self.slice.len());
        let mut i: usize = 0;
        while i < n
            invariant
                i <= n,
                head@.len() == n,
                buf@.len() == n,
                forall|j: int| 0 <= j < i ==> buf@[j] == head@[j],
            decreases n - i,
        {
            buf.set(i, *slice_index_get(head, i));
            i += 1;
        }
        proof {
            assert(buf@ =~= head@);
        }
        Ok(())
    }

    fn read_buffer<S: Scratch>(&mut self, length: usize, scratch: &mut S) -> (r: Result<
        Reference<'b>,
        Error,
    >) {
        match self.check_len(length) {
            Ok(()) => {},
            Err(e) => {
                return Err(e);
            },
        }
        let head = slice_subrange(self.slice, 0, length);
        self.slice = slice_subrange(self.slice, length, self.slice.len());
        Ok(Reference::Borrowed(head))
    }
}

/// A transport that delivers incoming bytes on demand: a socket, a file,
/// a pipe. Implementors live outside this library, so nothing is promised
/// of a successful fill beyond the buffer keeping its length; a transport
/// failure surfaces as an error of the `Io` category.
pub trait ByteStream {
    /// Fills the whole buffer with the next incoming bytes, or fails.
    fn fill(&mut self, buf: &mut [u8]) -> (r: Result<(), Error>)
        ensures
            final(buf)@.len() == old(buf)@.len(),
    ;
}

/// A byte source backed by a live stream: its future bytes are unknown and
/// every payload read copies into the scratch buffer.
pub struct Reader<R> {
    inner: R,
}

impl<R: ByteStream> Reader<R> {
    /// A streaming source that pulls bytes from `inner` as it is asked.
    pub fn new(inner: R) -> (r: Reader<R>)
        ensures
            !(<Reader<R> as Read>::exact(&r)),
    {
        Reader { inner }
    }
}

impl<'b, R: ByteStream> Read<'b> for Reader<R> {
    closed spec fn exact(&self) -> bool {
        false
    }

    closed spec fn data(&self) -> Seq<u8> {
        Seq::empty()
    }

    proof fn data_bounded(&self) {
    }

    fn read_exact(&mut self, buf: &mut [u8]) -> (r: Result<(), Error>) {
        self.inner.fill(buf)
    }

    fn read_buffer<S: Scratch>(&mut self, length: usize, scratch: &mut S) -> (r: Result<
        Reference<'b>,
        Error,
    >) {
        match scratch.resize(length) {
            Ok(()) => {},
            Err(e) => {
                return Err(e);
            },
        }
        let buf = scratch.as_mut_slice();
        match self.inner.fill(buf) {
            Ok(()) => Ok(Reference::Copied),
            Err(e) => Err(e),
        }
    }
}

} // verus!
