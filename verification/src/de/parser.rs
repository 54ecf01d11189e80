//! The low-level parser: reads and peeks headers with a one-header
//! lookahead, and reassembles indefinite-length byte and text payloads
//! from their chunks.

use vstd::prelude::*;

use crate::error::Error;
use crate::header::{
    arg_value, header_wf, lemma_header_round_trip, lemma_parse_header_ok, spec_arg_from_partial,
    spec_header_bytes, spec_parse_header, spec_parsed_len, Arg, Header, Major, PartialArg,
    PartialHeader,
};
use crate::io::{Read, Reference};
use crate::scratch::Scratch;
use vstd::slice::{slice_index_get, SliceAdditionalExecFns};

verus! {

/// The payload and remainder of a run of same-major chunks inside an
/// indefinite-length string, up to and including the header that ends the
/// run (the break marker, or a same-major indefinite header).
pub open spec fn spec_chunks(s: Seq<u8>, expected: Major) -> Result<(Seq<u8>, Seq<u8>), Error>
    decreases s.len(),
{
    match spec_parse_header(s) {
        Err(e) => Err(e),
        Ok(h) => {
            let hl = spec_parsed_len(s) as int;
            if h == Header::spec_break() {
                Ok((Seq::empty(), s.skip(hl)))
            } else if h.0 != expected {
                Err(Error::IndefiniteStringInconsistent)
            } else if h.1 == Arg::Indef {
                Ok((Seq::empty(), s.skip(hl)))
            } else {
                match arg_value(h.1) {
                    Some(l) => if l > usize::MAX {
                        Err(Error::NumberOutOfRange)
                    } else if s.len() < hl + l {
                        Err(Error::Eof)
                    } else {
                        match spec_chunks(s.skip(hl + l as int), expected) {
                            Ok(pr) => Ok((s.subrange(hl, hl + l as int) + pr.0, pr.1)),
                            Err(e) => Err(e),
                        }
                    },
                    None => Err(Error::ItemIllFormed),
                }
            }
        },
    }
}

/// The payload and remainder of a whole string item: a definite-length
/// item's payload as it stands, or an indefinite-length item's chunks
/// concatenated.
pub open spec fn spec_buffer_chain(s: Seq<u8>) -> Result<(Seq<u8>, Seq<u8>), Error> {
    match spec_parse_header(s) {
        Err(e) => Err(e),
        Ok(h) => {
            let hl = spec_parsed_len(s) as int;
            match h.1 {
                Arg::Indef => spec_chunks(s.skip(hl), h.0),
                _ => match arg_value(h.1) {
                    Some(l) => if l > usize::MAX {
                        Err(Error::NumberOutOfRange)
                    } else if s.len() < hl + l {
                        Err(Error::Eof)
                    } else {
                        Ok((s.subrange(hl, hl + l as int), s.skip(hl + l as int)))
                    },
                    None => Err(Error::ItemIllFormed),
                },
            }
        },
    }
}

/// When a chunk run can stay zero-copy: zero-length chunks up to a single
/// non-empty chunk that the break marker follows at once.
pub open spec fn spec_chunks_borrowable(s: Seq<u8>, expected: Major) -> bool
    decreases s.len(),
{
    match spec_parse_header(s) {
        Err(_) => false,
        Ok(h) => {
            let hl = spec_parsed_len(s) as int;
            if h == Header::spec_break() || h.0 != expected || h.1 == Arg::Indef {
                false
            } else {
                match arg_value(h.1) {
                    Some(l) => if l > usize::MAX || s.len() < hl + l {
                        false
                    } else if l == 0 {
                        spec_chunks_borrowable(s.skip(hl), expected)
                    } else {
                        spec_parse_header(s.skip(hl + l as int)) == Ok::<Header, Error>(
                            Header::spec_break(),
                        )
                    },
                    None => false,
                }
            }
        },
    }
}

/// When a whole string item can stay zero-copy: it is definite-length, or
/// its chunk run is borrowable.
pub open spec fn spec_chain_borrowable(s: Seq<u8>) -> bool {
    match spec_parse_header(s) {
        Err(_) => false,
        Ok(h) => h.1 != Arg::Indef || spec_chunks_borrowable(
            s.skip(spec_parsed_len(s) as int),
            h.0,
        ),
    }
}

/// The parser over a byte source: a single-slot header lookahead and the
/// source itself. It holds no decoded values.
pub struct Parser<R> {
    reader: R,
    peeked_header: Option<Header>,
}

impl<'b, R: Read<'b>> Parser<R> {
    /// Whether the underlying source is exact.
    pub closed spec fn exact(&self) -> bool {
        self.reader.exact()
    }

    /// The bytes still to be decoded: a cached peeked header re-encoded in
    /// front of what the source has yet to deliver.
    pub closed spec fn data(&self) -> Seq<u8> {
        match self.peeked_header {
            Some(h) => spec_header_bytes(h) + self.reader.data(),
            None => self.reader.data(),
        }
    }

    /// A cached header re-encodes to the bytes it was read from.
    pub closed spec fn wf(&self) -> bool {
        match self.peeked_header {
            Some(h) => header_wf(h),
            None => true,
        }
    }

    /// The header a pending peek has cached, if one is pending: whatever
    /// the source, the next read returns it.
    pub closed spec fn lookahead(&self) -> Option<Header> {
        self.peeked_header
    }

    /// Whether the lookahead slot is empty.
    pub open spec fn no_peek(&self) -> bool {
        self.lookahead() is None
    }

    /// A parser that decodes what `reader` delivers.
    pub fn new(reader: R) -> (r: Parser<R>)
        ensures
            r.wf(),
            r.no_peek(),
            r.exact() == reader.exact(),
            r.data() == reader.data(),
    {
        Parser { reader, peeked_header: None }
    }

    /// Reads the next header: the cached one if a peek is pending, else
    /// fresh bytes from the source.
    pub fn read_header(&mut self) -> (r: Result<Header, Error>)
        requires
            old(self).wf(),
        ensures
            final(self).wf(),
            final(self).exact() == old(self).exact(),
            match r {
                Ok(h) => header_wf(h) && final(self).no_peek(),
                Err(_) => true,
            },
            match old(self).lookahead() {
                Some(h) => r == Ok::<Header, Error>(h),
                None => true,
            },
            old(self).exact() ==> match spec_parse_header(old(self).data()) {
                Ok(h) => r == Ok::<Header, Error>(h) && final(self).data() == old(self).data().skip(spec_parsed_len(old(self).data()) as int),
                Err(e) => r == Err::<Header, Error>(e),
            },
    {
        match self.peeked_header {
            Some(h) => {
                self.peeked_header = None;
                proof {
                    lemma_header_round_trip(h, self.reader.data());
                    lemma_parse_header_ok(old(self).data(), h);
                    assert(old(self).data().skip(spec_parsed_len(old(self).data()) as int)
                        =~= self.reader.data());
                }
                return Ok(h);
            },
            None => {},
        }
        let ghost d = self.reader.data();
        let mut first: Vec<u8> = vec![0u8; 1];
        match self.reader.read_exact(first.as_mut_slice()) {
            Ok(()) => {},
            Err(e) => {
                return Err(e);
            },
        }
        let b = first[0];
        proof {
            if self.reader.exact() {
                assert(d[0] == b);
            }
        }
        let partial = match PartialHeader::from_byte(b) {
            Ok(p) => p,
            Err(e) => {
                return Err(e);
            },
        };
        let extra = partial.1.len();
        let mut tail: Vec<u8> = vec![0u8; extra];
        match self.reader.read_exact(tail.as_mut_slice()) {
            Ok(()) => {},
            Err(e) => {
                proof {
                    if old(self).exact() {
                        assert(d.skip(1).len() < extra);
                        assert(spec_parse_header(d) == Err::<Header, Error>(Error::Eof));
                    }
                }
                return Err(e);
            },
        }
        let mut whole: Vec<u8> = Vec::new();
        whole.push(b);
        whole.extend_from_slice(tail.as_slice());
        let r = Header::from_partial(partial, whole.as_slice());
        proof {
            if old(self).exact() {
                assert(whole@ =~= d.take(1 + extra as int));
                assert(whole@.len() == 1 + extra);
                match partial.1 {
                    PartialArg::First(_) | PartialArg::Indef => {},
                    PartialArg::Next1 => {
                        assert(whole@.subrange(1, 2) =~= d.subrange(1, 2));
                    },
                    PartialArg::Next2 => {
                        assert(whole@.subrange(1, 3) =~= d.subrange(1, 3));
                    },
                    PartialArg::Next4 => {
                        assert(whole@.subrange(1, 5) =~= d.subrange(1, 5));
                    },
                    PartialArg::Next8 => {
                        assert(whole@.subrange(1, 9) =~= d.subrange(1, 9));
                    },
                }
                assert(spec_arg_from_partial(partial.1, whole@) == spec_arg_from_partial(
                    partial.1,
                    d,
                ));
                match r {
                    Ok(h) => {
                        assert(spec_parse_header(d) == Ok::<Header, Error>(h));
                        lemma_parse_header_ok(d, h);
                        assert(self.reader.data() =~= d.skip(spec_parsed_len(d) as int));
                    },
                    Err(_) => {},
                }
            }
        }
        r
    }

    /// Returns the next header without consuming it: the next read will
    /// yield the same header.
    pub fn peek_header(&mut self) -> (r: Result<Header, Error>)
        requires
            old(self).wf(),
        ensures
            final(self).wf(),
            final(self).exact() == old(self).exact(),
            match r {
                Ok(h) => header_wf(h) && final(self).lookahead() == Some(h),
                Err(_) => true,
            },
            match old(self).lookahead() {
                Some(h) => r == Ok::<Header, Error>(h) && *final(self) == *old(self),
                None => true,
            },
            old(self).exact() ==> match spec_parse_header(old(self).data()) {
                Ok(h) => r == Ok::<Header, Error>(h) && final(self).data() == old(self).data(),
                Err(e) => r == Err::<Header, Error>(e),
            },
    {
        match self.peeked_header {
            Some(h) => {
                proof {
                    lemma_header_round_trip(h, self.reader.data());
                }
                return Ok(h);
            },
            None => {},
        }
        let ghost d = self.data();
        match self.read_header() {
            Ok(h) => {
                self.peeked_header = Some(h);
                proof {
                    if old(self).exact() {
                        lemma_parse_header_ok(d, h);
                        assert(self.data() =~= d);
                    }
                }
                Ok(h)
            },
            Err(e) => Err(e),
        }
    }

    /// Reads exactly enough bytes to fill `buf`. The lookahead slot must
    /// be empty for the read to take the next bytes of the stream.
    pub fn read_exact(&mut self, buf: &mut [u8]) -> (r: Result<(), Error>)
        requires
            old(self).wf(),
        ensures
            final(self).wf(),
            final(self).exact() == old(self).exact(),
            final(self).no_peek() == old(self).no_peek(),
            final(buf)@.len() == old(buf)@.len(),
            old(self).exact() && old(self).no_peek() ==> match r {
                Ok(()) => old(self).data().len() >= old(buf)@.len()
                    && final(buf)@ == old(self).data().take(old(buf)@.len() as int)
                    && final(self).data() == old(self).data().skip(old(buf)@.len() as int),
                Err(e) => e == Error::Eof
                    && old(self).data().len() < old(buf)@.len()
                    && final(self).data() == old(self).data(),
            },
    {
        self.reader.read_exact(buf)
    }

    /// Returns the next `length` payload bytes through the source's
    /// buffer read: zero-copy where the source allows it.
    pub fn read_buffer<S: Scratch>(&mut self, length: usize, scratch: &mut S) -> (r: Result<
        Reference<'b>,
        Error,
    >)
        requires
            old(self).wf(),
        ensures
            final(self).wf(),
            final(self).exact() == old(self).exact(),
            final(self).no_peek() == old(self).no_peek(),
            forall|n: nat| final(scratch).fits(n) == old(scratch).fits(n),
            old(self).exact() ==> *final(scratch) == *old(scratch),
            old(self).exact() && old(self).no_peek() ==> match r {
                Ok(rr) => old(self).data().len() >= length
                    && (rr matches Reference::Borrowed(sl)
                    && sl@ == old(self).data().take(length as int))
                    && final(self).data() == old(self).data().skip(length as int),
                Err(e) => e == Error::Eof
                    && old(self).data().len() < length
                    && final(self).data() == old(self).data(),
            },
            !old(self).exact() ==> match r {
                Ok(rr) => (rr matches Reference::Copied) && final(scratch).data().len() == length,
                Err(_) => true,
            },
            !old(self).exact() && !old(scratch).fits(length as nat) ==> r == Err::<
                Reference<'b>,
                Error,
            >(Error::ScratchBufferTooSmall) && final(scratch).data() == old(scratch).data(),
    {
        self.reader.read_buffer(length, scratch)
    }

    /// Grows the scratch by `extra` bytes and fills the new tail from the
    /// source.
    fn read_into_scratch<S: Scratch>(&mut self, extra: usize, scratch: &mut S) -> (r: Result<
        (),
        Error,
    >)
        requires
            old(self).wf(),
            old(self).no_peek(),
            old(scratch).data().len() + extra <= usize::MAX,
        ensures
            final(self).wf(),
            final(self).exact() == old(self).exact(),
            final(self).no_peek(),
            forall|n: nat| final(scratch).fits(n) == old(scratch).fits(n),
            old(self).exact() ==> match r {
                Ok(()) => old(scratch).fits((old(scratch).data().len() + extra) as nat) && old(self).data().len() >= extra && final(scratch).data() == old(scratch).data() + old(self).data().take(extra as int) && final(self).data() == old(self).data().skip(
                    extra as int,
                ),
                Err(e) => (e == Error::ScratchBufferTooSmall && !old(scratch).fits(
                    (old(scratch).data().len() + extra) as nat,
                ) && final(self).data() == old(self).data()) || (e == Error::Eof && old(self).data().len() < extra),
            },
    {
        let start = scratch.len();
        match scratch.resize(start + extra) {
            Ok(()) => {},
            Err(e) => {
                return Err(e);
            },
        }
        let dst = scratch.as_mut_slice();
        let (head, tail) = dst.split_at_mut(start);
        let r = self.read_exact(tail);
        proof {
            assert(head@ == old(scratch).data());
        }
        match r {
            Ok(()) => {
                proof {
                    if old(self).exact() {
                        assert(final(scratch).data() == old(scratch).data() + old(self).data().take(extra as int));
                    }
                }
                Ok(())
            },
            Err(e) => Err(e),
        }
    }

    /// Reassembles one whole byte- or text-string payload: a definite-length
    /// item is read in one buffer read (zero-copy where the source allows
    /// it); an indefinite-length item's chunks are checked against the outer
    /// major type and concatenated into the scratch buffer, except that a
    /// run of zero-length chunks followed by a single non-empty chunk and
    /// the break marker is returned as one zero-copy read.
    ///
    /// A definite-length read never touches the scratch at all, and the
    /// single-chunk fast path only empties it: both succeed against the
    /// zero-capacity scratch.
    #[verifier::loop_isolation(false)]
    #[verifier::rlimit(100)]
    pub fn read_buffer_chain<S: Scratch>(&mut self, scratch: &mut S) -> (r: Result<
        Reference<'b>,
        Error,
    >)
        requires
            old(self).wf(),
        ensures
            final(self).wf(),
            final(self).exact() == old(self).exact(),
            forall|n: nat| final(scratch).fits(n) == old(scratch).fits(n),
            old(self).exact() && (match spec_parse_header(old(self).data()) {
                Ok(h) => h.1 != Arg::Indef,
                Err(_) => true,
            }) ==> *final(scratch) == *old(scratch),
            !old(self).exact() ==> match r {
                Ok(rr) => rr matches Reference::Copied,
                Err(_) => true,
            },
            old(self).exact() ==> match spec_buffer_chain(old(self).data()) {
                Ok(pr) => if spec_chain_borrowable(old(self).data()) {
                    (match r {
                        Ok(rr) => rr matches Reference::Borrowed(sl) && sl@ == pr.0,
                        Err(_) => false,
                    }) && final(self).data() == pr.1 && (final(scratch).data() == old(
                        scratch,
                    ).data() || final(scratch).data() == Seq::<u8>::empty())
                } else if old(scratch).fits(pr.0.len()) {
                    r == Ok::<Reference<'b>, Error>(Reference::Copied) && final(scratch).data()
                        == pr.0 && final(self).data() == pr.1
                } else {
                    r == Err::<Reference<'b>, Error>(Error::ScratchBufferTooSmall)
                },
                Err(e) => r == Err::<Reference<'b>, Error>(e) || (r == Err::<
                    Reference<'b>,
                    Error,
                >(Error::ScratchBufferTooSmall) && !old(scratch).fits(usize::MAX as nat)),
            },
    {
        let ghost d0 = old(self).data();
        let h = match self.read_header() {
            Ok(h) => h,
            Err(e) => {
                return Err(e);
            },
        };
        let length_opt = match h.1.sequence_length() {
            Ok(o) => o,
            Err(e) => {
                return Err(e);
            },
        };
        let expected = h.0;
        match length_opt {
            Some(length) => {
                proof {
                    if old(self).exact() {
                        let hl = spec_parsed_len(d0) as int;
                        assert(self.data() == d0.skip(hl));
                        if length <= self.data().len() {
                            assert(self.data().take(length as int) =~= d0.subrange(
                                hl,
                                hl + length as int,
                            ));
                            assert(self.data().skip(length as int) =~= d0.skip(
                                hl + length as int,
                            ));
                        }
                    }
                }
                self.read_buffer(length, scratch)
            },
            None => {
                let ghost d1 = self.data();
                proof {
                    self.reader.data_bounded();
                    if old(self).exact() {
                        assert(spec_buffer_chain(d0) == spec_chunks(d1, expected));
                        assert(spec_chain_borrowable(d0) == spec_chunks_borrowable(d1, expected));
                    }
                }
                scratch.clear();
                proof {
                    scratch.fits_properties();
                }
                let mut maybe_borrowed = true;
                let mut fuel: usize = usize::MAX;
                loop
                    invariant
                        self.wf(),
                        self.exact() == old(self).exact(),
                        forall|n: nat| scratch.fits(n) == old(scratch).fits(n),
                        old(self).exact() ==> {
                            &&& d1.len() <= usize::MAX
                            &&& scratch.data().len() + self.data().len() <= d1.len()
                            &&& old(scratch).fits(scratch.data().len() as nat)
                            &&& match spec_chunks(d1, expected) {
                                Ok(pr) => match spec_chunks(self.data(), expected) {
                                    Ok(cur) => pr.0 == scratch.data() + cur.0 && pr.1 == cur.1,
                                    Err(_) => false,
                                },
                                Err(e) => spec_chunks(self.data(), expected) == Err::<
                                    (Seq<u8>, Seq<u8>),
                                    Error,
                                >(e),
                            }
                            &&& maybe_borrowed ==> scratch.data() == Seq::<u8>::empty() && (
                            spec_chunks_borrowable(d1, expected) == spec_chunks_borrowable(
                                self.data(),
                                expected,
                            ))
                            &&& !maybe_borrowed ==> !spec_chunks_borrowable(d1, expected)
                            &&& usize::MAX - fuel <= d1.len() - self.data().len()
                        },
                    decreases fuel,
                {
                    if fuel == 0 {
                        proof {
                            if old(self).exact() {
                                assert(self.data().len() == 0);
                            }
                        }
                        return Err(Error::Eof);
                    }
                    fuel = fuel - 1;
                    let ghost dcur = self.data();
                    let ch = match self.read_header() {
                        Ok(ch) => ch,
                        Err(e) => {
                            return Err(e);
                        },
                    };
                    if ch.is_break() {
                        return Ok(Reference::Copied);
                    }
                    if !major_eq(ch.0, expected) {
                        return Err(Error::IndefiniteStringInconsistent);
                    }
                    let l_opt = match ch.1.sequence_length() {
                        Ok(o) => o,
                        Err(e) => {
                            return Err(e);
                        },
                    };
                    let local_length = match l_opt {
                        None => {
                            return Ok(Reference::Copied);
                        },
                        Some(l) => l,
                    };
                    if local_length == 0 {
                        proof {
                            if old(self).exact() {
                                assert(self.data() =~= dcur.skip(
                                    spec_parsed_len(dcur) as int + 0,
                                ));
                                assert(dcur.subrange(
                                    spec_parsed_len(dcur) as int,
                                    spec_parsed_len(dcur) as int + 0,
                                ) =~= Seq::<u8>::empty());
                                if spec_chunks(self.data(), expected) is Ok {
                                    let cur = spec_chunks(self.data(), expected)->Ok_0;
                                    assert(Seq::<u8>::empty() + cur.0 =~= cur.0);
                                }
                            }
                        }
                        continue ;
                    }
                    if maybe_borrowed {
                        let ghost dpay = self.data();
                        let buf = match self.read_buffer(local_length, scratch) {
                            Ok(b) => b,
                            Err(e) => {
                                return Err(e);
                            },
                        };
                        proof {
                            if old(self).exact() {
                                assert(self.data() =~= dcur.skip(
                                    spec_parsed_len(dcur) as int + local_length as int,
                                ));
                            }
                        }
                        let nh = match self.peek_header() {
                            Ok(nh) => nh,
                            Err(e) => {
                                return Err(e);
                            },
                        };
                        if nh.is_break() {
                            match self.read_header() {
                                Ok(_) => {},
                                Err(e) => {
                                    return Err(e);
                                },
                            }
                            proof {
                                if old(self).exact() {
                                    let hl = spec_parsed_len(dcur) as int;
                                    assert(dcur.subrange(hl, hl + local_length as int) =~= dpay.take(
                                        local_length as int,
                                    ));
                                    let after = dcur.skip(hl + local_length as int);
                                    assert(spec_chunks(after, expected) == Ok::<
                                        (Seq<u8>, Seq<u8>),
                                        Error,
                                    >((Seq::empty(), after.skip(spec_parsed_len(after) as int))));
                                    assert(dcur.subrange(hl, hl + local_length as int)
                                        + Seq::<u8>::empty() =~= dcur.subrange(
                                        hl,
                                        hl + local_length as int,
                                    ));
                                    assert(scratch.data() + spec_chunks(dcur, expected)->Ok_0.0
                                        =~= spec_chunks(dcur, expected)->Ok_0.0);
                                }
                            }
                            return Ok(buf);
                        }
                        match buf {
                            Reference::Borrowed(sl) => {
                                match fill_scratch(scratch, sl) {
                                    Ok(()) => {},
                                    Err(e) => {
                                        proof {
                                            scratch.fits_properties();
                                            if old(self).exact() && spec_chunks(dcur, expected)
                                                is Ok {
                                                lemma_chunks_payload_floor(
                                                    dcur,
                                                    expected,
                                                    local_length as int,
                                                );
                                            }
                                        }
                                        return Err(e);
                                    },
                                }
                            },
                            Reference::Copied => {},
                        }
                        proof {
                            if old(self).exact() {
                                let hl = spec_parsed_len(dcur) as int;
                                assert(scratch.data() =~= dcur.subrange(
                                    hl,
                                    hl + local_length as int,
                                ));
                                if spec_chunks(self.data(), expected) is Ok {
                                    let cur = spec_chunks(self.data(), expected)->Ok_0;
                                    assert(dcur.subrange(hl, hl + local_length as int) + cur.0
                                        =~= scratch.data() + cur.0);
                                }
                            }
                        }
                        maybe_borrowed = false;
                    } else {
                        let start = scratch.len();
                        if local_length > usize::MAX - start {
                            proof {
                                if old(self).exact() {
                                    assert(self.data().len() < local_length);
                                }
                            }
                            return Err(Error::Eof);
                        }
                        let ghost dpay = self.data();
                        match self.read_into_scratch(local_length, scratch) {
                            Ok(()) => {},
                            Err(e) => {
                                proof {
                                    scratch.fits_properties();
                                    if old(self).exact() && e == Error::ScratchBufferTooSmall
                                        && spec_chunks(dcur, expected) is Ok {
                                        lemma_chunks_payload_floor(
                                            dcur,
                                            expected,
                                            local_length as int,
                                        );
                                    }
                                }
                                return Err(e);
                            },
                        }
                        proof {
                            if old(self).exact() {
                                let hl = spec_parsed_len(dcur) as int;
                                assert(dpay.take(local_length as int) =~= dcur.subrange(
                                    hl,
                                    hl + local_length as int,
                                ));
                                assert(self.data() =~= dcur.skip(hl + local_length as int));
                                if spec_chunks(self.data(), expected) is Ok {
                                    let cur = spec_chunks(self.data(), expected)->Ok_0;
                                    let prev = scratch.data().subrange(0, start as int);
                                    assert((prev + dcur.subrange(hl, hl + local_length as int))
                                        + cur.0 =~= prev + (dcur.subrange(
                                        hl,
                                        hl + local_length as int,
                                    ) + cur.0));
                                }
                            }
                        }
                    }
                }
            },
        }
    }
}

/// Compares two major types.
fn major_eq(a: Major, b: Major) -> (r: bool)
    ensures
        r == (a == b),
{
    a == b
}

/// Makes the scratch buffer hold exactly the bytes of `src`.
fn fill_scratch<S: Scratch>(scratch: &mut S, src: &[u8]) -> (r: Result<(), Error>)
    ensures
        forall|n: nat| final(scratch).fits(n) == old(scratch).fits(n),
        match r {
            Ok(()) => old(scratch).fits(src@.len() as nat) && final(scratch).data() == src@,
            Err(e) => e == Error::ScratchBufferTooSmall && !old(scratch).fits(src@.len() as nat)
                && final(scratch).data() == old(scratch).data(),
        },
{
    match scratch.resize(src.len()) {
        Ok(()) => {},
        Err(e) => {
            return Err(e);
        },
    }
    let dst = scratch.as_mut_slice();
    let n = dst.len();
    let mut i: usize = 0;
    while i < n
        invariant
            i <= n,
            dst@.len() == n,
            src@.len() == n,
            forall|j: int| 0 <= j < i ==> dst@[j] == src@[j],
        decreases n - i,
    {
        dst.set(i, *slice_index_get(src, i));
        i += 1;
    }
    proof {
        assert(dst@ =~= src@);
    }
    Ok(())
}

/// A chunk's payload is no longer than the whole run's payload.
proof fn lemma_chunks_payload_floor(s: Seq<u8>, expected: Major, l: int)
    requires
        spec_chunks(s, expected) is Ok,
        spec_parse_header(s) is Ok,
        spec_parse_header(s)->Ok_0.0 == expected,
        spec_parse_header(s)->Ok_0.1 != Arg::Indef,
        spec_parse_header(s)->Ok_0 != Header::spec_break(),
        arg_value(spec_parse_header(s)->Ok_0.1) == Some(l as nat),
        0 <= l,
    ensures
        spec_chunks(s, expected)->Ok_0.0.len() >= l,
{
}

} // verus!
