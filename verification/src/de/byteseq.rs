//! Byte and text payload access: the two operations a consumer needs on
//! one string item, a borrowed-or-copied contiguous slice or an owned
//! growable buffer.

use vstd::prelude::*;

use crate::de::parser::{spec_buffer_chain, spec_chain_borrowable};
use crate::de::Deserializer;
use crate::error::Error;
use crate::io::{Read, Reference};
use crate::scratch::Scratch;

verus! {

/// Access to the next byte- or text-string payload of a decoder.
pub struct ByteSeqAccess;

impl ByteSeqAccess {
    /// An accessor for the next payload.
    pub fn new() -> (r: ByteSeqAccess) {
        ByteSeqAccess
    }

    /// The payload as one contiguous slice: borrowed from the input where
    /// possible, else assembled in the decoder's scratch buffer.
    pub fn deserialize_slice<'de, R: Read<'de>, S: Scratch>(
        &mut self,
        de: &mut Deserializer<R, S>,
    ) -> (r: Result<Reference<'de>, Error>)
        requires
            old(de).wf(),
        ensures
            final(de).wf(),
            final(de).exact() == old(de).exact(),
            forall|n: nat| final(de).scratch_fits(n) == old(de).scratch_fits(n),
            old(de).exact() ==> match spec_buffer_chain(old(de).data()) {
                Ok(pr) => (match r {
                    Ok(rr) => rr.spec_bytes(final(de).scratch_data()) == pr.0 && final(de).data()
                        == pr.1,
                    Err(e) => e == Error::ScratchBufferTooSmall && !spec_chain_borrowable(
                        old(de).data(),
                    ) && !old(de).scratch_fits(pr.0.len()),
                }),
                Err(e) => r == Err::<Reference<'de>, Error>(e) || (r == Err::<
                    Reference<'de>,
                    Error,
                >(Error::ScratchBufferTooSmall) && !old(de).scratch_fits(usize::MAX as nat)),
            },
    {
        de.deserialize_bytes()
    }

    /// The payload as an owned, growable buffer, assembled without the
    /// shared scratch, so it stays valid across later decodes.
    pub fn deserialize_owned<'de, R: Read<'de>, S: Scratch>(
        &mut self,
        de: &mut Deserializer<R, S>,
    ) -> (r: Result<Vec<u8>, Error>)
        requires
            old(de).wf(),
        ensures
            final(de).wf(),
            final(de).exact() == old(de).exact(),
            final(de).scratch_data() == old(de).scratch_data(),
            forall|n: nat| final(de).scratch_fits(n) == old(de).scratch_fits(n),
            old(de).exact() ==> match spec_buffer_chain(old(de).data()) {
                Ok(pr) => (match r {
                    Ok(v) => v@ == pr.0,
                    Err(_) => false,
                }) && final(de).data() == pr.1,
                Err(e) => r == Err::<Vec<u8>, Error>(e),
            },
    {
        de.deserialize_byte_buf()
    }
}

} // verus!
