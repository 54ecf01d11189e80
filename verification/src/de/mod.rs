//! The decode engine: typed pull-based entry points over the parser. The
//! caller asks for a value of a given shape and receives it as a plain
//! value; sequences and mappings are walked through a cursor.

use vstd::prelude::*;

use crate::error::Error;
use crate::header::{
    arg_value, arg_wf, be_value, header_wf, lemma_header_round_trip, spec_header_bytes,
    spec_parse_header, spec_parsed_len, Arg, Header, Major,
};
use crate::io::{ByteStream, Read, Reader, Reference, SliceReader};
use crate::scratch::Scratch;
use crate::simple::spec_simple_value;
use vstd::string::{StrSliceExecFns, StringSliceAdditionalSpecFns};
use vstd::utf8::{decode_utf8, valid_utf8};

pub mod byteseq;
pub mod parser;

use parser::{spec_buffer_chain, spec_chain_borrowable, spec_chunks, Parser};

verus! {

/// Decode options, reserved for future use.
#[derive(Default, Debug)]
pub struct DeserializerConfig {}

/// The decode engine: a parser over a byte source, the scratch buffer that
/// copied payloads land in, and the decode options.
pub struct Deserializer<R, S> {
    parser: Parser<R>,
    scratch: S,
    #[allow(dead_code)]
    config: DeserializerConfig,
}

/// A decoded numeric item: the value of an integer item, or the raw
/// big-endian bits of a float item of each width.
#[derive(Debug, Copy, Clone, PartialEq, Eq, Structural)]
pub enum Number {
    Unsigned(u64),
    /// The value is -1 minus the carried argument.
    Negative(u64),
    HalfBits(u16),
    SingleBits(u32),
    DoubleBits(u64),
}

/// Reading one numeric item from the front of a stream.
pub open spec fn spec_number(s: Seq<u8>) -> Result<Number, Error> {
    match spec_parse_header(s) {
        Err(e) => Err(e),
        Ok(h) => if h.0 == Major::Positive {
            match arg_value(h.1) {
                Some(v) => Ok(Number::Unsigned(v as u64)),
                None => Err(Error::ItemIllFormed),
            }
        } else if h.0 == Major::Negative {
            match arg_value(h.1) {
                Some(v) => Ok(Number::Negative(v as u64)),
                None => Err(Error::ItemIllFormed),
            }
        } else if h.0 == Major::Other {
            match h.1 {
                Arg::Next2(b) => Ok(Number::HalfBits(be_value(b@) as u16)),
                Arg::Next4(b) => Ok(Number::SingleBits(be_value(b@) as u32)),
                Arg::Next8(b) => Ok(Number::DoubleBits(be_value(b@) as u64)),
                _ => Err(Error::ExpectedNumber),
            }
        } else {
            Err(Error::ExpectedNumber)
        },
    }
}

/// Reading an unsigned integer that must not exceed `max`: a negative item
/// is always out of range, a float item is not an integer.
pub open spec fn spec_decode_unsigned(s: Seq<u8>, max: nat) -> Result<u64, Error> {
    match spec_number(s) {
        Ok(n) => match n {
            Number::Unsigned(v) => if v <= max {
                Ok(v)
            } else {
                Err(Error::NumberOutOfRange)
            },
            Number::Negative(_) => Err(Error::NumberOutOfRange),
            _ => Err(Error::ExpectedNumber),
        },
        Err(e) => Err(e),
    }
}

/// Reading a signed integer: a value `v` of the positive major type means
/// `v`, one of the negative major type means `-1 - v`; either must fit the
/// symmetric bound, a float item is not an integer.
pub open spec fn spec_decode_signed(s: Seq<u8>, max: nat) -> Result<i128, Error> {
    match spec_number(s) {
        Ok(n) => match n {
            Number::Unsigned(v) => if v <= max {
                Ok(v as i128)
            } else {
                Err(Error::NumberOutOfRange)
            },
            Number::Negative(v) => if v <= max {
                Ok((-1 - (v as i128)) as i128)
            } else {
                Err(Error::NumberOutOfRange)
            },
            _ => Err(Error::ExpectedNumber),
        },
        Err(e) => Err(e),
    }
}

/// Reading a boolean item.
pub open spec fn spec_decode_bool(s: Seq<u8>) -> Result<bool, Error> {
    match spec_parse_header(s) {
        Err(e) => Err(e),
        Ok(h) => if spec_simple_value(h) == Some(21u8) {
            Ok(true)
        } else if spec_simple_value(h) == Some(20u8) {
            Ok(false)
        } else {
            Err(Error::ExpectedBool)
        },
    }
}

/// Reading a unit item: null and undefined both stand for it.
pub open spec fn spec_decode_unit(s: Seq<u8>) -> Result<(), Error> {
    match spec_parse_header(s) {
        Err(e) => Err(e),
        Ok(h) => if spec_simple_value(h) == Some(22u8) || spec_simple_value(h) == Some(23u8) {
            Ok(())
        } else {
            Err(Error::ExpectedSimple)
        },
    }
}

/// Opening a sequence or mapping of the given major type: its announced
/// length, or `None` for an indefinite-length aggregate.
pub open spec fn spec_decode_aggregate(s: Seq<u8>, want: Major, wrong: Error) -> Result<
    Option<usize>,
    Error,
> {
    match spec_parse_header(s) {
        Err(e) => Err(e),
        Ok(h) => if h.0 != want {
            Err(wrong)
        } else {
            match h.1 {
                Arg::Indef => Ok(None),
                _ => match arg_value(h.1) {
                    Some(v) => if v <= usize::MAX {
                        Ok(Some(v as usize))
                    } else {
                        Err(Error::NumberOutOfRange)
                    },
                    None => Err(Error::ItemIllFormed),
                },
            }
        },
    }
}

impl<'de, R: Read<'de>, S: Scratch> Deserializer<R, S> {
    /// Whether the byte source is exact (a slice, not a live stream).
    pub closed spec fn exact(&self) -> bool {
        self.parser.exact()
    }

    /// The bytes still to be decoded, when the source is exact.
    pub closed spec fn data(&self) -> Seq<u8> {
        self.parser.data()
    }

    /// The engine's internal consistency.
    pub closed spec fn wf(&self) -> bool {
        self.parser.wf()
    }

    /// What the scratch buffer holds.
    pub closed spec fn scratch_data(&self) -> Seq<u8> {
        self.scratch.data()
    }

    /// What the scratch buffer could hold.
    pub closed spec fn scratch_fits(&self, n: nat) -> bool {
        self.scratch.fits(n)
    }

    /// The header a pending peek has cached, if one is pending: whatever
    /// the source, the next header read returns it.
    pub closed spec fn lookahead(&self) -> Option<Header> {
        self.parser.lookahead()
    }

    /// Reads one numeric item: the value of an integer item, or the raw
    /// bits of a float item.
    fn parse_number(&mut self) -> (r: Result<Number, Error>)
        requires
            old(self).wf(),
        ensures
            final(self).wf(),
            final(self).exact() == old(self).exact(),
            final(self).scratch_data() == old(self).scratch_data(),
            forall|n: nat| final(self).scratch_fits(n) == old(self).scratch_fits(n),
            old(self).exact() ==> match spec_number(old(self).data()) {
                Ok(n) => r == Ok::<Number, Error>(n) && final(self).data() == old(self).data().skip(spec_parsed_len(old(self).data()) as int),
                Err(e) => r == Err::<Number, Error>(e),
            },
    {
        let h = match self.parser.read_header() {
            Ok(h) => h,
            Err(e) => {
                return Err(e);
            },
        };
        proof {
            crate::header::lemma_pow256_values();
            match h.1 {
                Arg::Next2(b) => crate::header::lemma_be_value_bound(b@),
                Arg::Next4(b) => crate::header::lemma_be_value_bound(b@),
                Arg::Next8(b) => crate::header::lemma_be_value_bound(b@),
                _ => {},
            }
        }
        match h.0 {
            Major::Positive => match h.1.as_integer() {
                Ok(v) => Ok(Number::Unsigned(v)),
                Err(e) => Err(e),
            },
            Major::Negative => match h.1.as_integer() {
                Ok(v) => Ok(Number::Negative(v)),
                Err(e) => Err(e),
            },
            Major::Other => match h.1 {
                Arg::Next2(_) => match h.1.as_integer() {
                    Ok(v) => Ok(Number::HalfBits(v as u16)),
                    Err(e) => Err(e),
                },
                Arg::Next4(_) => match h.1.as_integer() {
                    Ok(v) => Ok(Number::SingleBits(v as u32)),
                    Err(e) => Err(e),
                },
                Arg::Next8(_) => match h.1.as_integer() {
                    Ok(v) => Ok(Number::DoubleBits(v)),
                    Err(e) => Err(e),
                },
                _ => Err(Error::ExpectedNumber),
            },
            _ => Err(Error::ExpectedNumber),
        }
    }

    /// Reads an unsigned integer item no greater than `max`.
    fn parse_unsigned(&mut self, max: u64) -> (r: Result<u64, Error>)
        requires
            old(self).wf(),
        ensures
            final(self).wf(),
            final(self).exact() == old(self).exact(),
            final(self).scratch_data() == old(self).scratch_data(),
            forall|n: nat| final(self).scratch_fits(n) == old(self).scratch_fits(n),
            old(self).exact() ==> match spec_decode_unsigned(old(self).data(), max as nat) {
                Ok(v) => r == Ok::<u64, Error>(v) && final(self).data() == old(self).data().skip(
                    spec_parsed_len(old(self).data()) as int,
                ),
                Err(e) => r == Err::<u64, Error>(e),
            },
    {
        match self.parse_number() {
            Ok(Number::Unsigned(v)) => {
                if v <= max {
                    Ok(v)
                } else {
                    Err(Error::NumberOutOfRange)
                }
            },
            Ok(Number::Negative(_)) => Err(Error::NumberOutOfRange),
            Ok(_) => Err(Error::ExpectedNumber),
            Err(e) => Err(e),
        }
    }

    /// Reads a signed integer item whose magnitude bound is `max`.
    fn parse_signed(&mut self, max: u64) -> (r: Result<i128, Error>)
        requires
            old(self).wf(),
        ensures
            final(self).wf(),
            final(self).exact() == old(self).exact(),
            final(self).scratch_data() == old(self).scratch_data(),
            forall|n: nat| final(self).scratch_fits(n) == old(self).scratch_fits(n),
            old(self).exact() ==> match spec_decode_signed(old(self).data(), max as nat) {
                Ok(v) => r == Ok::<i128, Error>(v) && final(self).data() == old(self).data().skip(
                    spec_parsed_len(old(self).data()) as int,
                ),
                Err(e) => r == Err::<i128, Error>(e),
            },
    {
        match self.parse_number() {
            Ok(Number::Unsigned(v)) => {
                if v <= max {
                    Ok(v as i128)
                } else {
                    Err(Error::NumberOutOfRange)
                }
            },
            Ok(Number::Negative(v)) => {
                if v <= max {
                    Ok(-1i128 - (v as i128))
                } else {
                    Err(Error::NumberOutOfRange)
                }
            },
            Ok(_) => Err(Error::ExpectedNumber),
            Err(e) => Err(e),
        }
    }

    /// Decodes a boolean item.
    pub fn deserialize_bool(&mut self) -> (r: Result<bool, Error>)
        requires
            old(self).wf(),
        ensures
            final(self).wf(),
            final(self).exact() == old(self).exact(),
            final(self).scratch_data() == old(self).scratch_data(),
            forall|n: nat| final(self).scratch_fits(n) == old(self).scratch_fits(n),
            old(self).exact() ==> match spec_decode_bool(old(self).data()) {
                Ok(v) => r == Ok::<bool, Error>(v) && final(self).data() == old(self).data().skip(
                    spec_parsed_len(old(self).data()) as int,
                ),
                Err(e) => r == Err::<bool, Error>(e),
            },
    {
        let h = match self.parser.read_header() {
            Ok(h) => h,
            Err(e) => {
                return Err(e);
            },
        };
        match crate::simple::Simple::from_header(h) {
            Ok(s) => {
                if s.as_byte() == 21 {
                    Ok(true)
                } else if s.as_byte() == 20 {
                    Ok(false)
                } else {
                    Err(Error::ExpectedBool)
                }
            },
            Err(_) => Err(Error::ExpectedBool),
        }
    }

    /// Decodes a unit item: null and undefined both stand for it.
    pub fn deserialize_unit(&mut self) -> (r: Result<(), Error>)
        requires
            old(self).wf(),
        ensures
            final(self).wf(),
            final(self).exact() == old(self).exact(),
            final(self).scratch_data() == old(self).scratch_data(),
            forall|n: nat| final(self).scratch_fits(n) == old(self).scratch_fits(n),
            old(self).exact() ==> match spec_decode_unit(old(self).data()) {
                Ok(()) => r == Ok::<(), Error>(()) && final(self).data() == old(self).data().skip(
                    spec_parsed_len(old(self).data()) as int,
                ),
                Err(e) => r == Err::<(), Error>(e),
            },
    {
        let h = match self.parser.read_header() {
            Ok(h) => h,
            Err(e) => {
                return Err(e);
            },
        };
        match crate::simple::Simple::from_header(h) {
            Ok(s) => {
                if s.as_byte() == 22 || s.as_byte() == 23 {
                    Ok(())
                } else {
                    Err(Error::ExpectedSimple)
                }
            },
            Err(_) => Err(Error::ExpectedSimple),
        }
    }

    /// Decodes the presence side of an optional value: a null or undefined
    /// item is consumed and reports absence; anything else is left in the
    /// stream, for the caller to decode as the present value.
    pub fn deserialize_option(&mut self) -> (r: Result<bool, Error>)
        requires
            old(self).wf(),
        ensures
            final(self).wf(),
            final(self).exact() == old(self).exact(),
            final(self).scratch_data() == old(self).scratch_data(),
            forall|n: nat| final(self).scratch_fits(n) == old(self).scratch_fits(n),
            old(self).exact() ==> match spec_parse_header(old(self).data()) {
                Ok(h) => if spec_simple_value(h) == Some(22u8) || spec_simple_value(h) == Some(
                    23u8,
                ) {
                    r == Ok::<bool, Error>(false) && final(self).data() == old(self).data().skip(
                        spec_parsed_len(old(self).data()) as int,
                    )
                } else {
                    r == Ok::<bool, Error>(true) && final(self).data() == old(self).data()
                },
                Err(e) => r == Err::<bool, Error>(e),
            },
    {
        let h = match self.parser.peek_header() {
            Ok(h) => h,
            Err(e) => {
                return Err(e);
            },
        };
        match crate::simple::Simple::from_header(h) {
            Ok(s) => {
                if s.as_byte() == 22 || s.as_byte() == 23 {
                    match self.parser.read_header() {
                        Ok(_) => Ok(false),
                        Err(e) => Err(e),
                    }
                } else {
                    Ok(true)
                }
            },
            Err(_) => Ok(true),
        }
    }

    /// Opens a sequence: the item must be an array, and the returned cursor
    /// walks its elements.
    pub fn deserialize_seq(&mut self) -> (r: Result<Sequence, Error>)
        requires
            old(self).wf(),
        ensures
            final(self).wf(),
            final(self).exact() == old(self).exact(),
            final(self).scratch_data() == old(self).scratch_data(),
            forall|n: nat| final(self).scratch_fits(n) == old(self).scratch_fits(n),
            old(self).exact() ==> match spec_decode_aggregate(
                old(self).data(),
                Major::Array,
                Error::ExpectedArray,
            ) {
                Ok(l) => (match r {
                    Ok(c) => c.spec_len() == l,
                    Err(_) => false,
                }) && final(self).data() == old(self).data().skip(
                    spec_parsed_len(old(self).data()) as int,
                ),
                Err(e) => r == Err::<Sequence, Error>(e),
            },
    {
        self.begin_aggregate(true)
    }

    /// Opens a mapping: the item must be a map, and the returned cursor
    /// walks its key/value pairs.
    pub fn deserialize_map(&mut self) -> (r: Result<Sequence, Error>)
        requires
            old(self).wf(),
        ensures
            final(self).wf(),
            final(self).exact() == old(self).exact(),
            final(self).scratch_data() == old(self).scratch_data(),
            forall|n: nat| final(self).scratch_fits(n) == old(self).scratch_fits(n),
            old(self).exact() ==> match spec_decode_aggregate(
                old(self).data(),
                Major::Mapping,
                Error::ExpectedMap,
            ) {
                Ok(l) => (match r {
                    Ok(c) => c.spec_len() == l,
                    Err(_) => false,
                }) && final(self).data() == old(self).data().skip(
                    spec_parsed_len(old(self).data()) as int,
                ),
                Err(e) => r == Err::<Sequence, Error>(e),
            },
    {
        self.begin_aggregate(false)
    }

    /// Opens an aggregate of either kind.
    fn begin_aggregate(&mut self, want_array: bool) -> (r: Result<Sequence, Error>)
        requires
            old(self).wf(),
        ensures
            final(self).wf(),
            final(self).exact() == old(self).exact(),
            final(self).scratch_data() == old(self).scratch_data(),
            forall|n: nat| final(self).scratch_fits(n) == old(self).scratch_fits(n),
            old(self).exact() ==> match spec_decode_aggregate(
                old(self).data(),
                if want_array {
                    Major::Array
                } else {
                    Major::Mapping
                },
                if want_array {
                    Error::ExpectedArray
                } else {
                    Error::ExpectedMap
                },
            ) {
                Ok(l) => (match r {
                    Ok(c) => c.spec_len() == l,
                    Err(_) => false,
                }) && final(self).data() == old(self).data().skip(
                    spec_parsed_len(old(self).data()) as int,
                ),
                Err(e) => r == Err::<Sequence, Error>(e),
            },
    {
        let h = match self.parser.read_header() {
            Ok(h) => h,
            Err(e) => {
                return Err(e);
            },
        };
        let ok = match h.0 {
            Major::Array => want_array,
            Major::Mapping => !want_array,
            _ => false,
        };
        if !ok {
            return Err(
                if want_array {
                    Error::ExpectedArray
                } else {
                    Error::ExpectedMap
                },
            );
        }
        match h.1.sequence_length() {
            Ok(l) => Ok(Sequence::new(l)),
            Err(e) => Err(e),
        }
    }
}

/// A float item's value, as the raw big-endian bits of its width. The
/// half width has no native representation here: the caller widens those
/// bits (the widening is exact).
#[derive(Debug, Copy, Clone, PartialEq, Eq, Structural)]
pub enum Float {
    Half(u16),
    Single(u32),
    Double(u64),
}

/// Reading one float item: its raw bits at its wire width.
pub open spec fn spec_decode_float(s: Seq<u8>) -> Result<Float, Error> {
    match spec_number(s) {
        Ok(n) => match n {
            Number::HalfBits(h) => Ok(Float::Half(h)),
            Number::SingleBits(b) => Ok(Float::Single(b)),
            Number::DoubleBits(b) => Ok(Float::Double(b)),
            _ => Err(Error::ExpectedNumber),
        },
        Err(e) => Err(e),
    }
}

/// Reading one simple item: the booleans are meaningful, null and
/// undefined both mean "no value", and any other simple value is unknown.
pub open spec fn spec_decode_simple(s: Seq<u8>) -> Result<Option<bool>, Error> {
    match spec_parse_header(s) {
        Err(e) => Err(e),
        Ok(h) => match spec_simple_value(h) {
            Some(v) => if v == 20 {
                Ok(Some(false))
            } else if v == 21 {
                Ok(Some(true))
            } else if v == 22 || v == 23 {
                Ok(None)
            } else {
                Err(Error::UnknownSimpleValue(v))
            },
            None => Err(Error::ExpectedSimple),
        },
    }
}

/// The shape of the next item, as the type-agnostic dispatcher reads it
/// off the header: the narrowest matching concrete decoder.
#[derive(Debug, Copy, Clone, PartialEq, Eq, Structural)]
pub enum Shape {
    U8,
    U16,
    U32,
    U64,
    I8,
    I16,
    I32,
    I64,
    Bytes,
    Text,
    Array,
    Mapping,
    Tag,
    Simple,
    Single,
    Double,
}

/// The shape a header announces: integer widths follow the argument
/// width, a half- or single-width float item is decoded at single width,
/// and a break marker in value position is an error.
pub open spec fn spec_shape_of(h: Header) -> Result<Shape, Error> {
    match h.0 {
        Major::Positive => match h.1 {
            Arg::First(_) => Ok(Shape::U8),
            Arg::Next1(_) => Ok(Shape::U8),
            Arg::Next2(_) => Ok(Shape::U16),
            Arg::Next4(_) => Ok(Shape::U32),
            Arg::Next8(_) => Ok(Shape::U64),
            Arg::Indef => Err(Error::UnexpectedBreak),
        },
        Major::Negative => match h.1 {
            Arg::First(_) => Ok(Shape::I8),
            Arg::Next1(_) => Ok(Shape::I8),
            Arg::Next2(_) => Ok(Shape::I16),
            Arg::Next4(_) => Ok(Shape::I32),
            Arg::Next8(_) => Ok(Shape::I64),
            Arg::Indef => Err(Error::UnexpectedBreak),
        },
        Major::Bytes => Ok(Shape::Bytes),
        Major::Text => Ok(Shape::Text),
        Major::Array => Ok(Shape::Array),
        Major::Mapping => Ok(Shape::Mapping),
        Major::Tag => Ok(Shape::Tag),
        Major::Other => match h.1 {
            Arg::First(_) => Ok(Shape::Simple),
            Arg::Next1(_) => Ok(Shape::Simple),
            Arg::Next2(_) => Ok(Shape::Single),
            Arg::Next4(_) => Ok(Shape::Single),
            Arg::Next8(_) => Ok(Shape::Double),
            Arg::Indef => Err(Error::UnexpectedBreak),
        },
    }
}

impl<'de, R: Read<'de>, S: Scratch> Deserializer<R, S> {
    /// The scratch buffer, where copied payloads live.
    pub fn scratch(&self) -> (r: &S)
        ensures
            r.data() == self.scratch_data(),
            forall|n: nat| r.fits(n) == self.scratch_fits(n),
    {
        &self.scratch
    }

    /// Decodes one float item to its raw bits.
    pub fn deserialize_float(&mut self) -> (r: Result<Float, Error>)
        requires
            old(self).wf(),
        ensures
            final(self).wf(),
            final(self).exact() == old(self).exact(),
            final(self).scratch_data() == old(self).scratch_data(),
            forall|n: nat| final(self).scratch_fits(n) == old(self).scratch_fits(n),
            old(self).exact() ==> match spec_decode_float(old(self).data()) {
                Ok(v) => r == Ok::<Float, Error>(v) && final(self).data() == old(self).data().skip(
                    spec_parsed_len(old(self).data()) as int,
                ),
                Err(e) => r == Err::<Float, Error>(e),
            },
    {
        match self.parse_number() {
            Ok(Number::HalfBits(h)) => Ok(Float::Half(h)),
            Ok(Number::SingleBits(b)) => Ok(Float::Single(b)),
            Ok(Number::DoubleBits(b)) => Ok(Float::Double(b)),
            Ok(_) => Err(Error::ExpectedNumber),
            Err(e) => Err(e),
        }
    }

    /// Decodes one simple item: a boolean, no value (null or undefined),
    /// or an unknown simple value.
    pub fn deserialize_simple(&mut self) -> (r: Result<Option<bool>, Error>)
        requires
            old(self).wf(),
        ensures
            final(self).wf(),
            final(self).exact() == old(self).exact(),
            final(self).scratch_data() == old(self).scratch_data(),
            forall|n: nat| final(self).scratch_fits(n) == old(self).scratch_fits(n),
            old(self).exact() ==> match spec_decode_simple(old(self).data()) {
                Ok(v) => r == Ok::<Option<bool>, Error>(v) && final(self).data() == old(self).data().skip(spec_parsed_len(old(self).data()) as int),
                Err(e) => r == Err::<Option<bool>, Error>(e),
            },
    {
        let h = match self.parser.read_header() {
            Ok(h) => h,
            Err(e) => {
                return Err(e);
            },
        };
        match crate::simple::Simple::from_header(h) {
            Ok(s) => {
                let v = s.as_byte();
                if v == 20 {
                    Ok(Some(false))
                } else if v == 21 {
                    Ok(Some(true))
                } else if v == 22 || v == 23 {
                    Ok(None)
                } else {
                    Err(Error::UnknownSimpleValue(v))
                }
            },
            Err(e) => Err(e),
        }
    }

    /// The shape of the next item, read off its header without consuming
    /// anything: the dispatch table of type-agnostic decoding.
    pub fn peek_shape(&mut self) -> (r: Result<Shape, Error>)
        requires
            old(self).wf(),
        ensures
            final(self).wf(),
            final(self).exact() == old(self).exact(),
            final(self).scratch_data() == old(self).scratch_data(),
            forall|n: nat| final(self).scratch_fits(n) == old(self).scratch_fits(n),
            old(self).exact() ==> match spec_parse_header(old(self).data()) {
                Ok(h) => r == spec_shape_of(h) && final(self).data() == old(self).data(),
                Err(e) => r == Err::<Shape, Error>(e),
            },
    {
        let h = match self.parser.peek_header() {
            Ok(h) => h,
            Err(e) => {
                return Err(e);
            },
        };
        match h.0 {
            Major::Positive => match h.1 {
                Arg::First(_) | Arg::Next1(_) => Ok(Shape::U8),
                Arg::Next2(_) => Ok(Shape::U16),
                Arg::Next4(_) => Ok(Shape::U32),
                Arg::Next8(_) => Ok(Shape::U64),
                Arg::Indef => Err(Error::UnexpectedBreak),
            },
            Major::Negative => match h.1 {
                Arg::First(_) | Arg::Next1(_) => Ok(Shape::I8),
                Arg::Next2(_) => Ok(Shape::I16),
                Arg::Next4(_) => Ok(Shape::I32),
                Arg::Next8(_) => Ok(Shape::I64),
                Arg::Indef => Err(Error::UnexpectedBreak),
            },
            Major::Bytes => Ok(Shape::Bytes),
            Major::Text => Ok(Shape::Text),
            Major::Array => Ok(Shape::Array),
            Major::Mapping => Ok(Shape::Mapping),
            Major::Tag => Ok(Shape::Tag),
            Major::Other => match h.1 {
                Arg::First(_) | Arg::Next1(_) => Ok(Shape::Simple),
                Arg::Next2(_) | Arg::Next4(_) => Ok(Shape::Single),
                Arg::Next8(_) => Ok(Shape::Double),
                Arg::Indef => Err(Error::UnexpectedBreak),
            },
        }
    }

    /// The next byte- or text-string payload as one contiguous slice:
    /// borrowed from the input where possible, else assembled in the
    /// scratch buffer. A definite-length payload read from a slice source
    /// never touches the scratch, and an indefinite-length one of a single
    /// non-empty chunk only empties it: both succeed with the
    /// zero-capacity scratch.
    pub fn read_payload(&mut self) -> (r: Result<Reference<'de>, Error>)
        requires
            old(self).wf(),
        ensures
            final(self).wf(),
            final(self).exact() == old(self).exact(),
            forall|n: nat| final(self).scratch_fits(n) == old(self).scratch_fits(n),
            old(self).exact() && (match spec_parse_header(old(self).data()) {
                Ok(h) => h.1 != Arg::Indef,
                Err(_) => true,
            }) ==> final(self).scratch_data() == old(self).scratch_data(),
            !old(self).exact() ==> match r {
                Ok(rr) => rr matches Reference::Copied,
                Err(_) => true,
            },
            old(self).exact() ==> match spec_buffer_chain(old(self).data()) {
                Ok(pr) => if spec_chain_borrowable(old(self).data()) {
                    (match r {
                        Ok(rr) => rr matches Reference::Borrowed(sl) && sl@ == pr.0,
                        Err(_) => false,
                    }) && final(self).data() == pr.1 && (final(self).scratch_data() == old(self).scratch_data() || final(self).scratch_data() == Seq::<u8>::empty())
                } else if old(self).scratch_fits(pr.0.len()) {
                    r == Ok::<Reference<'de>, Error>(Reference::Copied) && final(self).scratch_data() == pr.0 && final(self).data() == pr.1
                } else {
                    r == Err::<Reference<'de>, Error>(Error::ScratchBufferTooSmall)
                },
                Err(e) => r == Err::<Reference<'de>, Error>(e) || (r == Err::<
                    Reference<'de>,
                    Error,
                >(Error::ScratchBufferTooSmall) && !old(self).scratch_fits(usize::MAX as nat)),
            },
    {
        self.parser.read_buffer_chain(&mut self.scratch)
    }

    /// The next byte-string payload, zero-copy where possible.
    pub fn deserialize_bytes(&mut self) -> (r: Result<Reference<'de>, Error>)
        requires
            old(self).wf(),
        ensures
            final(self).wf(),
            final(self).exact() == old(self).exact(),
            forall|n: nat| final(self).scratch_fits(n) == old(self).scratch_fits(n),
            old(self).exact() ==> match spec_buffer_chain(old(self).data()) {
                Ok(pr) => (match r {
                    Ok(rr) => rr.spec_bytes(final(self).scratch_data()) == pr.0 && final(self).data() == pr.1,
                    Err(e) => e == Error::ScratchBufferTooSmall && !spec_chain_borrowable(
                        old(self).data(),
                    ) && !old(self).scratch_fits(pr.0.len()),
                }),
                Err(e) => r == Err::<Reference<'de>, Error>(e) || (r == Err::<
                    Reference<'de>,
                    Error,
                >(Error::ScratchBufferTooSmall) && !old(self).scratch_fits(usize::MAX as nat)),
            },
    {
        self.read_payload()
    }

    /// The next byte- or text-string payload as an owned, growable buffer,
    /// assembled without the shared scratch, so it stays valid across
    /// later decodes.
    pub fn deserialize_byte_buf(&mut self) -> (r: Result<Vec<u8>, Error>)
        requires
            old(self).wf(),
        ensures
            final(self).wf(),
            final(self).exact() == old(self).exact(),
            final(self).scratch_data() == old(self).scratch_data(),
            forall|n: nat| final(self).scratch_fits(n) == old(self).scratch_fits(n),
            old(self).exact() ==> match spec_buffer_chain(old(self).data()) {
                Ok(pr) => (match r {
                    Ok(v) => v@ == pr.0,
                    Err(_) => false,
                }) && final(self).data() == pr.1,
                Err(e) => r == Err::<Vec<u8>, Error>(e),
            },
    {
        let mut own: Vec<u8> = Vec::new();
        proof {
            own.fits_properties();
        }
        match self.parser.read_buffer_chain(&mut own) {
            Ok(rr) => match rr {
                Reference::Borrowed(sl) => Ok(vstd::slice::slice_to_vec(sl)),
                Reference::Copied => Ok(own),
            },
            Err(e) => Err(e),
        }
    }
}

impl<'de, R: Read<'de>, S: Scratch> Deserializer<R, S> {
    /// Decodes an unsigned integer item that fits eight bits.
    pub fn deserialize_u8(&mut self) -> (r: Result<u8, Error>)
        requires
            old(self).wf(),
        ensures
            final(self).wf(),
            final(self).exact() == old(self).exact(),
            final(self).scratch_data() == old(self).scratch_data(),
            forall|n: nat| final(self).scratch_fits(n) == old(self).scratch_fits(n),
            old(self).exact() ==> match spec_decode_unsigned(old(self).data(), u8::MAX as nat) {
                Ok(v) => r == Ok::<u8, Error>(v as u8) && final(self).data() == old(
                    self,
                ).data().skip(spec_parsed_len(old(self).data()) as int),
                Err(e) => r == Err::<u8, Error>(e),
            },
    {
        match self.parse_unsigned(0xff) {
            Ok(v) => Ok(v as u8),
            Err(e) => Err(e),
        }
    }

    /// Decodes an unsigned integer item that fits sixteen bits.
    pub fn deserialize_u16(&mut self) -> (r: Result<u16, Error>)
        requires
            old(self).wf(),
        ensures
            final(self).wf(),
            final(self).exact() == old(self).exact(),
            final(self).scratch_data() == old(self).scratch_data(),
            forall|n: nat| final(self).scratch_fits(n) == old(self).scratch_fits(n),
            old(self).exact() ==> match spec_decode_unsigned(old(self).data(), u16::MAX as nat) {
                Ok(v) => r == Ok::<u16, Error>(v as u16) && final(self).data() == old(
                    self,
                ).data().skip(spec_parsed_len(old(self).data()) as int),
                Err(e) => r == Err::<u16, Error>(e),
            },
    {
        match self.parse_unsigned(0xffff) {
            Ok(v) => Ok(v as u16),
            Err(e) => Err(e),
        }
    }

    /// Decodes an unsigned integer item that fits thirty-two bits.
    pub fn deserialize_u32(&mut self) -> (r: Result<u32, Error>)
        requires
            old(self).wf(),
        ensures
            final(self).wf(),
            final(self).exact() == old(self).exact(),
            final(self).scratch_data() == old(self).scratch_data(),
            forall|n: nat| final(self).scratch_fits(n) == old(self).scratch_fits(n),
            old(self).exact() ==> match spec_decode_unsigned(old(self).data(), u32::MAX as nat) {
                Ok(v) => r == Ok::<u32, Error>(v as u32) && final(self).data() == old(
                    self,
                ).data().skip(spec_parsed_len(old(self).data()) as int),
                Err(e) => r == Err::<u32, Error>(e),
            },
    {
        match self.parse_unsigned(0xffff_ffff) {
            Ok(v) => Ok(v as u32),
            Err(e) => Err(e),
        }
    }

    /// Decodes an unsigned integer item of the full width.
    pub fn deserialize_u64(&mut self) -> (r: Result<u64, Error>)
        requires
            old(self).wf(),
        ensures
            final(self).wf(),
            final(self).exact() == old(self).exact(),
            final(self).scratch_data() == old(self).scratch_data(),
            forall|n: nat| final(self).scratch_fits(n) == old(self).scratch_fits(n),
            old(self).exact() ==> match spec_decode_unsigned(old(self).data(), u64::MAX as nat) {
                Ok(v) => r == Ok::<u64, Error>(v) && final(self).data() == old(self).data().skip(
                    spec_parsed_len(old(self).data()) as int,
                ),
                Err(e) => r == Err::<u64, Error>(e),
            },
    {
        self.parse_unsigned(u64::MAX)
    }

    /// Decodes an unsigned integer item into the doubled width; the wire
    /// carries at most sixty-four bits.
    pub fn deserialize_u128(&mut self) -> (r: Result<u128, Error>)
        requires
            old(self).wf(),
        ensures
            final(self).wf(),
            final(self).exact() == old(self).exact(),
            final(self).scratch_data() == old(self).scratch_data(),
            forall|n: nat| final(self).scratch_fits(n) == old(self).scratch_fits(n),
            old(self).exact() ==> match spec_decode_unsigned(old(self).data(), u64::MAX as nat) {
                Ok(v) => r == Ok::<u128, Error>(v as u128) && final(self).data() == old(
                    self,
                ).data().skip(spec_parsed_len(old(self).data()) as int),
                Err(e) => r == Err::<u128, Error>(e),
            },
    {
        match self.parse_unsigned(u64::MAX) {
            Ok(v) => Ok(v as u128),
            Err(e) => Err(e),
        }
    }

    /// Decodes a signed integer item that fits eight bits.
    pub fn deserialize_i8(&mut self) -> (r: Result<i8, Error>)
        requires
            old(self).wf(),
        ensures
            final(self).wf(),
            final(self).exact() == old(self).exact(),
            final(self).scratch_data() == old(self).scratch_data(),
            forall|n: nat| final(self).scratch_fits(n) == old(self).scratch_fits(n),
            old(self).exact() ==> match spec_decode_signed(old(self).data(), i8::MAX as nat) {
                Ok(v) => r == Ok::<i8, Error>(v as i8) && final(self).data() == old(
                    self,
                ).data().skip(spec_parsed_len(old(self).data()) as int),
                Err(e) => r == Err::<i8, Error>(e),
            },
    {
        match self.parse_signed(0x7f) {
            Ok(v) => Ok(v as i8),
            Err(e) => Err(e),
        }
    }

    /// Decodes a signed integer item that fits sixteen bits.
    pub fn deserialize_i16(&mut self) -> (r: Result<i16, Error>)
        requires
            old(self).wf(),
        ensures
            final(self).wf(),
            final(self).exact() == old(self).exact(),
            final(self).scratch_data() == old(self).scratch_data(),
            forall|n: nat| final(self).scratch_fits(n) == old(self).scratch_fits(n),
            old(self).exact() ==> match spec_decode_signed(old(self).data(), i16::MAX as nat) {
                Ok(v) => r == Ok::<i16, Error>(v as i16) && final(self).data() == old(
                    self,
                ).data().skip(spec_parsed_len(old(self).data()) as int),
                Err(e) => r == Err::<i16, Error>(e),
            },
    {
        match self.parse_signed(0x7fff) {
            Ok(v) => Ok(v as i16),
            Err(e) => Err(e),
        }
    }

    /// Decodes a signed integer item that fits thirty-two bits.
    pub fn deserialize_i32(&mut self) -> (r: Result<i32, Error>)
        requires
            old(self).wf(),
        ensures
            final(self).wf(),
            final(self).exact() == old(self).exact(),
            final(self).scratch_data() == old(self).scratch_data(),
            forall|n: nat| final(self).scratch_fits(n) == old(self).scratch_fits(n),
            old(self).exact() ==> match spec_decode_signed(old(self).data(), i32::MAX as nat) {
                Ok(v) => r == Ok::<i32, Error>(v as i32) && final(self).data() == old(
                    self,
                ).data().skip(spec_parsed_len(old(self).data()) as int),
                Err(e) => r == Err::<i32, Error>(e),
            },
    {
        match self.parse_signed(0x7fff_ffff) {
            Ok(v) => Ok(v as i32),
            Err(e) => Err(e),
        }
    }

    /// Decodes a signed integer item that fits sixty-four bits.
    pub fn deserialize_i64(&mut self) -> (r: Result<i64, Error>)
        requires
            old(self).wf(),
        ensures
            final(self).wf(),
            final(self).exact() == old(self).exact(),
            final(self).scratch_data() == old(self).scratch_data(),
            forall|n: nat| final(self).scratch_fits(n) == old(self).scratch_fits(n),
            old(self).exact() ==> match spec_decode_signed(old(self).data(), i64::MAX as nat) {
                Ok(v) => r == Ok::<i64, Error>(v as i64) && final(self).data() == old(
                    self,
                ).data().skip(spec_parsed_len(old(self).data()) as int),
                Err(e) => r == Err::<i64, Error>(e),
            },
    {
        match self.parse_signed(0x7fff_ffff_ffff_ffff) {
            Ok(v) => Ok(v as i64),
            Err(e) => Err(e),
        }
    }

    /// Decodes a signed integer item into the doubled width, which holds
    /// every value the wire can carry, down to -1 minus the largest
    /// unsigned argument.
    pub fn deserialize_i128(&mut self) -> (r: Result<i128, Error>)
        requires
            old(self).wf(),
        ensures
            final(self).wf(),
            final(self).exact() == old(self).exact(),
            final(self).scratch_data() == old(self).scratch_data(),
            forall|n: nat| final(self).scratch_fits(n) == old(self).scratch_fits(n),
            old(self).exact() ==> match spec_decode_signed(old(self).data(), u64::MAX as nat) {
                Ok(v) => r == Ok::<i128, Error>(v) && final(self).data() == old(self).data().skip(
                    spec_parsed_len(old(self).data()) as int,
                ),
                Err(e) => r == Err::<i128, Error>(e),
            },
    {
        self.parse_signed(u64::MAX)
    }

    /// The next text-string payload, zero-copy where possible, checked to
    /// be well-formed UTF-8. Resolve it against the scratch buffer to read
    /// the text.
    pub fn deserialize_str(&mut self) -> (r: Result<Reference<'de>, Error>)
        requires
            old(self).wf(),
        ensures
            final(self).wf(),
            final(self).exact() == old(self).exact(),
            forall|n: nat| final(self).scratch_fits(n) == old(self).scratch_fits(n),
            old(self).exact() ==> match spec_buffer_chain(old(self).data()) {
                Ok(pr) => (match r {
                    Ok(rr) => rr.spec_bytes(final(self).scratch_data()) == pr.0 && valid_utf8(pr.0)
                        && final(self).data() == pr.1,
                    Err(e) => (e == Error::InvalidUnicodeCodePoint && !valid_utf8(pr.0)) || (e
                        == Error::ScratchBufferTooSmall && !spec_chain_borrowable(old(self).data())
                        && !old(self).scratch_fits(pr.0.len())),
                }),
                Err(e) => r == Err::<Reference<'de>, Error>(e) || (r == Err::<
                    Reference<'de>,
                    Error,
                >(Error::ScratchBufferTooSmall) && !old(self).scratch_fits(usize::MAX as nat)),
            },
    {
        let rr = match self.read_payload() {
            Ok(rr) => rr,
            Err(e) => {
                return Err(e);
            },
        };
        match rr.as_str(&self.scratch) {
            Ok(_) => Ok(rr),
            Err(e) => Err(e),
        }
    }

    /// Decodes one character: a text item whose payload is exactly one
    /// character long.
    pub fn deserialize_char(&mut self) -> (r: Result<char, Error>)
        requires
            old(self).wf(),
        ensures
            final(self).wf(),
            final(self).exact() == old(self).exact(),
            forall|n: nat| final(self).scratch_fits(n) == old(self).scratch_fits(n),
            old(self).exact() ==> match spec_buffer_chain(old(self).data()) {
                Ok(pr) => (match r {
                    Ok(c) => valid_utf8(pr.0) && decode_utf8(pr.0).len() == 1 && c == decode_utf8(
                        pr.0,
                    )[0] && final(self).data() == pr.1,
                    Err(e) => (e == Error::ExpectedChar && valid_utf8(pr.0) && decode_utf8(
                        pr.0,
                    ).len() != 1) || (e == Error::InvalidUnicodeCodePoint && !valid_utf8(pr.0)) || (
                    e == Error::ScratchBufferTooSmall && !spec_chain_borrowable(old(self).data())
                        && !old(self).scratch_fits(pr.0.len())),
                }),
                Err(e) => r == Err::<char, Error>(e) || (r == Err::<char, Error>(
                    Error::ScratchBufferTooSmall,
                ) && !old(self).scratch_fits(usize::MAX as nat)),
            },
    {
        let rr = match self.read_payload() {
            Ok(rr) => rr,
            Err(e) => {
                return Err(e);
            },
        };
        let t = match rr.as_str(&self.scratch) {
            Ok(t) => t,
            Err(e) => {
                return Err(e);
            },
        };
        proof {
            vstd::utf8::encode_utf8_decode_utf8(t@);
        }
        if t.unicode_len() == 1 {
            Ok(t.get_char(0))
        } else {
            Err(Error::ExpectedChar)
        }
    }

    /// The next text-string payload as an owned string, assembled without
    /// the shared scratch and checked to be well-formed UTF-8.
    pub fn deserialize_string(&mut self) -> (r: Result<String, Error>)
        requires
            old(self).wf(),
        ensures
            final(self).wf(),
            final(self).exact() == old(self).exact(),
            final(self).scratch_data() == old(self).scratch_data(),
            forall|n: nat| final(self).scratch_fits(n) == old(self).scratch_fits(n),
            old(self).exact() ==> match spec_buffer_chain(old(self).data()) {
                Ok(pr) => (match r {
                    Ok(st) => valid_utf8(pr.0) && st@ == decode_utf8(pr.0) && final(self).data()
                        == pr.1,
                    Err(e) => e == Error::InvalidUnicodeCodePoint && !valid_utf8(pr.0),
                }),
                Err(e) => r == Err::<String, Error>(e),
            },
    {
        let v = match self.deserialize_byte_buf() {
            Ok(v) => v,
            Err(e) => {
                return Err(e);
            },
        };
        let t = match crate::io::bytes_as_str(v.as_slice()) {
            Ok(t) => t,
            Err(e) => {
                return Err(e);
            },
        };
        proof {
            vstd::utf8::encode_utf8_decode_utf8(t@);
        }
        Ok(<String as vstd::string::StringExecFns>::from_str(t))
    }
}

impl<'a, S: Scratch> Deserializer<SliceReader<'a>, S> {
    /// A decoder over an in-memory slice: every read is exact and payloads
    /// can be returned zero-copy.
    pub fn from_slice(input: &'a [u8], scratch: S, config: DeserializerConfig) -> (d: Self)
        ensures
            d.wf(),
            d.exact(),
            d.data() == input@,
            d.scratch_data() == scratch.data(),
            forall|n: nat| d.scratch_fits(n) == scratch.fits(n),
    {
        Deserializer { parser: Parser::new(SliceReader::new(input)), scratch, config }
    }
}

impl<R: ByteStream, S: Scratch> Deserializer<Reader<R>, S> {
    /// A decoder over a live byte stream: every payload read copies into
    /// the scratch buffer.
    pub fn from_reader(input: R, scratch: S, config: DeserializerConfig) -> (d: Self)
        ensures
            d.wf(),
            !d.exact(),
            d.scratch_data() == scratch.data(),
            forall|n: nat| d.scratch_fits(n) == scratch.fits(n),
    {
        Deserializer { parser: Parser::new(Reader::new(input)), scratch, config }
    }
}

/// The cursor over a sequence or mapping: how many items remain (`None`
/// until the break marker for an indefinite-length aggregate). Once the
/// counter reaches zero, or the break marker is next, no further item may
/// be requested.
#[derive(Debug)]
pub struct Sequence {
    len: Option<usize>,
}

impl Sequence {
    /// The remaining-length counter.
    pub closed spec fn spec_len(&self) -> Option<usize> {
        self.len
    }

    /// A cursor over an aggregate announced with this length.
    pub fn new(len: Option<usize>) -> (r: Sequence)
        ensures
            r.spec_len() == len,
    {
        Sequence { len }
    }

    /// The announced number of remaining items, where one was announced.
    pub fn size_hint(&self) -> (r: Option<usize>)
        ensures
            r == self.spec_len(),
    {
        self.len
    }

    /// Whether the aggregate is exhausted: the counter has reached zero,
    /// or the break marker is next (peeked, not consumed).
    pub fn end<'de, R: Read<'de>, S: Scratch>(&self, de: &mut Deserializer<R, S>) -> (r: Result<
        bool,
        Error,
    >)
        requires
            old(de).wf(),
        ensures
            final(de).wf(),
            final(de).exact() == old(de).exact(),
            final(de).scratch_data() == old(de).scratch_data(),
            forall|n: nat| final(de).scratch_fits(n) == old(de).scratch_fits(n),
            match r {
                Ok(b) => match self.spec_len() {
                    Some(n) => b == (n == 0),
                    None => true,
                },
                Err(_) => self.spec_len() is None,
            },
            self.spec_len() is Some ==> *final(de) == *old(de),
            self.spec_len() is None ==> match old(de).lookahead() {
                Some(h) => r == Ok::<bool, Error>(h == Header::spec_break()) && *final(de) == *old(
                    de,
                ),
                None => true,
            },
            old(de).exact() ==> match self.spec_len() {
                Some(n) => r == Ok::<bool, Error>(n == 0) && final(de).data() == old(de).data(),
                None => match spec_parse_header(old(de).data()) {
                    Ok(h) => r == Ok::<bool, Error>(h == Header::spec_break()) && final(de).data()
                        == old(de).data(),
                    Err(e) => r == Err::<bool, Error>(e),
                },
            },
    {
        match self.len {
            Some(n) => Ok(n == 0),
            None => match de.parser.peek_header() {
                Ok(h) => Ok(h.is_break()),
                Err(e) => Err(e),
            },
        }
    }

    /// Consumes the aggregate's terminator: a no-op for a definite-length
    /// aggregate whose counter reached zero, the break marker otherwise.
    pub fn finish<'de, R: Read<'de>, S: Scratch>(&self, de: &mut Deserializer<R, S>) -> (r: Result<
        (),
        Error,
    >)
        requires
            old(de).wf(),
            match self.spec_len() {
                Some(n) => n == 0,
                None => true,
            },
        ensures
            final(de).wf(),
            final(de).exact() == old(de).exact(),
            final(de).scratch_data() == old(de).scratch_data(),
            forall|n: nat| final(de).scratch_fits(n) == old(de).scratch_fits(n),
            self.spec_len() is Some ==> r == Ok::<(), Error>(()) && *final(de) == *old(de),
            old(de).exact() ==> match self.spec_len() {
                Some(_) => r == Ok::<(), Error>(()) && final(de).data() == old(de).data(),
                None => match spec_parse_header(old(de).data()) {
                    Ok(h) => if h == Header::spec_break() {
                        r == Ok::<(), Error>(()) && final(de).data() == old(de).data().skip(
                            spec_parsed_len(old(de).data()) as int,
                        )
                    } else {
                        r == Err::<(), Error>(Error::ItemIllFormed)
                    },
                    Err(e) => r == Err::<(), Error>(e),
                },
            },
    {
        match self.len {
            Some(_) => Ok(()),
            None => match de.parser.read_header() {
                Ok(h) => {
                    if h.is_break() {
                        Ok(())
                    } else {
                        Err(Error::ItemIllFormed)
                    }
                },
                Err(e) => Err(e),
            },
        }
    }

    /// Steps to the next key of a mapping: reports whether one follows
    /// (for the caller to decode), consuming the terminator when the
    /// mapping is exhausted instead.
    pub fn next_key<'de, R: Read<'de>, S: Scratch>(&mut self, de: &mut Deserializer<R, S>) -> (r:
        Result<bool, Error>)
        requires
            old(de).wf(),
        ensures
            final(de).wf(),
            final(de).exact() == old(de).exact(),
            final(de).scratch_data() == old(de).scratch_data(),
            forall|n: nat| final(de).scratch_fits(n) == old(de).scratch_fits(n),
            final(self).spec_len() == old(self).spec_len(),
            old(self).spec_len() matches Some(n) ==> r == Ok::<bool, Error>(n != 0) && *final(de)
                == *old(de),
            old(de).exact() ==> match old(self).spec_len() {
                Some(n) => if n == 0 {
                    r == Ok::<bool, Error>(false) && final(de).data() == old(de).data()
                } else {
                    r == Ok::<bool, Error>(true) && final(de).data() == old(de).data()
                },
                None => match spec_parse_header(old(de).data()) {
                    Ok(h) => if h == Header::spec_break() {
                        r == Ok::<bool, Error>(false) && final(de).data() == old(de).data().skip(
                            spec_parsed_len(old(de).data()) as int,
                        )
                    } else {
                        r == Ok::<bool, Error>(true) && final(de).data() == old(de).data()
                    },
                    Err(e) => r == Err::<bool, Error>(e),
                },
            },
    {
        let ended = match self.end(de) {
            Ok(b) => b,
            Err(e) => {
                return Err(e);
            },
        };
        if ended {
            match self.finish(de) {
                Ok(()) => Ok(false),
                Err(e) => Err(e),
            }
        } else {
            Ok(true)
        }
    }

    /// Steps to the next value of a mapping, which the caller then decodes.
    /// Requesting a value of an exhausted mapping always fails with the
    /// unexpected-break error, for definite- and indefinite-length
    /// mappings alike.
    pub fn next_value<'de, R: Read<'de>, S: Scratch>(&mut self, de: &mut Deserializer<R, S>) -> (r:
        Result<(), Error>)
        requires
            old(de).wf(),
        ensures
            final(de).wf(),
            final(de).exact() == old(de).exact(),
            final(de).scratch_data() == old(de).scratch_data(),
            forall|n: nat| final(de).scratch_fits(n) == old(de).scratch_fits(n),
            old(self).spec_len() matches Some(n) ==> *final(de) == *old(de) && (if n == 0 {
                r == Err::<(), Error>(Error::UnexpectedBreak) && final(self).spec_len() == old(
                    self,
                ).spec_len()
            } else {
                r == Ok::<(), Error>(()) && final(self).spec_len() == Some((n - 1) as usize)
            }),
            old(self).spec_len() is None ==> final(self).spec_len() is None,
            old(self).spec_len() is None && old(de).lookahead() == Some(Header::spec_break())
                ==> r == Err::<(), Error>(Error::UnexpectedBreak) && *final(de) == *old(de),
            old(de).exact() ==> match old(self).spec_len() {
                Some(n) => if n == 0 {
                    r == Err::<(), Error>(Error::UnexpectedBreak)
                } else {
                    r == Ok::<(), Error>(()) && final(self).spec_len() == Some((n - 1) as usize)
                        && final(de).data() == old(de).data()
                },
                None => match spec_parse_header(old(de).data()) {
                    Ok(h) => if h == Header::spec_break() {
                        r == Err::<(), Error>(Error::UnexpectedBreak)
                    } else {
                        r == Ok::<(), Error>(()) && final(self).spec_len() == old(self).spec_len()
                            && final(de).data() == old(de).data()
                    },
                    Err(e) => r == Err::<(), Error>(e),
                },
            },
    {
        let ended = match self.end(de) {
            Ok(b) => b,
            Err(e) => {
                return Err(e);
            },
        };
        if ended {
            return Err(Error::UnexpectedBreak);
        }
        self.len = match self.len {
            Some(l) => Some(l - 1),
            None => None,
        };
        Ok(())
    }

    /// Steps to the next element of a sequence: reports whether one
    /// follows (for the caller to decode), consuming the terminator when
    /// the sequence is exhausted instead.
    pub fn next_element<'de, R: Read<'de>, S: Scratch>(
        &mut self,
        de: &mut Deserializer<R, S>,
    ) -> (r: Result<bool, Error>)
        requires
            old(de).wf(),
        ensures
            final(de).wf(),
            final(de).exact() == old(de).exact(),
            final(de).scratch_data() == old(de).scratch_data(),
            forall|n: nat| final(de).scratch_fits(n) == old(de).scratch_fits(n),
            old(self).spec_len() matches Some(n) ==> *final(de) == *old(de) && (if n == 0 {
                r == Ok::<bool, Error>(false) && final(self).spec_len() == old(self).spec_len()
            } else {
                r == Ok::<bool, Error>(true) && final(self).spec_len() == Some((n - 1) as usize)
            }),
            old(self).spec_len() is None ==> match r {
                Ok(_) => final(self).spec_len() is None,
                Err(_) => true,
            },
            old(de).exact() ==> match old(self).spec_len() {
                Some(n) => if n == 0 {
                    r == Ok::<bool, Error>(false) && final(de).data() == old(de).data()
                        && final(self).spec_len() == old(self).spec_len()
                } else {
                    r == Ok::<bool, Error>(true) && final(self).spec_len() == Some(
                        (n - 1) as usize,
                    ) && final(de).data() == old(de).data()
                },
                None => match spec_parse_header(old(de).data()) {
                    Ok(h) => if h == Header::spec_break() {
                        r == Ok::<bool, Error>(false) && final(de).data() == old(de).data().skip(
                            spec_parsed_len(old(de).data()) as int,
                        )
                    } else {
                        r == Ok::<bool, Error>(true) && final(de).data() == old(de).data()
                    },
                    Err(e) => r == Err::<bool, Error>(e),
                },
            },
    {
        let ended = match self.end(de) {
            Ok(b) => b,
            Err(e) => {
                return Err(e);
            },
        };
        if ended {
            match self.finish(de) {
                Ok(()) => Ok(false),
                Err(e) => Err(e),
            }
        } else {
            self.len = match self.len {
                Some(l) => Some(l - 1),
                None => None,
            };
            Ok(true)
        }
    }
}

/// Law: any well-formed encoding of an unsigned value, minimal or not,
/// decodes to that value; with `Arg::from_integer`, which always selects
/// the smallest form, this is the unsigned round trip.
pub proof fn lemma_unsigned_round_trip(a: Arg, v: nat, rest: Seq<u8>)
    requires
        arg_wf(a),
        arg_value(a) == Some(v),
        v <= u64::MAX,
    ensures
        spec_decode_unsigned(
            spec_header_bytes(Header(Major::Positive, a)) + rest,
            u64::MAX as nat,
        ) == Ok::<u64, Error>(v as u64),
{
    lemma_header_round_trip(Header(Major::Positive, a), rest);
}

/// Law: any well-formed encoding of a negative value decodes to minus one
/// minus its argument, minimal or not.
pub proof fn lemma_negative_round_trip(a: Arg, v: nat, rest: Seq<u8>)
    requires
        arg_wf(a),
        arg_value(a) == Some(v),
        v <= u64::MAX,
    ensures
        spec_decode_signed(spec_header_bytes(Header(Major::Negative, a)) + rest, u64::MAX as nat)
            == Ok::<i128, Error>((-1 - v) as i128),
{
    lemma_header_round_trip(Header(Major::Negative, a), rest);
}

/// Law: the encoding of a boolean decodes back to it.
pub proof fn lemma_bool_round_trip(b: bool, rest: Seq<u8>)
    ensures
        spec_decode_bool(
            spec_header_bytes(
                Header(
                    Major::Other,
                    Arg::First(
                        if b {
                            21
                        } else {
                            20
                        },
                    ),
                ),
            ) + rest,
        ) == Ok::<bool, Error>(b),
{
    let h = Header(
        Major::Other,
        Arg::First(
            if b {
                21
            } else {
                20
            },
        ),
    );
    lemma_header_round_trip(h, rest);
}

/// Law: a definite-length string item whose header announces exactly its
/// payload's length decodes back to that payload, zero-copy, and leaves
/// exactly what followed it; this holds for any well-formed argument form,
/// minimal or not.
pub proof fn lemma_string_round_trip(m: Major, a: Arg, p: Seq<u8>, rest: Seq<u8>)
    requires
        arg_wf(a),
        a != Arg::Indef,
        arg_value(a) == Some(p.len()),
        p.len() <= usize::MAX,
    ensures
        spec_buffer_chain(spec_header_bytes(Header(m, a)) + p + rest) == Ok::<
            (Seq<u8>, Seq<u8>),
            Error,
        >((p, rest)),
        spec_chain_borrowable(spec_header_bytes(Header(m, a)) + p + rest),
{
    let h = Header(m, a);
    let s = spec_header_bytes(h) + p + rest;
    assert(s =~= spec_header_bytes(h) + (p + rest));
    lemma_header_round_trip(h, p + rest);
    crate::header::lemma_parse_header_ok(s, h);
    let hl = spec_parsed_len(s) as int;
    assert(hl == spec_header_bytes(h).len());
    assert(s.subrange(hl, hl + p.len() as int) =~= p);
    assert(s.skip(hl + p.len() as int) =~= rest);
}

/// Law: the encoding of a sequence or mapping header decodes back to its
/// announced length, minimal or not.
pub proof fn lemma_aggregate_round_trip(m: Major, a: Arg, wrong: Error, rest: Seq<u8>)
    requires
        arg_wf(a),
    ensures
        spec_decode_aggregate(spec_header_bytes(Header(m, a)) + rest, m, wrong) == (match a {
            Arg::Indef => Ok::<Option<usize>, Error>(None),
            _ => match arg_value(a) {
                Some(v) => if v <= usize::MAX {
                    Ok::<Option<usize>, Error>(Some(v as usize))
                } else {
                    Err::<Option<usize>, Error>(Error::NumberOutOfRange)
                },
                None => Err::<Option<usize>, Error>(Error::ItemIllFormed),
            },
        }),
{
    lemma_header_round_trip(Header(m, a), rest);
}

/// The wire form of a run of definite chunks of major type `m`, each with
/// its argument form and payload.
pub open spec fn spec_chunk_run(chunks: Seq<(Arg, Seq<u8>)>, m: Major) -> Seq<u8>
    decreases chunks.len(),
{
    if chunks.len() == 0 {
        Seq::empty()
    } else {
        spec_header_bytes(Header(m, chunks[0].0)) + chunks[0].1 + spec_chunk_run(
            chunks.drop_first(),
            m,
        )
    }
}

/// Each chunk of a run is well formed: a definite argument that announces
/// exactly its payload's length.
pub open spec fn spec_chunk_run_wf(chunks: Seq<(Arg, Seq<u8>)>) -> bool {
    forall|i: int|
        0 <= i < chunks.len() ==> arg_wf(#[trigger] chunks[i].0) && chunks[i].0 != Arg::Indef
            && arg_value(chunks[i].0) == Some(chunks[i].1.len()) && chunks[i].1.len() <= usize::MAX
}

/// Law: inside an indefinite-length string, a chunk of the wrong major
/// type fails with the inconsistent-chunk error, at any position of the
/// run and whatever follows it.
pub proof fn lemma_chunk_consistency(chunks: Seq<(Arg, Seq<u8>)>, m: Major, bad: Header, rest: Seq<u8>)
    requires
        spec_chunk_run_wf(chunks),
        header_wf(bad),
        bad.0 != m,
        bad != Header::spec_break(),
    ensures
        spec_chunks(spec_chunk_run(chunks, m) + spec_header_bytes(bad) + rest, m) == Err::<
            (Seq<u8>, Seq<u8>),
            Error,
        >(Error::IndefiniteStringInconsistent),
    decreases chunks.len(),
{
    let s = spec_chunk_run(chunks, m) + spec_header_bytes(bad) + rest;
    if chunks.len() == 0 {
        assert(s =~= spec_header_bytes(bad) + rest);
        lemma_header_round_trip(bad, rest);
    } else {
        let h = Header(m, chunks[0].0);
        let p = chunks[0].1;
        let tail = spec_chunk_run(chunks.drop_first(), m) + spec_header_bytes(bad) + rest;
        assert(s =~= spec_header_bytes(h) + (p + tail));
        lemma_header_round_trip(h, p + tail);
        crate::header::lemma_parse_header_ok(s, h);
        let hl = spec_parsed_len(s) as int;
        assert(hl == spec_header_bytes(h).len());
        assert(s.subrange(hl, hl + p.len() as int) =~= p);
        assert(s.skip(hl + p.len() as int) =~= tail);
        assert(spec_chunk_run_wf(chunks.drop_first())) by {
            assert(forall|i: int|
                0 <= i < chunks.drop_first().len() ==> chunks.drop_first()[i] == chunks[i + 1]);
        }
        lemma_chunk_consistency(chunks.drop_first(), m, bad, rest);
    }
}

} // verus!
